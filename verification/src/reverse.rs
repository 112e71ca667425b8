//! The reverse-lookup authority's computations: decoding an IPv4 address
//! from a PTR query name in reverse-octet dotted form, building the
//! inventory-service query for it, choosing a display name from a match,
//! and shaping the PTR answer records.
//!
//! The live call to the inventory service, and every DNS wire concern,
//! stay with the embedder; only PTR queries are answered, and everything
//! else at this authority is refused.

use vstd::prelude::*;

use crate::bytes::{
    bytes_eq, find_byte, find_byte_in, lemma_find_byte, lemma_split_bytes_len, lemma_split_none,
    lemma_split_prepend, split_bytes, subvec,
};
use crate::decimal::{dec_text, lemma_dec_text, parse_octet, parse_octet_spec};
use crate::name::DOT;

verus! {

/// The TTL, in seconds, of every synthesized PTR record: short, matching
/// frequently-reassigned internal addressing.
pub const PTR_TTL_SECONDS: u32 = 600;

/// An IPv4 address as four plain octets, `a.b.c.d`.
#[derive(Clone, Copy, PartialEq, Eq, Structural, Debug)]
pub struct Ipv4 {
    pub a: u8,
    pub b: u8,
    pub c: u8,
    pub d: u8,
}

/// The bytes of `".in-addr.arpa."`, the reverse-lookup zone suffix.
pub open spec fn arpa_suffix() -> Seq<u8> {
    seq![
        DOT,
        105,
        110,
        45,
        97,
        100,
        100,
        114,
        DOT,
        97,
        114,
        112,
        97,
        DOT,
    ]
}

/// The address a PTR query name encodes: the name must be four canonical
/// decimal octets in reverse order followed by the reverse-lookup suffix,
/// `d.c.b.a.in-addr.arpa.` for address `a.b.c.d`.
pub open spec fn parse_ptr_spec(q: Seq<u8>) -> Option<Ipv4> {
    if q.len() >= 14 && q.skip(q.len() - 14) == arpa_suffix() {
        let parts = split_bytes(q.take(q.len() - 14), DOT);
        if parts.len() == 4 {
            match (
                parse_octet_spec(parts[0]),
                parse_octet_spec(parts[1]),
                parse_octet_spec(parts[2]),
                parse_octet_spec(parts[3]),
            ) {
                (Some(p0), Some(p1), Some(p2), Some(p3)) => Some(
                    Ipv4 { a: p3, b: p2, c: p1, d: p0 },
                ),
                _ => None,
            }
        } else {
            None
        }
    } else {
        None
    }
}

/// The PTR query name that encodes an address: octets reversed, then the
/// reverse-lookup suffix.
pub open spec fn ptr_name_of(ip: Ipv4) -> Seq<u8> {
    dec_text(ip.d as nat) + seq![DOT] + dec_text(ip.c as nat) + seq![DOT] + dec_text(ip.b as nat)
        + seq![DOT] + dec_text(ip.a as nat) + arpa_suffix()
}

/// The bytes of `".in-addr.arpa."`.
pub fn arpa_suffix_bytes() -> (r: Vec<u8>)
    ensures
        r@ == arpa_suffix(),
{
    let mut v: Vec<u8> = Vec::new();
    v.push(DOT);
    v.push(105);
    v.push(110);
    v.push(45);
    v.push(97);
    v.push(100);
    v.push(100);
    v.push(114);
    v.push(DOT);
    v.push(97);
    v.push(114);
    v.push(112);
    v.push(97);
    v.push(DOT);
    proof {
        assert(v@ =~= arpa_suffix());
    }
    v
}

/// Decode the IPv4 address a PTR query name encodes, inverting the octet
/// order.
pub fn parse_ptr_name(q: &Vec<u8>) -> (r: Option<Ipv4>)
    ensures
        r == parse_ptr_spec(q@),
{
    let n = q.len();
    if n < 14 {
        return None;
    }
    let suffix = arpa_suffix_bytes();
    let tail = subvec(q, n - 14, n);
    proof {
        assert(tail@ =~= q@.skip(n - 14));
    }
    if !bytes_eq(&tail, &suffix) {
        return None;
    }
    let head = subvec(q, 0, n - 14);
    proof {
        assert(head@ =~= q@.take(n - 14));
        lemma_find_byte(head@, DOT);
    }
    let i1 = find_byte_in(&head, DOT);
    if i1 == head.len() {
        return None;
    }
    let p0 = subvec(&head, 0, i1);
    let r1 = subvec(&head, i1 + 1, head.len());
    proof {
        assert(p0@ =~= head@.take(i1 as int));
        assert(r1@ =~= head@.skip(i1 + 1));
        lemma_find_byte(r1@, DOT);
    }
    let i2 = find_byte_in(&r1, DOT);
    if i2 == r1.len() {
        proof {
            assert(split_bytes(r1@, DOT) =~= seq![r1@]);
            assert(split_bytes(head@, DOT) =~= seq![p0@] + split_bytes(r1@, DOT));
            assert(split_bytes(head@, DOT).len() == 2);
        }
        return None;
    }
    let p1 = subvec(&r1, 0, i2);
    let r2 = subvec(&r1, i2 + 1, r1.len());
    proof {
        assert(p1@ =~= r1@.take(i2 as int));
        assert(r2@ =~= r1@.skip(i2 + 1));
        lemma_find_byte(r2@, DOT);
    }
    let i3 = find_byte_in(&r2, DOT);
    if i3 == r2.len() {
        proof {
            assert(split_bytes(r2@, DOT) =~= seq![r2@]);
            assert(split_bytes(r1@, DOT) =~= seq![p1@] + split_bytes(r2@, DOT));
            assert(split_bytes(head@, DOT) =~= seq![p0@] + split_bytes(r1@, DOT));
            assert(split_bytes(head@, DOT).len() == 3);
        }
        return None;
    }
    let p2 = subvec(&r2, 0, i3);
    let r3 = subvec(&r2, i3 + 1, r2.len());
    proof {
        assert(p2@ =~= r2@.take(i3 as int));
        assert(r3@ =~= r2@.skip(i3 + 1));
        lemma_find_byte(r3@, DOT);
    }
    let i4 = find_byte_in(&r3, DOT);
    if i4 < r3.len() {
        proof {
            lemma_split_bytes_len(r3@.skip(i4 + 1), DOT);
            assert(split_bytes(r3@, DOT).len() >= 2);
            assert(split_bytes(r2@, DOT) =~= seq![p2@] + split_bytes(r3@, DOT));
            assert(split_bytes(r1@, DOT) =~= seq![p1@] + split_bytes(r2@, DOT));
            assert(split_bytes(head@, DOT) =~= seq![p0@] + split_bytes(r1@, DOT));
            assert(split_bytes(head@, DOT).len() >= 5);
        }
        return None;
    }
    let ghost parts = split_bytes(head@, DOT);
    proof {
        assert(split_bytes(r3@, DOT) =~= seq![r3@]);
        assert(split_bytes(r2@, DOT) =~= seq![p2@] + split_bytes(r3@, DOT));
        assert(split_bytes(r1@, DOT) =~= seq![p1@] + split_bytes(r2@, DOT));
        assert(split_bytes(head@, DOT) =~= seq![p0@] + split_bytes(r1@, DOT));
        assert(parts =~= seq![p0@, p1@, p2@, r3@]);
        assert(parts[0] == p0@);
        assert(parts[1] == p1@);
        assert(parts[2] == p2@);
        assert(parts[3] == r3@);
    }
    let o0 = parse_octet(&p0);
    let o1 = parse_octet(&p1);
    let o2 = parse_octet(&p2);
    let o3 = parse_octet(&r3);
    match (o0, o1, o2, o3) {
        (Some(p0v), Some(p1v), Some(p2v), Some(p3v)) => Some(
            Ipv4 { a: p3v, b: p2v, c: p1v, d: p0v },
        ),
        _ => None,
    }
}

/// Encoding an address as a PTR query name and decoding it give the
/// address back, octet order intact.
#[verifier::rlimit(60)]
pub proof fn lemma_ptr_round_trip(ip: Ipv4)
    ensures
        parse_ptr_spec(ptr_name_of(ip)) == Some(ip),
{
    let q = ptr_name_of(ip);
    lemma_dec_text(ip.a as nat);
    lemma_dec_text(ip.b as nat);
    lemma_dec_text(ip.c as nat);
    lemma_dec_text(ip.d as nat);
    let td = dec_text(ip.d as nat);
    let tc = dec_text(ip.c as nat);
    let tb = dec_text(ip.b as nat);
    let ta = dec_text(ip.a as nat);
    let head = td + seq![DOT] + tc + seq![DOT] + tb + seq![DOT] + ta;
    assert(q.len() >= 14);
    assert(q.skip(q.len() - 14) =~= arpa_suffix());
    assert(q.take(q.len() - 14) =~= head);
    assert(head =~= td + seq![DOT] + (tc + seq![DOT] + (tb + seq![DOT] + ta)));
    lemma_split_prepend(td, tc + seq![DOT] + (tb + seq![DOT] + ta), DOT);
    lemma_split_prepend(tc, tb + seq![DOT] + ta, DOT);
    lemma_split_prepend(tb, ta, DOT);
    lemma_split_none(ta, DOT);
    assert(split_bytes(head, DOT) =~= seq![td, tc, tb, ta]);
    lemma_octet_text_round_trip(ip.a);
    lemma_octet_text_round_trip(ip.b);
    lemma_octet_text_round_trip(ip.c);
    lemma_octet_text_round_trip(ip.d);
}

/// The canonical decimal text of an octet parses back to the octet.
pub proof fn lemma_octet_text_round_trip(v: u8)
    ensures
        parse_octet_spec(dec_text(v as nat)) == Some(v),
{
    lemma_dec_text(v as nat);
}

/// What the authority does with one incoming query.
#[derive(Clone, Copy, PartialEq, Eq, Structural, Debug)]
pub enum ReverseDecision {
    /// A PTR query whose name encodes this address: look it up.
    Lookup(Ipv4),
    /// A PTR query whose name encodes no address: a recoverable per-query
    /// failure.
    BadName,
    /// Any query type other than PTR: answered not-implemented.
    NotPtrQuery,
}

/// Decide one query at the reverse authority: only a PTR query with a
/// well-formed reverse-octet name leads to a lookup.
pub fn plan_reverse_query(is_ptr: bool, qname: &Vec<u8>) -> (r: ReverseDecision)
    ensures
        !is_ptr ==> r == ReverseDecision::NotPtrQuery,
        is_ptr ==> match parse_ptr_spec(qname@) {
            Some(ip) => r == ReverseDecision::Lookup(ip),
            None => r == ReverseDecision::BadName,
        },
{
    if !is_ptr {
        return ReverseDecision::NotPtrQuery;
    }
    match parse_ptr_name(qname) {
        Some(ip) => ReverseDecision::Lookup(ip),
        None => ReverseDecision::BadName,
    }
}

/// The dotted text of an address, `a.b.c.d`, octets in forward order.
pub open spec fn addr_text(ip: Ipv4) -> Seq<u8> {
    dec_text(ip.a as nat) + seq![DOT] + dec_text(ip.b as nat) + seq![DOT] + dec_text(ip.c as nat)
        + seq![DOT] + dec_text(ip.d as nat)
}

/// Render an address as dotted decimal text.
pub fn format_addr(ip: Ipv4) -> (r: Vec<u8>)
    ensures
        r@ == addr_text(ip),
{
    let mut out: Vec<u8> = Vec::new();
    crate::decimal::push_u64(&mut out, ip.a as u64);
    out.push(DOT);
    crate::decimal::push_u64(&mut out, ip.b as u64);
    out.push(DOT);
    crate::decimal::push_u64(&mut out, ip.c as u64);
    out.push(DOT);
    crate::decimal::push_u64(&mut out, ip.d as u64);
    proof {
        assert(out@ =~= addr_text(ip));
    }
    out
}

/// The bytes of `"api/ipam/ip-addresses/?q="`, the inventory service's
/// address-search path.
pub open spec fn ipam_path_prefix() -> Seq<u8> {
    seq![
        97,
        112,
        105,
        47,
        105,
        112,
        97,
        109,
        47,
        105,
        112,
        45,
        97,
        100,
        100,
        114,
        101,
        115,
        115,
        101,
        115,
        47,
        63,
        113,
        61,
    ]
}

/// The inventory-service search request for an address: path, then the
/// address as the query value.
pub open spec fn ipam_query_path_spec(ip: Ipv4) -> Seq<u8> {
    ipam_path_prefix() + addr_text(ip)
}

/// Build the inventory-service search path for an address.
pub fn ipam_query_path(ip: Ipv4) -> (r: Vec<u8>)
    ensures
        r@ == ipam_query_path_spec(ip),
{
    let mut out: Vec<u8> = Vec::new();
    out.push(97);
    out.push(112);
    out.push(105);
    out.push(47);
    out.push(105);
    out.push(112);
    out.push(97);
    out.push(109);
    out.push(47);
    out.push(105);
    out.push(112);
    out.push(45);
    out.push(97);
    out.push(100);
    out.push(100);
    out.push(114);
    out.push(101);
    out.push(115);
    out.push(115);
    out.push(101);
    out.push(115);
    out.push(47);
    out.push(63);
    out.push(113);
    out.push(61);
    proof {
        assert(out@ =~= ipam_path_prefix());
    }
    let addr = format_addr(ip);
    let mut i: usize = 0;
    while i < addr.len()
        invariant
            i <= addr@.len(),
            out@ == ipam_path_prefix() + addr@.take(i as int),
        decreases addr@.len() - i,
    {
        out.push(addr[i]);
        proof {
            assert(ipam_path_prefix() + addr@.take(i + 1) =~= (ipam_path_prefix()
                + addr@.take(i as int)).push(addr@[i as int]));
        }
        i = i + 1;
    }
    proof {
        assert(addr@.take(addr@.len() as int) =~= addr@);
        assert(out@ =~= ipam_query_path_spec(ip));
    }
    out
}

/// Pick a matched record's display name: a device name is preferred over a
/// virtual-machine name when both are present.
pub fn choose_display_name(device: Option<Vec<u8>>, vm: Option<Vec<u8>>) -> (r: Option<Vec<u8>>)
    ensures
        device is Some ==> r == device,
        device is None ==> r == vm,
{
    match device {
        Some(d) => Some(d),
        None => vm,
    }
}

/// One synthesized PTR answer record.
pub struct PtrRecord {
    /// The owner name: the query name itself.
    pub name: Vec<u8>,
    /// The record's time to live, in seconds.
    pub ttl: u32,
    /// The pointed-to name.
    pub target: Vec<u8>,
}

/// Shape the PTR answer: one record per matched name, each owned by the
/// query name, with the short reverse-lookup TTL.
pub fn build_ptr_records(qname: &Vec<u8>, names: Vec<Vec<u8>>) -> (r: Vec<PtrRecord>)
    ensures
        r@.len() == names@.len(),
        forall|i: int| 0 <= i < r@.len() ==> {
            &&& (#[trigger] r@[i]).name@ == qname@
            &&& r@[i].ttl == PTR_TTL_SECONDS
            &&& r@[i].target@ == names@[i]@
        },
{
    let mut out: Vec<PtrRecord> = Vec::new();
    let mut i: usize = 0;
    while i < names.len()
        invariant
            i <= names@.len(),
            out@.len() == i,
            forall|j: int| 0 <= j < i ==> {
                &&& (#[trigger] out@[j]).name@ == qname@
                &&& out@[j].ttl == PTR_TTL_SECONDS
                &&& out@[j].target@ == names@[j]@
            },
        decreases names@.len() - i,
    {
        let name = subvec(qname, 0, qname.len());
        let target = subvec(&names[i], 0, names[i].len());
        proof {
            assert(name@ =~= qname@);
            assert(target@ =~= names@[i as int]@);
        }
        out.push(PtrRecord { name, ttl: PTR_TTL_SECONDS, target });
        i = i + 1;
    }
    out
}

} // verus!
