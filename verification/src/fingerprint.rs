//! The domain hasher: a 64-bit FNV-1a fingerprint of a normalized name.
//!
//! The fingerprint is deterministic and carries no per-process seed, so the
//! ingestion path and the query path agree across restarts. The block set
//! stores fingerprints only; colliding names are an accepted trade-off of
//! the design.

use vstd::prelude::*;

use crate::name::{lower_bytes, normalize_spec, DOT};

verus! {

/// The FNV-1a 64-bit offset basis.
pub const FNV_OFFSET_BASIS: u64 = 0xcbf2_9ce4_8422_2325;

/// The FNV-1a 64-bit prime.
pub const FNV_PRIME: u64 = 0x0000_0100_0000_01b3;

/// One FNV-1a round: fold a byte into the running hash.
pub open spec fn fnv1a_step(h: u64, b: u8) -> u64 {
    vstd::wrapping::u64_specs::wrapping_mul(h ^ (b as u64), FNV_PRIME)
}

/// The FNV-1a 64-bit hash of a byte sequence.
pub open spec fn fnv1a(s: Seq<u8>) -> u64
    decreases s.len(),
{
    if s.len() == 0 {
        FNV_OFFSET_BASIS
    } else {
        fnv1a_step(fnv1a(s.drop_last()), s.last())
    }
}

/// The fingerprint of a name: the hash of its normalized form.
pub open spec fn fingerprint_spec(name: Seq<u8>) -> u64 {
    fnv1a(normalize_spec(name))
}

/// Hash a byte sequence with FNV-1a.
pub fn fnv1a_bytes(data: &Vec<u8>) -> (r: u64)
    ensures
        r == fnv1a(data@),
{
    let mut h: u64 = FNV_OFFSET_BASIS;
    let mut i: usize = 0;
    while i < data.len()
        invariant
            i <= data@.len(),
            h == fnv1a(data@.take(i as int)),
        decreases data@.len() - i,
    {
        h = (h ^ (data[i] as u64)).wrapping_mul(FNV_PRIME);
        proof {
            assert(data@.take(i + 1).drop_last() =~= data@.take(i as int));
            assert(data@.take(i + 1).last() == data@[i as int]);
        }
        i = i + 1;
    }
    proof {
        assert(data@.take(data@.len() as int) =~= data@);
    }
    h
}

/// Normalize a name and fingerprint it. Both the blocklist ingestion path
/// and the query lookup path go through this one function.
pub fn fingerprint(name: &Vec<u8>) -> (r: u64)
    ensures
        r == fingerprint_spec(name@),
{
    let normalized = crate::name::normalize(name);
    fnv1a_bytes(&normalized)
}

/// The fingerprint of a name does not depend on the letter case of the
/// input nor on whether it already carried its trailing dot.
pub proof fn lemma_fingerprint_insensitive(s: Seq<u8>)
    ensures
        fingerprint_spec(lower_bytes(s)) == fingerprint_spec(s),
        s.len() == 0 || s.last() != DOT ==> fingerprint_spec(s.push(DOT)) == fingerprint_spec(s),
{
    crate::name::lemma_normalize_case_insensitive(s);
    if s.len() == 0 || s.last() != DOT {
        crate::name::lemma_normalize_trailing_dot(s);
    }
}

} // verus!
