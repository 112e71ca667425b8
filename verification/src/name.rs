//! Domain-name normalization: lower-case, trailing-dot-terminated.
//!
//! The same normalization runs on the blocklist ingestion path and on the
//! query lookup path, so that both sides fingerprint a name identically.

use vstd::prelude::*;

verus! {

/// The byte value of `'.'`, the label separator in a domain name.
pub const DOT: u8 = 46;

/// Lower-case a single ASCII byte; bytes outside `'A'..='Z'` are unchanged.
pub open spec fn lower_byte(c: u8) -> u8 {
    if 65 <= c && c <= 90 {
        (c + 32) as u8
    } else {
        c
    }
}

/// Lower-case every byte of a name.
pub open spec fn lower_bytes(s: Seq<u8>) -> Seq<u8> {
    s.map_values(|c: u8| lower_byte(c))
}

/// The normalized form of a name: lower-cased, and terminated by a single
/// trailing dot (one is appended when missing).
pub open spec fn normalize_spec(s: Seq<u8>) -> Seq<u8> {
    let l = lower_bytes(s);
    if l.len() > 0 && l.last() == DOT {
        l
    } else {
        l.push(DOT)
    }
}

/// A byte that may appear in a domain-name token: ASCII letters, digits,
/// hyphen, underscore, or the label separator.
pub open spec fn valid_name_byte(c: u8) -> bool {
    ||| 97 <= c && c <= 122
    ||| 65 <= c && c <= 90
    ||| 48 <= c && c <= 57
    ||| c == 45
    ||| c == 95
    ||| c == DOT
}

/// A syntactically acceptable domain-name token: non-empty, bounded in
/// length, made of name bytes, with no empty label (no leading dot except
/// the bare root name, and no two consecutive dots).
pub open spec fn is_valid_name(s: Seq<u8>) -> bool {
    &&& 0 < s.len() <= 254
    &&& (forall|i: int| 0 <= i < s.len() ==> valid_name_byte(#[trigger] s[i]))
    &&& (s.len() == 1 || s[0] != DOT)
    &&& (forall|i: int| 0 < i < s.len() ==> !(#[trigger] s[i] == DOT && s[i - 1] == DOT))
}

/// Lower-case a name and make sure it carries a trailing dot.
pub fn normalize(name: &Vec<u8>) -> (r: Vec<u8>)
    ensures
        r@ == normalize_spec(name@),
{
    let mut out: Vec<u8> = Vec::new();
    let mut i: usize = 0;
    while i < name.len()
        invariant
            i <= name@.len(),
            out@.len() == i,
            forall|j: int| 0 <= j < i ==> out@[j] == lower_byte(#[trigger] name@[j]),
        decreases name@.len() - i,
    {
        let c = name[i];
        if 65 <= c && c <= 90 {
            out.push(c + 32);
        } else {
            out.push(c);
        }
        i = i + 1;
    }
    proof {
        assert(out@ =~= lower_bytes(name@));
    }
    if out.len() == 0 || out[out.len() - 1] != DOT {
        out.push(DOT);
    }
    out
}

/// Whether a token is a syntactically acceptable domain name.
pub fn is_valid_domain(name: &Vec<u8>) -> (r: bool)
    ensures
        r == is_valid_name(name@),
{
    if name.len() == 0 || name.len() > 254 {
        return false;
    }
    if name.len() > 1 && name[0] == DOT {
        return false;
    }
    let mut i: usize = 0;
    while i < name.len()
        invariant
            i <= name@.len(),
            0 < name@.len() <= 254,
            name@.len() == 1 || name@[0] != DOT,
            forall|j: int| 0 <= j < i ==> valid_name_byte(#[trigger] name@[j]),
            forall|j: int| 0 < j < i ==> !(#[trigger] name@[j] == DOT && name@[j - 1] == DOT),
        decreases name@.len() - i,
    {
        let c = name[i];
        let ok = (97 <= c && c <= 122) || (65 <= c && c <= 90) || (48 <= c && c <= 57)
            || c == 45 || c == 95 || c == DOT;
        if !ok {
            return false;
        }
        if i > 0 && c == DOT && name[i - 1] == DOT {
            return false;
        }
        i = i + 1;
    }
    true
}

/// Lower-casing is idempotent byte for byte.
proof fn lemma_lower_idempotent(s: Seq<u8>)
    ensures
        lower_bytes(lower_bytes(s)) == lower_bytes(s),
{
    assert(lower_bytes(lower_bytes(s)) =~= lower_bytes(s));
}

/// Normalization ignores the letter case of its input: a name and its
/// lower-cased form normalize to the same byte sequence.
pub proof fn lemma_normalize_case_insensitive(s: Seq<u8>)
    ensures
        normalize_spec(lower_bytes(s)) == normalize_spec(s),
{
    lemma_lower_idempotent(s);
}

/// Normalization is idempotent: normalizing an already-normalized name
/// changes nothing.
pub proof fn lemma_normalize_idempotent(s: Seq<u8>)
    ensures
        normalize_spec(normalize_spec(s)) == normalize_spec(s),
{
    lemma_lower_idempotent(s);
    let n = normalize_spec(s);
    if !(lower_bytes(s).len() > 0 && lower_bytes(s).last() == DOT) {
        assert(lower_bytes(lower_bytes(s).push(DOT)) =~= lower_bytes(lower_bytes(s)).push(DOT));
    }
    assert(lower_bytes(n) == n);
    assert(n.len() > 0 && n.last() == DOT);
}

/// Normalization ignores a trailing dot: appending one to a name that does
/// not already end in a dot leaves the normalized form unchanged.
pub proof fn lemma_normalize_trailing_dot(s: Seq<u8>)
    requires
        s.len() == 0 || s.last() != DOT,
    ensures
        normalize_spec(s.push(DOT)) == normalize_spec(s),
{
    assert(lower_bytes(s.push(DOT)) =~= lower_bytes(s).push(DOT));
    if s.len() > 0 {
        assert(lower_bytes(s).last() == lower_byte(s.last()));
    }
}

} // verus!
