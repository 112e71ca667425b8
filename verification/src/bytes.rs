//! Small byte-sequence utilities shared by the parsers: searching for a
//! separator, trimming surrounding whitespace, taking subranges, and
//! splitting on a separator byte.

use vstd::prelude::*;

verus! {

/// ASCII whitespace as it appears around tokens in fetched list lines:
/// space, horizontal tab, carriage return.
pub open spec fn is_space(c: u8) -> bool {
    c == 32 || c == 9 || c == 13
}

/// The index of the first occurrence of `sep` in `s`, or `s.len()` when
/// `sep` does not occur.
pub open spec fn find_byte(s: Seq<u8>, sep: u8) -> int
    decreases s.len(),
{
    if s.len() == 0 {
        0
    } else if s[0] == sep {
        0
    } else {
        1 + find_byte(s.skip(1), sep)
    }
}

/// What `find_byte` returns: an index within bounds, pointing at the first
/// occurrence of the separator when there is one.
pub proof fn lemma_find_byte(s: Seq<u8>, sep: u8)
    ensures
        0 <= find_byte(s, sep) <= s.len(),
        find_byte(s, sep) < s.len() ==> s[find_byte(s, sep)] == sep,
        forall|j: int| 0 <= j < find_byte(s, sep) ==> s[j] != sep,
    decreases s.len(),
{
    if s.len() > 0 && s[0] != sep {
        lemma_find_byte(s.skip(1), sep);
        assert forall|j: int| 0 <= j < find_byte(s, sep) implies s[j] != sep by {
            if j > 0 {
                assert(s.skip(1)[j - 1] == s[j]);
            }
        }
    }
}

/// `find_byte` is the unique index with no separator before it that either
/// sits on a separator or is the end of the sequence.
pub proof fn lemma_find_byte_is(s: Seq<u8>, sep: u8, i: int)
    requires
        0 <= i <= s.len(),
        forall|j: int| 0 <= j < i ==> s[j] != sep,
        i == s.len() || s[i] == sep,
    ensures
        find_byte(s, sep) == i,
{
    lemma_find_byte(s, sep);
    let f = find_byte(s, sep);
    if f < i {
        assert(s[f] != sep);
    }
    if i < f {
        assert(s[i] != sep);
    }
}

/// Scan for the first occurrence of a separator byte.
pub fn find_byte_in(s: &Vec<u8>, sep: u8) -> (r: usize)
    ensures
        r == find_byte(s@, sep),
{
    let mut i: usize = 0;
    while i < s.len()
        invariant
            i <= s@.len(),
            forall|j: int| 0 <= j < i ==> s@[j] != sep,
        decreases s@.len() - i,
    {
        if s[i] == sep {
            proof {
                lemma_find_byte_is(s@, sep, i as int);
            }
            return i;
        }
        i = i + 1;
    }
    proof {
        lemma_find_byte_is(s@, sep, s@.len() as int);
    }
    i
}

/// Copy the subrange `[from, to)` of a byte vector.
pub fn subvec(s: &Vec<u8>, from: usize, to: usize) -> (r: Vec<u8>)
    requires
        from <= to <= s@.len(),
    ensures
        r@ == s@.subrange(from as int, to as int),
{
    let mut out: Vec<u8> = Vec::new();
    let mut i: usize = from;
    while i < to
        invariant
            from <= i <= to <= s@.len(),
            out@.len() == i - from,
            forall|j: int| 0 <= j < out@.len() ==> out@[j] == s@[from + j],
        decreases to - i,
    {
        out.push(s[i]);
        i = i + 1;
    }
    proof {
        assert(out@ =~= s@.subrange(from as int, to as int));
    }
    out
}

/// Whether two byte vectors hold the same bytes.
pub fn bytes_eq(a: &Vec<u8>, b: &Vec<u8>) -> (r: bool)
    ensures
        r == (a@ == b@),
{
    if a.len() != b.len() {
        return false;
    }
    let mut i: usize = 0;
    while i < a.len()
        invariant
            i <= a@.len(),
            a@.len() == b@.len(),
            forall|j: int| 0 <= j < i ==> a@[j] == b@[j],
        decreases a@.len() - i,
    {
        if a[i] != b[i] {
            return false;
        }
        i = i + 1;
    }
    proof {
        assert(a@ =~= b@);
    }
    true
}

/// Drop leading whitespace.
pub open spec fn trim_start_spec(s: Seq<u8>) -> Seq<u8>
    decreases s.len(),
{
    if s.len() > 0 && is_space(s[0]) {
        trim_start_spec(s.skip(1))
    } else {
        s
    }
}

/// Drop trailing whitespace.
pub open spec fn trim_end_spec(s: Seq<u8>) -> Seq<u8>
    decreases s.len(),
{
    if s.len() > 0 && is_space(s.last()) {
        trim_end_spec(s.drop_last())
    } else {
        s
    }
}

/// Drop whitespace from both ends.
pub open spec fn trim_spec(s: Seq<u8>) -> Seq<u8> {
    trim_end_spec(trim_start_spec(s))
}

proof fn lemma_trim_start_at(s: Seq<u8>, a: int)
    requires
        0 <= a <= s.len(),
        forall|j: int| 0 <= j < a ==> is_space(s[j]),
        a == s.len() || !is_space(s[a]),
    ensures
        trim_start_spec(s) == s.skip(a),
    decreases a,
{
    if a == 0 {
        if s.len() > 0 {
            assert(!is_space(s[0]));
        }
        assert(s.skip(0) =~= s);
    } else {
        assert(is_space(s[0]));
        lemma_trim_start_at(s.skip(1), a - 1);
        assert(s.skip(1).skip(a - 1) =~= s.skip(a));
    }
}

proof fn lemma_trim_end_at(s: Seq<u8>, b: int)
    requires
        0 <= b <= s.len(),
        forall|j: int| b <= j < s.len() ==> is_space(s[j]),
        b == 0 || !is_space(s[b - 1]),
    ensures
        trim_end_spec(s) == s.take(b),
    decreases s.len() - b,
{
    if b == s.len() {
        if s.len() > 0 {
            assert(!is_space(s.last()));
        }
        assert(s.take(b) =~= s);
    } else {
        assert(is_space(s.last()));
        lemma_trim_end_at(s.drop_last(), b);
        assert(s.drop_last().take(b) =~= s.take(b));
    }
}

/// Trim whitespace from both ends of a byte vector.
pub fn trim(s: &Vec<u8>) -> (r: Vec<u8>)
    ensures
        r@ == trim_spec(s@),
{
    let mut a: usize = 0;
    while a < s.len() && (s[a] == 32 || s[a] == 9 || s[a] == 13)
        invariant
            a <= s@.len(),
            forall|j: int| 0 <= j < a ==> is_space(s@[j]),
        decreases s@.len() - a,
    {
        a = a + 1;
    }
    proof {
        lemma_trim_start_at(s@, a as int);
    }
    let mut b: usize = s.len();
    while b > a && (s[b - 1] == 32 || s[b - 1] == 9 || s[b - 1] == 13)
        invariant
            a <= b <= s@.len(),
            forall|j: int| b <= j < s@.len() ==> is_space(s@[j]),
        decreases b,
    {
        b = b - 1;
    }
    proof {
        let t = s@.skip(a as int);
        assert forall|j: int| b - a <= j < t.len() implies is_space(t[j]) by {
            assert(t[j] == s@[a + j]);
        }
        if b > a {
            assert(t[b - a - 1] == s@[b - 1]);
        }
        lemma_trim_end_at(t, b - a);
        assert(t.take(b - a) =~= s@.subrange(a as int, b as int));
    }
    subvec(s, a, b)
}

/// Split on a separator byte. Every occurrence separates two (possibly
/// empty) parts; a sequence without the separator is one part.
pub open spec fn split_bytes(s: Seq<u8>, sep: u8) -> Seq<Seq<u8>>
    decreases s.len(),
    via split_bytes_decreases
{
    let i = find_byte(s, sep);
    if i == s.len() {
        seq![s]
    } else {
        seq![s.take(i)] + split_bytes(s.skip(i + 1), sep)
    }
}

#[via_fn]
proof fn split_bytes_decreases(s: Seq<u8>, sep: u8) {
    lemma_find_byte(s, sep);
}

/// A sequence without the separator splits into itself alone.
pub proof fn lemma_split_none(tok: Seq<u8>, sep: u8)
    requires
        forall|j: int| 0 <= j < tok.len() ==> tok[j] != sep,
    ensures
        split_bytes(tok, sep) == seq![tok],
{
    lemma_find_byte_is(tok, sep, tok.len() as int);
}

/// Splitting a sequence that opens with a separator-free part followed by
/// one separator peels that part off.
pub proof fn lemma_split_prepend(tok: Seq<u8>, rest: Seq<u8>, sep: u8)
    requires
        forall|j: int| 0 <= j < tok.len() ==> tok[j] != sep,
    ensures
        split_bytes(tok + seq![sep] + rest, sep) == seq![tok] + split_bytes(rest, sep),
{
    let s = tok + seq![sep] + rest;
    assert forall|j: int| 0 <= j < tok.len() implies s[j] != sep by {
        assert(s[j] == tok[j]);
    }
    assert(s[tok.len() as int] == sep);
    lemma_find_byte_is(s, sep, tok.len() as int);
    assert(s.take(tok.len() as int) =~= tok);
    assert(s.skip(tok.len() as int + 1) =~= rest);
}

/// Splitting yields at least one part.
pub proof fn lemma_split_bytes_len(s: Seq<u8>, sep: u8)
    ensures
        split_bytes(s, sep).len() >= 1,
    decreases s.len(),
{
    lemma_find_byte(s, sep);
    let i = find_byte(s, sep);
    if i != s.len() {
        lemma_split_bytes_len(s.skip(i + 1), sep);
    }
}

} // verus!
