//! Decimal text: rendering unsigned numbers, and parsing the small decimal
//! octets that appear in reverse-lookup names.

use vstd::prelude::*;

verus! {

/// An ASCII decimal digit.
pub open spec fn is_digit(c: u8) -> bool {
    48 <= c && c <= 57
}

/// The canonical decimal rendering of a number: no leading zeros, and a
/// single `"0"` for zero.
pub open spec fn dec_text(n: nat) -> Seq<u8>
    decreases n,
{
    if n < 10 {
        seq![(48 + n) as u8]
    } else {
        dec_text(n / 10).push((48 + n % 10) as u8)
    }
}

/// The value of a digit string, most significant digit first.
pub open spec fn dec_val(s: Seq<u8>) -> nat
    decreases s.len(),
{
    if s.len() == 0 {
        0
    } else {
        dec_val(s.drop_last()) * 10 + (if s.last() >= 48 {
            (s.last() - 48) as nat
        } else {
            0
        })
    }
}

/// Shape and value of the canonical rendering: digits only, no leading
/// zero, its value is the number itself, and its length is bounded by the
/// number's size.
pub proof fn lemma_dec_text(n: nat)
    ensures
        dec_text(n).len() >= 1,
        forall|i: int| 0 <= i < dec_text(n).len() ==> is_digit(#[trigger] dec_text(n)[i]),
        dec_val(dec_text(n)) == n,
        n > 0 ==> dec_text(n)[0] != 48,
        n < 10 ==> dec_text(n).len() == 1,
        n < 100 ==> dec_text(n).len() <= 2,
        n < 1000 ==> dec_text(n).len() <= 3,
    decreases n,
{
    if n < 10 {
        assert(seq![(48 + n) as u8].drop_last() =~= Seq::<u8>::empty());
        assert(dec_val(Seq::<u8>::empty()) == 0);
        assert(dec_text(n).last() == (48 + n) as u8);
        assert(dec_val(dec_text(n)) == n);
    } else {
        lemma_dec_text(n / 10);
        vstd::arithmetic::div_mod::lemma_fundamental_div_mod(n as int, 10);
        let d = (48 + n % 10) as u8;
        assert(dec_text(n).drop_last() =~= dec_text(n / 10));
        assert(dec_text(n).last() == d);
    }
}

/// Append the decimal rendering of `n` to a byte vector.
pub fn push_u64(out: &mut Vec<u8>, n: u64)
    ensures
        final(out)@ == old(out)@ + dec_text(n as nat),
{
    let ghost pre = out@;
    if n == 0 {
        out.push(48);
        proof {
            assert(out@ =~= pre + dec_text(0));
        }
        return ;
    }
    let mut tmp: Vec<u8> = Vec::new();
    let mut m: u64 = n;
    while m > 0
        invariant
            dec_text(n as nat) == (if m > 0 {
                dec_text(m as nat)
            } else {
                Seq::<u8>::empty()
            }) + Seq::new(tmp@.len(), |j: int| tmp@[tmp@.len() - 1 - j]),
        decreases m,
    {
        let ghost old_m = m as nat;
        let ghost old_tmp = tmp@;
        tmp.push(48 + (m % 10) as u8);
        m = m / 10;
        proof {
            let rev_old = Seq::new(old_tmp.len(), |j: int| old_tmp[old_tmp.len() - 1 - j]);
            let rev_new = Seq::new(tmp@.len(), |j: int| tmp@[tmp@.len() - 1 - j]);
            let d = (48 + old_m % 10) as u8;
            assert(rev_new =~= seq![d] + rev_old);
            if m > 0 {
                assert(dec_text(old_m) == dec_text(m as nat).push(d));
                assert(dec_text(m as nat) + rev_new =~= (dec_text(old_m)) + rev_old);
            } else {
                assert(old_m < 10);
                assert(dec_text(old_m) =~= seq![d]);
                assert(Seq::<u8>::empty() + rev_new =~= dec_text(old_m) + rev_old);
            }
        }
    }
    let tmp_len = tmp.len();
    let mut j: usize = 0;
    while j < tmp_len
        invariant
            j <= tmp@.len(),
            tmp@.len() == tmp_len,
            dec_text(n as nat) == Seq::new(tmp@.len(), |t: int| tmp@[tmp@.len() - 1 - t]),
            out@ == pre + Seq::new(j as nat, |t: int| tmp@[tmp@.len() - 1 - t]),
        decreases tmp@.len() - j,
    {
        out.push(tmp[tmp.len() - 1 - j]);
        proof {
            assert(out@ =~= pre + Seq::new((j + 1) as nat, |t: int| tmp@[tmp@.len() - 1 - t]));
        }
        j = j + 1;
    }
    proof {
        assert(out@ =~= pre + dec_text(n as nat));
    }
}

/// A canonical decimal octet: one to three digits, no leading zero, value
/// at most 255.
pub open spec fn is_octet_text(s: Seq<u8>) -> bool {
    &&& 1 <= s.len() <= 3
    &&& (forall|i: int| 0 <= i < s.len() ==> is_digit(#[trigger] s[i]))
    &&& (s.len() == 1 || s[0] != 48)
    &&& dec_val(s) <= 255
}

/// The octet a canonical decimal text denotes, if any.
pub open spec fn parse_octet_spec(s: Seq<u8>) -> Option<u8> {
    if is_octet_text(s) {
        Some(dec_val(s) as u8)
    } else {
        None
    }
}

/// Parse a canonical decimal octet.
pub fn parse_octet(s: &Vec<u8>) -> (r: Option<u8>)
    ensures
        r == parse_octet_spec(s@),
{
    if s.len() < 1 || s.len() > 3 {
        return None;
    }
    if s.len() > 1 && s[0] == 48 {
        return None;
    }
    let mut val: u32 = 0;
    let mut i: usize = 0;
    while i < s.len()
        invariant
            i <= s@.len() <= 3,
            forall|j: int| 0 <= j < i ==> is_digit(#[trigger] s@[j]),
            val == dec_val(s@.take(i as int)),
            i == 0 ==> val == 0,
            i == 1 ==> val <= 9,
            i == 2 ==> val <= 99,
            i == 3 ==> val <= 999,
        decreases s@.len() - i,
    {
        let c = s[i];
        if c < 48 || c > 57 {
            return None;
        }
        val = val * 10 + (c - 48) as u32;
        proof {
            assert(s@.take(i + 1).drop_last() =~= s@.take(i as int));
            assert(s@.take(i + 1).last() == s@[i as int]);
        }
        i = i + 1;
    }
    proof {
        assert(s@.take(s@.len() as int) =~= s@);
    }
    if val > 255 {
        None
    } else {
        Some(val as u8)
    }
}

} // verus!
