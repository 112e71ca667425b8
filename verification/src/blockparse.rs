//! Parsing fetched blocklist text into name fingerprints.
//!
//! Three line shapes are tolerated: hosts-file syntax (`<ip> <domain>`,
//! optionally commented), whitespace- or tab-delimited two-column files,
//! and bare domain-per-line lists with trailing `#` comments. Whatever
//! remains of a line after the comment and the first column is split on
//! spaces; each non-empty token that looks like a domain name contributes
//! its fingerprint, and everything else is skipped, never fatal.

use vstd::prelude::*;

use crate::bytes::{find_byte, find_byte_in, lemma_find_byte, split_bytes, subvec, trim, trim_spec};
use crate::fingerprint::{fingerprint, fingerprint_spec};
use crate::name::is_valid_name;

verus! {

/// The byte value of `'#'`, which opens a trailing comment.
pub const HASH: u8 = 35;

/// The byte value of horizontal tab.
pub const TAB: u8 = 9;

/// The byte value of a space.
pub const SPACE: u8 = 32;

/// The byte value of a line feed.
pub const NEWLINE: u8 = 10;

/// The part of a line that can hold domain names: the line is trimmed,
/// cut at the first `#`, trimmed again so a dropped trailing comment
/// leaves no stray whitespace, and when a tab (first) or a space remains,
/// the leading column before it is dropped, as in a hosts file.
pub open spec fn domain_column(line: Seq<u8>) -> Seq<u8> {
    let t0 = trim_spec(line);
    let t = trim_spec(t0.take(find_byte(t0, HASH)));
    let c = t;
    if find_byte(c, TAB) < c.len() {
        c.skip(find_byte(c, TAB) + 1)
    } else if find_byte(c, SPACE) < c.len() {
        c.skip(find_byte(c, SPACE) + 1)
    } else {
        c
    }
}

/// The fingerprints one candidate token contributes: one for a non-empty,
/// syntactically acceptable domain name, none otherwise.
pub open spec fn token_fps(tok: Seq<u8>) -> Seq<u64> {
    if tok.len() > 0 && is_valid_name(tok) {
        seq![fingerprint_spec(tok)]
    } else {
        Seq::empty()
    }
}

/// The fingerprints of a token list, in order.
pub open spec fn tokens_fps(toks: Seq<Seq<u8>>) -> Seq<u64>
    decreases toks.len(),
{
    if toks.len() == 0 {
        Seq::empty()
    } else {
        tokens_fps(toks.drop_last()) + token_fps(toks.last())
    }
}

/// Every fingerprint one line yields.
pub open spec fn line_fps(line: Seq<u8>) -> Seq<u64> {
    tokens_fps(split_bytes(domain_column(line), SPACE))
}

/// The fingerprints of a line list, in order.
pub open spec fn lines_fps(lines: Seq<Seq<u8>>) -> Seq<u64>
    decreases lines.len(),
{
    if lines.len() == 0 {
        Seq::empty()
    } else {
        lines_fps(lines.drop_last()) + line_fps(lines.last())
    }
}

/// Every fingerprint a whole source body yields, line by line.
pub open spec fn text_fps(text: Seq<u8>) -> Seq<u64> {
    lines_fps(split_bytes(text, NEWLINE))
}

proof fn lemma_tokens_fps_single(x: Seq<u8>)
    ensures
        tokens_fps(seq![x]) == token_fps(x),
{
    assert(seq![x].drop_last() =~= Seq::<Seq<u8>>::empty());
    assert(seq![x].last() == x);
    assert(tokens_fps(seq![x].drop_last()) == Seq::<u64>::empty());
    assert(Seq::<u64>::empty() + token_fps(x) =~= token_fps(x));
}

proof fn lemma_lines_fps_single(x: Seq<u8>)
    ensures
        lines_fps(seq![x]) == line_fps(x),
{
    assert(seq![x].drop_last() =~= Seq::<Seq<u8>>::empty());
    assert(seq![x].last() == x);
    assert(lines_fps(seq![x].drop_last()) == Seq::<u64>::empty());
    assert(Seq::<u64>::empty() + line_fps(x) =~= line_fps(x));
}

proof fn lemma_tokens_fps_concat(a: Seq<Seq<u8>>, b: Seq<Seq<u8>>)
    ensures
        tokens_fps(a + b) == tokens_fps(a) + tokens_fps(b),
    decreases b.len(),
{
    if b.len() == 0 {
        assert(a + b =~= a);
        assert(tokens_fps(a) + tokens_fps(b) =~= tokens_fps(a));
    } else {
        lemma_tokens_fps_concat(a, b.drop_last());
        assert((a + b).drop_last() =~= a + b.drop_last());
        assert((a + b).last() == b.last());
        assert(tokens_fps(a + b) =~= tokens_fps(a) + tokens_fps(b));
    }
}

proof fn lemma_lines_fps_concat(a: Seq<Seq<u8>>, b: Seq<Seq<u8>>)
    ensures
        lines_fps(a + b) == lines_fps(a) + lines_fps(b),
    decreases b.len(),
{
    if b.len() == 0 {
        assert(a + b =~= a);
        assert(lines_fps(a) + lines_fps(b) =~= lines_fps(a));
    } else {
        lemma_lines_fps_concat(a, b.drop_last());
        assert((a + b).drop_last() =~= a + b.drop_last());
        assert((a + b).last() == b.last());
        assert(lines_fps(a + b) =~= lines_fps(a) + lines_fps(b));
    }
}

/// Append the fingerprint of one candidate token, when it is acceptable.
fn push_token_fps(out: &mut Vec<u64>, tok: &Vec<u8>)
    ensures
        final(out)@ == old(out)@ + token_fps(tok@),
{
    let ghost pre = out@;
    if tok.len() > 0 && crate::name::is_valid_domain(tok) {
        let fp = fingerprint(tok);
        out.push(fp);
        proof {
            assert(out@ =~= pre + token_fps(tok@));
        }
    } else {
        proof {
            assert(out@ =~= pre + token_fps(tok@));
        }
    }
}

/// Append the fingerprints of every space-separated token of a column.
fn push_column_fps(out: &mut Vec<u64>, col: &Vec<u8>)
    ensures
        final(out)@ == old(out)@ + tokens_fps(split_bytes(col@, SPACE)),
    decreases col@.len(),
{
    let ghost pre = out@;
    proof {
        lemma_find_byte(col@, SPACE);
    }
    let i = find_byte_in(col, SPACE);
    if i < col.len() {
        let head = subvec(col, 0, i);
        let rest = subvec(col, i + 1, col.len());
        proof {
            assert(head@ =~= col@.take(i as int));
            assert(rest@ =~= col@.skip(i + 1));
        }
        push_token_fps(out, &head);
        push_column_fps(out, &rest);
        proof {
            lemma_tokens_fps_concat(seq![head@], split_bytes(rest@, SPACE));
            lemma_tokens_fps_single(head@);
            assert(out@ =~= pre + tokens_fps(split_bytes(col@, SPACE)));
        }
    } else {
        push_token_fps(out, col);
        proof {
            assert(split_bytes(col@, SPACE) =~= seq![col@]);
            lemma_tokens_fps_single(col@);
            assert(out@ =~= pre + tokens_fps(split_bytes(col@, SPACE)));
        }
    }
}

/// Cut one line down to its domain-bearing column.
pub fn domain_column_of(line: &Vec<u8>) -> (r: Vec<u8>)
    ensures
        r@ == domain_column(line@),
{
    let t0 = trim(line);
    proof {
        lemma_find_byte(t0@, HASH);
    }
    let h = find_byte_in(&t0, HASH);
    let cut = subvec(&t0, 0, h);
    proof {
        assert(cut@ =~= t0@.take(h as int));
    }
    let c = trim(&cut);
    proof {
        lemma_find_byte(c@, TAB);
        lemma_find_byte(c@, SPACE);
    }
    let it = find_byte_in(&c, TAB);
    if it < c.len() {
        let r = subvec(&c, it + 1, c.len());
        proof {
            assert(r@ =~= c@.skip(it + 1));
        }
        r
    } else {
        let isp = find_byte_in(&c, SPACE);
        if isp < c.len() {
            let r = subvec(&c, isp + 1, c.len());
            proof {
                assert(r@ =~= c@.skip(isp + 1));
            }
            r
        } else {
            c
        }
    }
}

/// Every fingerprint one line of a fetched source yields.
pub fn parse_line(line: &Vec<u8>) -> (r: Vec<u64>)
    ensures
        r@ == line_fps(line@),
{
    let col = domain_column_of(line);
    let mut out: Vec<u64> = Vec::new();
    push_column_fps(&mut out, &col);
    proof {
        assert(out@ =~= line_fps(line@));
    }
    out
}

/// Append every fingerprint a source body yields, line by line.
fn push_text_fps(out: &mut Vec<u64>, text: &Vec<u8>)
    ensures
        final(out)@ == old(out)@ + text_fps(text@),
    decreases text@.len(),
{
    let ghost pre = out@;
    proof {
        lemma_find_byte(text@, NEWLINE);
    }
    let i = find_byte_in(text, NEWLINE);
    if i < text.len() {
        let head = subvec(text, 0, i);
        let rest = subvec(text, i + 1, text.len());
        proof {
            assert(head@ =~= text@.take(i as int));
            assert(rest@ =~= text@.skip(i + 1));
        }
        let head_fps = parse_line(&head);
        let mut j: usize = 0;
        while j < head_fps.len()
            invariant
                j <= head_fps@.len(),
                out@ == pre + head_fps@.take(j as int),
            decreases head_fps@.len() - j,
        {
            out.push(head_fps[j]);
            proof {
                assert(pre + head_fps@.take(j + 1) =~= (pre + head_fps@.take(j as int)).push(
                    head_fps@[j as int],
                ));
            }
            j = j + 1;
        }
        proof {
            assert(head_fps@.take(head_fps@.len() as int) =~= head_fps@);
        }
        push_text_fps(out, &rest);
        proof {
            lemma_lines_fps_concat(seq![head@], split_bytes(rest@, NEWLINE));
            lemma_lines_fps_single(head@);
            assert(out@ =~= pre + text_fps(text@));
        }
    } else {
        let fps = parse_line(text);
        let mut j: usize = 0;
        while j < fps.len()
            invariant
                j <= fps@.len(),
                out@ == pre + fps@.take(j as int),
            decreases fps@.len() - j,
        {
            out.push(fps[j]);
            proof {
                assert(pre + fps@.take(j + 1) =~= (pre + fps@.take(j as int)).push(fps@[j as int]));
            }
            j = j + 1;
        }
        proof {
            assert(fps@.take(fps@.len() as int) =~= fps@);
            assert(split_bytes(text@, NEWLINE) =~= seq![text@]);
            lemma_lines_fps_single(text@);
            assert(out@ =~= pre + text_fps(text@));
        }
    }
}

/// Every fingerprint a whole fetched source body yields.
pub fn parse_source_text(text: &Vec<u8>) -> (r: Vec<u64>)
    ensures
        r@ == text_fps(text@),
{
    let mut out: Vec<u64> = Vec::new();
    push_text_fps(&mut out, text);
    proof {
        assert(out@ =~= text_fps(text@));
    }
    out
}

} // verus!
