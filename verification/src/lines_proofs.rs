//! What holds of the lines of texts that are put together.

use vstd::prelude::*;
use crate::lines::{lines_from, lines_of};
use crate::record_proofs::lacks;
use crate::text::{first_index_of, lemma_first_index_of, lemma_first_index_of_unique};

verus! {

/// The first occurrence of a character from `p` on is the first
/// occurrence in the part of the text from `p` on.
pub proof fn lemma_first_index_shift(s: Seq<char>, c: char, p: int)
    requires
        0 <= p <= s.len(),
    ensures
        first_index_of(s.subrange(p, s.len() as int), c, 0) == first_index_of(s, c, p) - p,
{
    let t = s.subrange(p, s.len() as int);
    let r = first_index_of(s, c, p);
    lemma_first_index_of(s, c, p);
    lemma_first_index_of_unique(t, c, 0, r - p);
}

/// The lines from `p` on are the lines of the part of the text from `p` on.
pub proof fn lemma_lines_shift(s: Seq<char>, p: int)
    requires
        0 <= p <= s.len(),
    ensures
        lines_from(s, p) == lines_of(s.subrange(p, s.len() as int)),
    decreases s.len() - p,
{
    let t = s.subrange(p, s.len() as int);
    if p < s.len() {
        let newline = first_index_of(s, '\n', p);
        lemma_first_index_of(s, '\n', p);
        lemma_first_index_shift(s, '\n', p);
        let shifted = newline - p;
        if newline < s.len() {
            assert(s.subrange(p, newline) =~= t.subrange(0, shifted));
            lemma_lines_shift(s, newline + 1);
            lemma_lines_shift(t, shifted + 1);
            assert(t.subrange(shifted + 1, t.len() as int) =~= s.subrange(
                newline + 1,
                s.len() as int,
            ));
        } else {
            assert(t.subrange(0, t.len() as int) =~= s.subrange(p, s.len() as int));
        }
    }
}

/// A first line and its newline before a text add one line to the lines
/// of the text.
pub proof fn lemma_lines_after_line(line: Seq<char>, rest: Seq<char>)
    requires
        lacks(line, '\n'),
        line.len() > 0 ==> line.last() != '\r',
    ensures
        lines_of(line + seq!['\n'] + rest) == seq![line] + lines_of(rest),
{
    let s = line + seq!['\n'] + rest;
    let n = line.len() as int;
    lemma_first_index_of_unique(s, '\n', 0, n);
    assert(s.subrange(0, n) =~= line);
    lemma_lines_shift(s, n + 1);
    assert(s.subrange(n + 1, s.len() as int) =~= rest);
}

/// A text without a newline that is not empty is its own one line.
pub proof fn lemma_lines_of_one_line(line: Seq<char>)
    requires
        lacks(line, '\n'),
        line.len() > 0,
    ensures
        lines_of(line) == seq![line],
{
    lemma_first_index_of_unique(line, '\n', 0, line.len() as int);
    assert(line.subrange(0, line.len() as int) =~= line);
}

/// After a text that ends in a newline, the lines of what follows come
/// after the lines of the text.
pub proof fn lemma_lines_of_parts(x: Seq<char>, b: Seq<char>, p: int)
    requires
        x.len() > 0,
        x.last() == '\n',
        0 <= p <= x.len(),
    ensures
        lines_from(x + b, p) == lines_from(x, p) + lines_of(b),
    decreases x.len() - p,
{
    let s = x + b;
    if p == x.len() {
        lemma_lines_shift(s, p);
        assert(s.subrange(p, s.len() as int) =~= b);
    } else {
        let newline = first_index_of(x, '\n', p);
        lemma_first_index_of(x, '\n', p);
        assert(newline < x.len());
        lemma_first_index_of_unique(s, '\n', p, newline);
        assert(s.subrange(p, newline) =~= x.subrange(p, newline));
        lemma_lines_of_parts(x, b, newline + 1);
    }
}

} // verus!
