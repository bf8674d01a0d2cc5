//! Lines of a text, and text without the white space around it.

use vstd::prelude::*;
use crate::text::{find_char, first_index_of, slice_of};

verus! {

/// Whether `c` is white space: one of the code points that Unicode
/// marks `White_Space`.
pub open spec fn is_whitespace(c: char) -> bool {
    let n = c as u32;
    ||| 0x09 <= n <= 0x0D
    ||| n == 0x20
    ||| n == 0x85
    ||| n == 0xA0
    ||| n == 0x1680
    ||| 0x2000 <= n <= 0x200A
    ||| n == 0x2028
    ||| n == 0x2029
    ||| n == 0x202F
    ||| n == 0x205F
    ||| n == 0x3000
}

/// Tests whether `c` is white space.
pub fn char_is_whitespace(c: char) -> (r: bool)
    ensures
        r == is_whitespace(c),
{
    let n = c as u32;
    (0x09 <= n && n <= 0x0D) || n == 0x20 || n == 0x85 || n == 0xA0 || n == 0x1680 || (0x2000 <= n
        && n <= 0x200A) || n == 0x2028 || n == 0x2029 || n == 0x202F || n == 0x205F || n == 0x3000
}

/// The first position at or after `i` that holds no white space, or the
/// length of `s`.
pub open spec fn leading(s: Seq<char>, i: int) -> int
    decreases s.len() - i,
{
    if 0 <= i < s.len() && is_whitespace(s[i]) {
        leading(s, i + 1)
    } else {
        i
    }
}

/// The end of the last run without white space that ends at or before
/// `j`: the least position from which on up to `j` all is white space.
pub open spec fn trailing(s: Seq<char>, j: int) -> int
    decreases j,
{
    if 0 < j <= s.len() && is_whitespace(s[j - 1]) {
        trailing(s, j - 1)
    } else {
        j
    }
}

/// The text `s` without the white space at its start and at its end.
pub open spec fn trimmed(s: Seq<char>) -> Seq<char> {
    let from = leading(s, 0);
    let to = trailing(s, s.len() as int);
    if from < to {
        s.subrange(from, to)
    } else {
        Seq::empty()
    }
}

/// Copies `v` without the white space at its start and at its end.
pub fn trim(v: &Vec<char>) -> (r: Vec<char>)
    ensures
        r@ == trimmed(v@),
{
    let mut from: usize = 0;
    while from < v.len() && char_is_whitespace(v[from])
        invariant
            from <= v.len(),
            leading(v@, 0) == leading(v@, from as int),
        decreases v.len() - from,
    {
        from = from + 1;
    }
    let mut to: usize = v.len();
    while to > 0 && char_is_whitespace(v[to - 1])
        invariant
            to <= v.len(),
            trailing(v@, v.len() as int) == trailing(v@, to as int),
        decreases to,
    {
        to = to - 1;
    }
    if from < to {
        slice_of(v, from, to)
    } else {
        Vec::new()
    }
}

/// The line `line` without the carriage return at its end, if it has one.
pub open spec fn strip_cr(line: Seq<char>) -> Seq<char> {
    if line.len() > 0 && line.last() == '\r' {
        line.drop_last()
    } else {
        line
    }
}

/// The lines of `s` from position `pos` on. A line ends at a newline,
/// which is no part of it, nor is a carriage return just before the
/// newline. What follows the last newline is a line if it is not empty.
pub open spec fn lines_from(s: Seq<char>, pos: int) -> Seq<Seq<char>>
    decreases s.len() - pos,
{
    let newline = first_index_of(s, '\n', pos);
    if pos < 0 || pos >= s.len() {
        Seq::empty()
    } else if pos <= newline < s.len() {
        seq![strip_cr(s.subrange(pos, newline))] + lines_from(s, newline + 1)
    } else {
        seq![s.subrange(pos, s.len() as int)]
    }
}

/// The lines of `s`.
pub open spec fn lines_of(s: Seq<char>) -> Seq<Seq<char>> {
    lines_from(s, 0)
}

/// The character sequences of a list of character vectors.
pub open spec fn line_views(lines: Seq<Vec<char>>) -> Seq<Seq<char>> {
    lines.map_values(|l: Vec<char>| l@)
}

/// Splits `v` into its lines.
pub fn split_lines(v: &Vec<char>) -> (r: Vec<Vec<char>>)
    ensures
        line_views(r@) == lines_of(v@),
{
    let mut out: Vec<Vec<char>> = Vec::new();
    let mut pos: usize = 0;
    while pos < v.len()
        invariant
            pos <= v.len(),
            lines_of(v@) == line_views(out@) + lines_from(v@, pos as int),
        decreases v.len() - pos,
    {
        let newline = find_char(v, '\n', pos);
        if newline < v.len() {
            let end = if newline > pos && v[newline - 1] == '\r' {
                newline - 1
            } else {
                newline
            };
            let line = slice_of(v, pos, end);
            proof {
                let whole = v@.subrange(pos as int, newline as int);
                assert(line@ =~= strip_cr(whole));
            }
            out.push(line);
            proof {
                let l = strip_cr(v@.subrange(pos as int, newline as int));
            }
            pos = newline + 1;
        } else {
            let line = slice_of(v, pos, v.len());
            out.push(line);
            proof {
                let l = v@.subrange(pos as int, v.len() as int);
            }
            pos = v.len();
        }
    }
    out
}

} // verus!
