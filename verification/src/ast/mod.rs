//! Syntax of hana programs: the tree, its code generation and the parser.

pub mod ast;
pub mod emit;
pub mod float;
pub mod grammar;
pub mod lexer;

use vstd::prelude::*;

use crate::ast::lexer::{byte_offset, utf8_width};

verus! {

/// Number of newlines in `s`.
pub open spec fn count_newlines(s: Seq<char>) -> nat
    decreases s.len(),
{
    if s.len() == 0 {
        0
    } else {
        count_newlines(s.drop_last()) + if s.last() == '\n' {
            1nat
        } else {
            0nat
        }
    }
}

/// Number of characters after the last newline of `s` (all of them if it
/// has none).
pub open spec fn chars_after_newline(s: Seq<char>) -> nat
    decreases s.len(),
{
    if s.len() == 0 {
        0
    } else if s.last() == '\n' {
        0
    } else {
        chars_after_newline(s.drop_last()) + 1
    }
}

/// Lemma: byte offsets grow with the character index.
pub proof fn lemma_byte_offset_mono(s: Seq<char>, i: int, j: int)
    requires
        0 <= i < j <= s.len(),
    ensures
        byte_offset(s, i) < byte_offset(s, j),
    decreases j - i,
{
    lexer::lemma_byte_offset_step(s, j - 1);
    if i < j - 1 {
        lemma_byte_offset_mono(s, i, j - 1);
    }
}

/// The line and column (both counted from 1) of the byte offset `pos` of
/// `input`: the line is one more than the number of newlines before `pos`,
/// the column one more than the number of characters between the last of
/// them and `pos`.
pub fn pos_to_line(input: &str, pos: usize) -> (r: (usize, usize))
    requires
        exists|k: int| 0 <= k <= input@.len() && byte_offset(input@, k) == pos,
        input@.len() < usize::MAX,
    ensures
        forall|k: int|
            0 <= k <= input@.len() && byte_offset(input@, k) == pos ==> r == (
                (count_newlines(input@.take(k)) + 1) as usize,
                (chars_after_newline(input@.take(k)) + 1) as usize,
            ),
{
    let cs = crate::text::chars_of(input);
    let n = cs.len();
    let ghost k = choose|k: int| 0 <= k <= input@.len() && byte_offset(input@, k) == pos;
    let mut i: usize = 0;
    let mut b: usize = 0;
    let mut line: usize = 1;
    let mut col: usize = 1;
    assert(cs@.take(0) =~= Seq::<char>::empty());
    while b < pos && i < n
        invariant
            cs@ == input@,
            n == cs@.len(),
            n < usize::MAX,
            0 <= k <= n,
            byte_offset(cs@, k) == pos,
            i <= k,
            b == byte_offset(cs@, i as int),
            line == count_newlines(cs@.take(i as int)) + 1,
            col == chars_after_newline(cs@.take(i as int)) + 1,
            line <= i + 1,
            col <= i + 1,
        decreases n - i,
    {
        proof {
            lexer::lemma_byte_offset_step(cs@, i as int);
            assert(cs@.take(i + 1).drop_last() =~= cs@.take(i as int));
            if i == k {
                assert(false);
            }
        }
        let c = cs[i];
        proof {
            if i + 1 < k {
                lemma_byte_offset_mono(cs@, i + 1, k);
            }
            assert(b + utf8_width(c) <= pos);
        }
        if c == '\n' {
            line = line + 1;
            col = 1;
        } else {
            col = col + 1;
        }
        b = b + width(c);
        i = i + 1;
        proof {
            if i < k {
                lemma_byte_offset_mono(cs@, i as int, k);
            }
        }
    }
    proof {
        if (i as int) < k {
            lemma_byte_offset_mono(cs@, i as int, k);
        }
        assert(i == k);
        assert forall|k2: int| 0 <= k2 <= input@.len() && byte_offset(input@, k2) == pos implies k2 == k by {
            if k2 < k {
                lemma_byte_offset_mono(cs@, k2, k);
            } else if k < k2 {
                lemma_byte_offset_mono(cs@, k, k2);
            }
        }
    }
    (line, col)
}

/// Number of bytes of the UTF-8 encoding of `c`.
fn width(c: char) -> (n: usize)
    ensures
        n == utf8_width(c),
{
    let u = c as u32;
    if u < 0x80 {
        1
    } else if u < 0x800 {
        2
    } else if u < 0x10000 {
        3
    } else {
        4
    }
}

} // verus!
