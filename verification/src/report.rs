//! The text of error reports: the line of source an error is in, and the
//! carets that point at it.

use vstd::prelude::*;

use crate::hanayo::string::{split, split_spec};

verus! {

/// `n` copies of the character `c`.
pub open spec fn repeat(c: char, n: nat) -> Seq<char> {
    Seq::new(n, |i: int| c)
}

/// The decimal digits of `n`, without leading zeros.
pub open spec fn decimal(n: nat) -> Seq<char>
    decreases n,
{
    if n < 10 {
        seq![(n + 48) as char]
    } else {
        decimal(n / 10).push(((n % 10) + 48) as char)
    }
}

/// `n` copies of the character `c`, as a string.
fn repeat_char(c: char, n: usize) -> (s: String)
    ensures
        s@ == repeat(c, n as nat),
{
    let mut s = String::new();
    let mut i: usize = 0;
    while i < n
        invariant
            i <= n,
            s@ == repeat(c, i as nat),
        decreases n - i,
    {
        crate::text::push_char(&mut s, c);
        assert(repeat(c, (i + 1) as nat) =~= repeat(c, i as nat).push(c));
        i += 1;
    }
    s
}

/// The decimal digits of `n`.
pub fn decimal_string(n: usize) -> (s: String)
    ensures
        s@ == decimal(n as nat),
    decreases n,
{
    if n < 10 {
        let mut s = String::new();
        crate::text::push_char(&mut s, char_of_digit(n));
        assert(s@ =~= seq![(n + 48) as char]);
        s
    } else {
        let mut s = decimal_string(n / 10);
        crate::text::push_char(&mut s, char_of_digit(n % 10));
        s
    }
}

fn char_of_digit(d: usize) -> (c: char)
    requires
        d < 10,
    ensures
        c == (d + 48) as char,
{
    if d == 0 { '0' } else if d == 1 { '1' } else if d == 2 { '2' } else if d == 3 { '3' } else if d == 4 {
        '4'
    } else if d == 5 { '5' } else if d == 6 { '6' } else if d == 7 { '7' } else if d == 8 { '8' } else { '9' }
}

/// The margin written before a line of source: its number and ` | `.
pub fn line_margin(lineno: usize) -> (s: String)
    ensures
        s@ == decimal(lineno as nat) + seq![' ', '|', ' '],
{
    let mut s = decimal_string(lineno);
    crate::text::push_char(&mut s, ' ');
    crate::text::push_char(&mut s, '|');
    crate::text::push_char(&mut s, ' ');
    assert(s@ =~= decimal(lineno as nat) + seq![' ', '|', ' ']);
    s
}

/// The line under a line of source that points at columns `col` to
/// `col_end` (from 1, end excluded; at least one caret), after a margin of
/// `margin` characters.
pub fn caret_line(margin: usize, col: usize, col_end: usize) -> (s: String)
    requires
        col >= 1,
        margin + col - 1 <= usize::MAX,
    ensures
        s@ == repeat(' ', (margin + col - 1) as nat) + repeat(
            '^',
            (if col_end > col {
                col_end - col
            } else {
                1
            }) as nat,
        ),
{
    let mut s = repeat_char(' ', margin + (col - 1));
    let width = if col_end > col {
        col_end - col
    } else {
        1
    };
    let carets = repeat_char('^', width);
    crate::text::push_str(&mut s, carets.as_str());
    s
}

/// The line `lineno` (counted from 1) of `s`.
pub fn source_line(s: &str, lineno: usize) -> (r: String)
    requires
        1 <= lineno <= split_spec(s@, seq!['\n']).len(),
    ensures
        r@ == split_spec(s@, seq!['\n'])[lineno - 1],
{
    let nl = "\n";
    proof {
        reveal_strlit("\n");
        assert(nl@ =~= seq!['\n']);
    }
    let lines = split(s, nl);
    assert(lines@.map_values(|p: String| p@)[lineno - 1] == lines@[lineno - 1]@);
    lines[lineno - 1].clone()
}

} // verus!
