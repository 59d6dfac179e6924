//! The tokens of hana source text.

use vstd::prelude::*;

verus! {

/// Keywords.
#[derive(Debug, Clone, Copy, PartialEq, Eq, Structural)]
pub enum Kw {
    If,
    Then,
    Else,
    While,
    For,
    To,
    Downto,
    Step,
    In,
    Try,
    Case,
    As,
    End,
    Begin,
    Function,
    Record,
    Return,
    Raise,
    Continue,
    Break,
    Use,
    And,
    Or,
    Not,
    Mod,
    Of,
}

/// Punctuation and operators.
#[derive(Debug, Clone, Copy, PartialEq, Eq, Structural)]
pub enum Sym {
    LParen,
    RParen,
    LBracket,
    RBracket,
    LBrace,
    RBrace,
    Comma,
    Dot,
    ColonColon,
    Colon,
    Question,
    Assign,
    Eq,
    Neq,
    Lt,
    Leq,
    Gt,
    Geq,
    Plus,
    Minus,
    Star,
    Slash,
    AddAssign,
    SubAssign,
    MulAssign,
    DivAssign,
    Pipe,
}

/// What a token is.
#[derive(Debug, Clone, Copy, PartialEq, Eq, Structural)]
pub enum TokKind {
    /// A name; `text` holds it.
    Ident,
    /// An integer literal; `int_val` holds its value.
    Int,
    /// A floating-point literal; `float_bits` holds its value.
    Float,
    /// A string literal; `text` holds what stands between the quotes.
    Str,
    /// The end of a line.
    Newline,
    Kw(Kw),
    Sym(Sym),
}

/// A token: its kind, its payload, and where it stands in the source, as
/// character indices (`cstart`, `cend`) and byte offsets (`start`, `end`).
#[derive(Debug)]
pub struct Token {
    pub kind: TokKind,
    pub text: String,
    pub int_val: i64,
    pub float_bits: u64,
    pub cstart: usize,
    pub cend: usize,
    pub start: usize,
    pub end: usize,
}

/// Why the source text could not be read.
#[derive(Debug)]
pub struct ParseError {
    /// Byte offset in the source where reading stopped.
    pub offset: usize,
    /// What went wrong.
    pub message: String,
}

/// Number of bytes of the UTF-8 encoding of `c`.
pub open spec fn utf8_width(c: char) -> nat {
    if (c as u32) < 0x80 {
        1
    } else if (c as u32) < 0x800 {
        2
    } else if (c as u32) < 0x10000 {
        3
    } else {
        4
    }
}

/// Number of bytes of the UTF-8 encoding of `s`.
pub open spec fn utf8_len(s: Seq<char>) -> nat
    decreases s.len(),
{
    if s.len() == 0 {
        0
    } else {
        utf8_len(s.drop_last()) + utf8_width(s.last())
    }
}

/// Byte offset of the character at index `i` of `s`.
pub open spec fn byte_offset(s: Seq<char>, i: int) -> nat {
    utf8_len(s.take(i))
}

pub open spec fn is_digit(c: char) -> bool {
    '0' <= c <= '9'
}

pub open spec fn is_hex_digit(c: char) -> bool {
    is_digit(c) || 'a' <= c <= 'f' || 'A' <= c <= 'F'
}

pub open spec fn is_ident_start(c: char) -> bool {
    'a' <= c <= 'z' || 'A' <= c <= 'Z' || c == '_' || c == '$'
}

pub open spec fn is_ident_char(c: char) -> bool {
    is_ident_start(c) || is_digit(c) || c == '?' || c == '!'
}

/// Blank characters inside a line.
pub open spec fn is_blank(c: char) -> bool {
    c == ' ' || c == '\t' || c == '\r'
}

/// Value of a decimal or hexadecimal digit.
pub open spec fn digit_value(c: char) -> int {
    if is_digit(c) {
        c as int - '0' as int
    } else if 'a' <= c <= 'f' {
        c as int - 'a' as int + 10
    } else {
        c as int - 'A' as int + 10
    }
}

/// Value of the digits `s` in base `base`.
pub open spec fn digits_value(s: Seq<char>, base: int) -> int
    decreases s.len(),
{
    if s.len() == 0 {
        0
    } else {
        digits_value(s.drop_last(), base) * base + digit_value(s.last())
    }
}

/// The keyword spelled `s`, if it is one.
pub open spec fn keyword(s: Seq<char>) -> Option<Kw> {
    if s == seq!['i', 'f'] {
        Some(Kw::If)
    } else if s == seq!['t', 'h', 'e', 'n'] {
        Some(Kw::Then)
    } else if s == seq!['e', 'l', 's', 'e'] {
        Some(Kw::Else)
    } else if s == seq!['w', 'h', 'i', 'l', 'e'] {
        Some(Kw::While)
    } else if s == seq!['f', 'o', 'r'] {
        Some(Kw::For)
    } else if s == seq!['t', 'o'] {
        Some(Kw::To)
    } else if s == seq!['d', 'o', 'w', 'n', 't', 'o'] {
        Some(Kw::Downto)
    } else if s == seq!['s', 't', 'e', 'p'] {
        Some(Kw::Step)
    } else if s == seq!['i', 'n'] {
        Some(Kw::In)
    } else if s == seq!['t', 'r', 'y'] {
        Some(Kw::Try)
    } else if s == seq!['c', 'a', 's', 'e'] {
        Some(Kw::Case)
    } else if s == seq!['a', 's'] {
        Some(Kw::As)
    } else if s == seq!['e', 'n', 'd'] {
        Some(Kw::End)
    } else if s == seq!['b', 'e', 'g', 'i', 'n'] {
        Some(Kw::Begin)
    } else if s == seq!['f', 'u', 'n', 'c', 't', 'i', 'o', 'n'] {
        Some(Kw::Function)
    } else if s == seq!['r', 'e', 'c', 'o', 'r', 'd'] {
        Some(Kw::Record)
    } else if s == seq!['r', 'e', 't', 'u', 'r', 'n'] {
        Some(Kw::Return)
    } else if s == seq!['r', 'a', 'i', 's', 'e'] {
        Some(Kw::Raise)
    } else if s == seq!['c', 'o', 'n', 't', 'i', 'n', 'u', 'e'] {
        Some(Kw::Continue)
    } else if s == seq!['b', 'r', 'e', 'a', 'k'] {
        Some(Kw::Break)
    } else if s == seq!['u', 's', 'e'] {
        Some(Kw::Use)
    } else if s == seq!['a', 'n', 'd'] {
        Some(Kw::And)
    } else if s == seq!['o', 'r'] {
        Some(Kw::Or)
    } else if s == seq!['n', 'o', 't'] {
        Some(Kw::Not)
    } else if s == seq!['m', 'o', 'd'] {
        Some(Kw::Mod)
    } else if s == seq!['o', 'f'] {
        Some(Kw::Of)
    } else {
        None
    }
}

/// A name: an identifier start followed by identifier characters, and no keyword.
pub open spec fn is_name(s: Seq<char>) -> bool {
    &&& s.len() > 0
    &&& is_ident_start(s[0])
    &&& forall|i: int| 0 < i < s.len() ==> is_ident_char(#[trigger] s[i])
    &&& keyword(s) is None
}

/// `text` is a floating-point literal, digits, a dot and digits, and `bits`
/// is the binary64 encoding of its value, rounded to nearest.
pub open spec fn float_literal(text: Seq<char>, bits: u64) -> bool {
    exists|dot: int|
        {
            &&& 0 < dot < text.len() - 1
            &&& text[dot] == '.'
            &&& forall|i: int| 0 <= i < text.len() && i != dot ==> is_digit(#[trigger] text[i])
            &&& ({
                let n = digits_value(text.subrange(0, dot) + text.subrange(dot + 1, text.len() as int), 10);
                let k = (text.len() - dot - 1) as nat;
                &&& n < 0x1_0000_0000_0000_0000
                &&& k <= 22
                &&& n == 0 ==> bits == 0
                &&& n > 0 ==> crate::ast::float::rounds_to(n as nat, crate::ast::float::p10(k), bits)
            })
        }
}

/// How a symbol is written.
pub open spec fn spelling(s: Sym) -> Seq<char> {
    match s {
        Sym::LParen => seq!['('],
        Sym::RParen => seq![')'],
        Sym::LBracket => seq!['['],
        Sym::RBracket => seq![']'],
        Sym::LBrace => seq!['{'],
        Sym::RBrace => seq!['}'],
        Sym::Comma => seq![','],
        Sym::Dot => seq!['.'],
        Sym::ColonColon => seq![':', ':'],
        Sym::Colon => seq![':'],
        Sym::Question => seq!['?'],
        Sym::Assign => seq!['='],
        Sym::Eq => seq!['=', '='],
        Sym::Neq => seq!['!', '='],
        Sym::Lt => seq!['<'],
        Sym::Leq => seq!['<', '='],
        Sym::Gt => seq!['>'],
        Sym::Geq => seq!['>', '='],
        Sym::Plus => seq!['+'],
        Sym::Minus => seq!['-'],
        Sym::Star => seq!['*'],
        Sym::Slash => seq!['/'],
        Sym::AddAssign => seq!['+', '='],
        Sym::SubAssign => seq!['-', '='],
        Sym::MulAssign => seq!['*', '='],
        Sym::DivAssign => seq!['/', '='],
        Sym::Pipe => seq!['|'],
    }
}

/// The UTF-8 encoding of `src` is longer than the largest `usize`.
pub open spec fn too_long(src: Seq<char>) -> bool {
    byte_offset(src, src.len() as int) > usize::MAX
}

/// No token and no blank or comment starts at `i`.
pub open spec fn no_lexeme_at(src: Seq<char>, i: int) -> bool {
    &&& !(i < blank_end(src, i))
    &&& forall|t: Token| #[trigger] token_matches(src, t) ==> t.cstart != i
}

/// No token starts at `i`.
pub open spec fn no_token_at(src: Seq<char>, i: int) -> bool {
    forall|t: Token| #[trigger] token_matches(src, t) ==> t.cstart != i
}

/// Lemma: what the first characters of a token are.
proof fn lemma_token_start(src: Seq<char>, t: Token)
    requires
        token_matches(src, t),
    ensures
        t.kind == TokKind::Ident ==> is_ident_start(src[t.cstart as int]),
        t.kind is Kw ==> 'a' <= src[t.cstart as int] <= 'z',
        (t.kind == TokKind::Int || t.kind == TokKind::Float) ==> is_digit(src[t.cstart as int]),
        t.kind == TokKind::Str ==> src[t.cstart as int] == '\'' || src[t.cstart as int] == '"',
        t.kind == TokKind::Newline ==> src[t.cstart as int] == '\n',
        t.kind matches TokKind::Sym(sym) ==> src.subrange(t.cstart as int, t.cend as int) == spelling(sym),
{
    let text = src.subrange(t.cstart as int, t.cend as int);
    assert(text[0] == src[t.cstart as int]);
    if t.kind == TokKind::Float {
        let dot = choose|dot: int|
            {
                &&& 0 < dot < text.len() - 1
                &&& text[dot] == '.'
                &&& forall|i: int| 0 <= i < text.len() && i != dot ==> is_digit(#[trigger] text[i])
                &&& ({
                    let n = digits_value(text.subrange(0, dot) + text.subrange(dot + 1, text.len() as int), 10);
                    let k = (text.len() - dot - 1) as nat;
                    &&& n < 0x1_0000_0000_0000_0000
                    &&& k <= 22
                    &&& n == 0 ==> t.float_bits == 0
                    &&& n > 0 ==> crate::ast::float::rounds_to(n as nat, crate::ast::float::p10(k), t.float_bits)
                })
            };
        assert(is_digit(text[0]));
    }
    if t.kind == TokKind::Newline {
        assert(text == seq!['\n']);
    }
}

/// `b` can stand between two quotes `q`: each backslash escapes the
/// character after it, and no other character is `q`. The first such quote
/// after the opening one therefore ends a string literal.
pub open spec fn string_body(b: Seq<char>, q: char) -> bool
    decreases b.len(),
{
    if b.len() == 0 {
        true
    } else if b[0] == '\\' {
        b.len() >= 2 && string_body(b.skip(2), q)
    } else {
        b[0] != q && string_body(b.skip(1), q)
    }
}

/// Lemma: a string body followed by a plain character or an escape.
proof fn lemma_string_body_append(b: Seq<char>, q: char, x: Seq<char>)
    requires
        string_body(b, q),
        (x.len() == 1 && x[0] != q && x[0] != '\\') || (x.len() == 2 && x[0] == '\\'),
    ensures
        string_body(b + x, q),
    decreases b.len(),
{
    assert(string_body(Seq::<char>::empty(), q));
    if b.len() == 0 {
        assert(b + x =~= x);
        if x.len() == 2 {
            assert(x.skip(2) =~= Seq::<char>::empty());
        } else {
            assert(x.skip(1) =~= Seq::<char>::empty());
        }
        assert(string_body(x, q));
    } else if b[0] == '\\' {
        lemma_string_body_append(b.skip(2), q, x);
        assert((b + x).skip(2) =~= b.skip(2) + x);
        assert((b + x)[0] == b[0]);
    } else {
        lemma_string_body_append(b.skip(1), q, x);
        assert((b + x).skip(1) =~= b.skip(1) + x);
        assert((b + x)[0] == b[0]);
    }
}

/// Lemma: a string body followed by a lone backslash is not one.
proof fn lemma_string_body_backslash(b: Seq<char>, q: char)
    requires
        string_body(b, q),
    ensures
        !string_body(b.push('\\'), q),
    decreases b.len(),
{
    if b.len() == 0 {
        assert(b.push('\\') =~= seq!['\\']);
    } else if b[0] == '\\' {
        lemma_string_body_backslash(b.skip(2), q);
        assert(b.push('\\').skip(2) =~= b.skip(2).push('\\'));
    } else {
        lemma_string_body_backslash(b.skip(1), q);
        assert(b.push('\\').skip(1) =~= b.skip(1).push('\\'));
    }
}

/// Lemma: a token that starts with a digit is a number, and the dot of a
/// floating-point one.
proof fn lemma_number_token(src: Seq<char>, t: Token) -> (dot: int)
    requires
        token_matches(src, t),
        0 <= t.cstart < src.len(),
        is_digit(src[t.cstart as int]),
    ensures
        t.kind == TokKind::Int || t.kind == TokKind::Float,
        t.kind == TokKind::Float ==> ({
            let text = src.subrange(t.cstart as int, t.cend as int);
            &&& 0 < dot < text.len() - 1
            &&& text[dot] == '.'
            &&& forall|i: int| 0 <= i < text.len() && i != dot ==> is_digit(#[trigger] text[i])
            &&& ({
                let n = digits_value(text.subrange(0, dot) + text.subrange(dot + 1, text.len() as int), 10);
                let k = (text.len() - dot - 1) as nat;
                &&& n < 0x1_0000_0000_0000_0000
                &&& k <= 22
            })
        }),
{
    lemma_token_start(src, t);
    let text = src.subrange(t.cstart as int, t.cend as int);
    if let TokKind::Sym(sym) = t.kind {
        assert(text[0] == src[t.cstart as int]);
        assert(spelling(sym)[0] == text[0]);
        assert(!is_digit(spelling(sym)[0]));
    }
    if t.kind == TokKind::Float {
        choose|dot: int|
            {
                &&& 0 < dot < text.len() - 1
                &&& text[dot] == '.'
                &&& forall|i: int| 0 <= i < text.len() && i != dot ==> is_digit(#[trigger] text[i])
                &&& ({
                    let n = digits_value(text.subrange(0, dot) + text.subrange(dot + 1, text.len() as int), 10);
                    let k = (text.len() - dot - 1) as nat;
                    &&& n < 0x1_0000_0000_0000_0000
                    &&& k <= 22
                    &&& n == 0 ==> t.float_bits == 0
                    &&& n > 0 ==> crate::ast::float::rounds_to(n as nat, crate::ast::float::p10(k), t.float_bits)
                })
            }
    } else {
        0
    }
}

/// Lemma: no token starts at `i` when the hexadecimal digits there are too
/// many for an `i64`.
proof fn lemma_hex_overflow_no_token(src: Seq<char>, i: int, j: int)
    requires
        0 <= i,
        i + 2 < j <= src.len(),
        src[i] == '0',
        src[i + 1] == 'x',
        forall|k: int| i + 2 <= k < j ==> is_hex_digit(#[trigger] src[k]),
        j < src.len() ==> !is_hex_digit(src[j]),
        digits_value(src.subrange(i + 2, j), 16) > i64::MAX,
    ensures
        no_token_at(src, i),
{
    assert forall|t: Token| #[trigger] token_matches(src, t) implies t.cstart != i by {
        if t.cstart == i {
            let dot = lemma_number_token(src, t);
            let text = src.subrange(t.cstart as int, t.cend as int);
            if t.kind == TokKind::Float {
                assert(text[1] == src[i + 1]);
            } else if text.len() > 2 && text[0] == '0' && text[1] == 'x' {
                let e = t.cend as int;
                assert forall|m: int| i + 2 <= m < e implies is_hex_digit(#[trigger] src[m]) by {
                    assert(src[m] == text[m - i]);
                }
                if e < j {
                    assert(is_hex_digit(src[e]));
                } else if e > j {
                    assert(is_hex_digit(src[j]));
                }
                assert(text.subrange(2, text.len() as int) =~= src.subrange(i + 2, j));
            } else {
                if text.len() >= 2 {
                    assert(text[1] == src[i + 1]);
                }
                assert(text =~= seq!['0']);
            }
        }
    }
}

/// Lemma: no token starts at `i` when the decimal integer there is too
/// large for an `i64`.
proof fn lemma_dec_overflow_no_token(src: Seq<char>, i: int, j: int)
    requires
        0 <= i < j <= src.len(),
        !(src[i] == '0' && 2 < src.len() - i && src[i + 1] == 'x' && is_hex_digit(src[i + 2])),
        forall|k: int| i <= k < j ==> is_digit(#[trigger] src[k]),
        j < src.len() ==> !is_digit(src[j]),
        !(j < src.len() - 1 && src[j] == '.' && is_digit(src[j + 1])),
        digits_value(src.subrange(i, j), 10) > i64::MAX,
    ensures
        no_token_at(src, i),
{
    assert forall|t: Token| #[trigger] token_matches(src, t) implies t.cstart != i by {
        if t.cstart == i {
            let dot = lemma_number_token(src, t);
            let text = src.subrange(t.cstart as int, t.cend as int);
            let e = t.cend as int;
            if t.kind == TokKind::Float {
                assert forall|m: int| i <= m < i + dot implies is_digit(#[trigger] src[m]) by {
                    assert(src[m] == text[m - i]);
                }
                assert(src[i + dot] == text[dot]);
                if j < i + dot {
                    assert(is_digit(src[j]));
                }
                assert(src[i + dot + 1] == text[dot + 1]);
            } else if text.len() > 2 && text[0] == '0' && text[1] == 'x' {
                assert(text[2] == src[i + 2]);
                assert(text[1] == src[i + 1]);
            } else {
                assert forall|m: int| i <= m < e implies is_digit(#[trigger] src[m]) by {
                    assert(src[m] == text[m - i]);
                }
                if e < j {
                    assert(is_digit(src[e]));
                } else if e > j {
                    assert(is_digit(src[j]));
                }
                assert(text =~= src.subrange(i, j));
            }
        }
    }
}

/// Lemma: no token starts at `i` when the floating-point literal there has
/// too many digits.
proof fn lemma_float_range_no_token(src: Seq<char>, i: int, dot: int, j: int)
    requires
        0 <= i < dot < j <= src.len(),
        !(src[i] == '0' && 2 < src.len() - i && src[i + 1] == 'x' && is_hex_digit(src[i + 2])),
        forall|k: int| i <= k < dot ==> is_digit(#[trigger] src[k]),
        src[dot] == '.',
        forall|k: int| dot < k < j ==> is_digit(#[trigger] src[k]),
        j < src.len() ==> !is_digit(src[j]),
        ({
            let n = digits_value(src.subrange(i, dot) + src.subrange(dot + 1, j), 10);
            n >= 0x1_0000_0000_0000_0000 || j - dot - 1 > 22
        }),
    ensures
        no_token_at(src, i),
{
    assert forall|t: Token| #[trigger] token_matches(src, t) implies t.cstart != i by {
        if t.cstart == i {
            let d = lemma_number_token(src, t);
            let text = src.subrange(t.cstart as int, t.cend as int);
            let e = t.cend as int;
            if t.kind == TokKind::Float {
                assert forall|m: int| i <= m < i + d implies is_digit(#[trigger] src[m]) by {
                    assert(src[m] == text[m - i]);
                }
                assert(src[i + d] == text[d]);
                if dot < i + d {
                    assert(is_digit(src[dot]));
                } else if dot > i + d {
                    assert(is_digit(src[i + d]));
                }
                assert forall|m: int| dot < m < e implies is_digit(#[trigger] src[m]) by {
                    assert(src[m] == text[m - i]);
                }
                if e < j {
                    assert(is_digit(src[e]));
                } else if e > j {
                    assert(is_digit(src[j]));
                }
                assert(text.subrange(0, d) =~= src.subrange(i, dot));
                assert(text.subrange(d + 1, text.len() as int) =~= src.subrange(dot + 1, j));
            } else if text.len() > 2 && text[0] == '0' && text[1] == 'x' {
                assert(text[2] == src[i + 2]);
                assert(text[1] == src[i + 1]);
            } else {
                assert forall|m: int| i <= m < e implies is_digit(#[trigger] src[m]) by {
                    assert(src[m] == text[m - i]);
                }
                if e < dot {
                    assert(is_digit(src[e]));
                } else if e > dot {
                    assert(is_digit(src[dot]));
                }
                assert(src[e] == '.');
            }
        }
    }
}

/// Lemma: two runs of characters satisfying the same test that start at
/// the same place and are both followed by a character failing it end at
/// the same place.
proof fn lemma_run_end(src: Seq<char>, a: int, e1: int, e2: int, f: spec_fn(char) -> bool)
    requires
        0 <= a <= e1 <= src.len(),
        a <= e2 <= src.len(),
        forall|k: int| a <= k < e1 ==> f(#[trigger] src[k]),
        forall|k: int| a <= k < e2 ==> f(#[trigger] src[k]),
        e1 < src.len() ==> !f(src[e1]),
        e2 < src.len() ==> !f(src[e2]),
    ensures
        e1 == e2,
{
    if e1 < e2 {
        assert(f(src[e1]));
    } else if e2 < e1 {
        assert(f(src[e2]));
    }
}

/// Lemma: a string body does not go on past an unescaped quote of its kind.
proof fn lemma_string_body_prefix(x: Seq<char>, y: Seq<char>, q: char)
    requires
        string_body(x, q),
        q != '\\',
    ensures
        !string_body(x + seq![q] + y, q),
    decreases x.len(),
{
    let b = x + seq![q] + y;
    if x.len() == 0 {
        assert(b[0] == q);
    } else if x[0] == '\\' {
        lemma_string_body_prefix(x.skip(2), y, q);
        assert(b.skip(2) =~= x.skip(2) + seq![q] + y);
        assert(b[0] == x[0]);
    } else {
        lemma_string_body_prefix(x.skip(1), y, q);
        assert(b.skip(1) =~= x.skip(1) + seq![q] + y);
        assert(b[0] == x[0]);
    }
}

/// Lemma: the characters of a keyword are characters of names.
proof fn lemma_keyword_chars(s: Seq<char>)
    requires
        keyword(s) is Some,
    ensures
        s.len() > 0,
        forall|k: int| 0 <= k < s.len() ==> is_ident_char(#[trigger] s[k]),
{
}

/// Lemma: two tokens that start at the same place end at the same place.
proof fn lemma_token_end_unique(src: Seq<char>, t1: Token, t2: Token)
    requires
        token_matches(src, t1),
        token_matches(src, t2),
        t1.cstart == t2.cstart,
    ensures
        t1.cend == t2.cend,
{
    let i = t1.cstart as int;
    let x1 = src.subrange(i, t1.cend as int);
    let x2 = src.subrange(i, t2.cend as int);
    lemma_token_start(src, t1);
    lemma_token_start(src, t2);
    let c = src[i];
    assert(x1[0] == c && x2[0] == c);
    let word = |ch: char| is_ident_char(ch);
    let dig = |ch: char| is_digit(ch);
    let hex = |ch: char| is_hex_digit(ch);
    if t1.kind == TokKind::Ident || t1.kind is Kw {
        assert(t2.kind == TokKind::Ident || t2.kind is Kw) by {
            if let TokKind::Sym(s2) = t2.kind {
                assert(spelling(s2)[0] == c);
            }
        }
        if t1.kind is Kw {
            lemma_keyword_chars(x1);
        }
        if t2.kind is Kw {
            lemma_keyword_chars(x2);
        }
        assert forall|k: int| i <= k < t1.cend implies word(#[trigger] src[k]) by {
            assert(src[k] == x1[k - i]);
        }
        assert forall|k: int| i <= k < t2.cend implies word(#[trigger] src[k]) by {
            assert(src[k] == x2[k - i]);
        }
        lemma_run_end(src, i, t1.cend as int, t2.cend as int, word);
    } else if t1.kind == TokKind::Int || t1.kind == TokKind::Float {
        let d1 = lemma_number_token(src, t1);
        let d2 = lemma_number_token(src, t2);
        let hex1 = t1.kind == TokKind::Int && x1.len() > 2 && x1[0] == '0' && x1[1] == 'x';
        let hex2 = t2.kind == TokKind::Int && x2.len() > 2 && x2[0] == '0' && x2[1] == 'x';
        if hex1 || hex2 {
            assert(hex1 && hex2) by {
                if hex1 && !hex2 {
                    if t2.kind == TokKind::Float {
                        assert(x2[1] == x1[1]);
                    } else if x2.len() >= 2 {
                        assert(x2[1] == x1[1]);
                    } else {
                        assert(x2 =~= seq!['0']);
                        assert(x1[2] == src[i + 2]);
                    }
                }
                if hex2 && !hex1 {
                    if t1.kind == TokKind::Float {
                        assert(x1[1] == x2[1]);
                    } else if x1.len() >= 2 {
                        assert(x1[1] == x2[1]);
                    } else {
                        assert(x1 =~= seq!['0']);
                        assert(x2[2] == src[i + 2]);
                    }
                }
            }
            assert forall|k: int| i + 2 <= k < t1.cend implies hex(#[trigger] src[k]) by {
                assert(src[k] == x1[k - i]);
            }
            assert forall|k: int| i + 2 <= k < t2.cend implies hex(#[trigger] src[k]) by {
                assert(src[k] == x2[k - i]);
            }
            lemma_run_end(src, i + 2, t1.cend as int, t2.cend as int, hex);
        } else {
            // the digits before any dot
            let e1 = if t1.kind == TokKind::Float { i + d1 } else { t1.cend as int };
            let e2 = if t2.kind == TokKind::Float { i + d2 } else { t2.cend as int };
            assert forall|k: int| i <= k < e1 implies dig(#[trigger] src[k]) by {
                assert(src[k] == x1[k - i]);
            }
            assert forall|k: int| i <= k < e2 implies dig(#[trigger] src[k]) by {
                assert(src[k] == x2[k - i]);
            }
            if t1.kind == TokKind::Float {
                assert(src[e1] == x1[d1]);
            }
            if t2.kind == TokKind::Float {
                assert(src[e2] == x2[d2]);
            }
            lemma_run_end(src, i, e1, e2, dig);
            if t1.kind == TokKind::Float && t2.kind == TokKind::Int {
                assert(src[e1 + 1] == x1[d1 + 1]);
            } else if t2.kind == TokKind::Float && t1.kind == TokKind::Int {
                assert(src[e2 + 1] == x2[d2 + 1]);
            } else if t1.kind == TokKind::Float {
                assert forall|k: int| e1 + 1 <= k < t1.cend implies dig(#[trigger] src[k]) by {
                    assert(src[k] == x1[k - i]);
                }
                assert forall|k: int| e1 + 1 <= k < t2.cend implies dig(#[trigger] src[k]) by {
                    assert(src[k] == x2[k - i]);
                }
                lemma_run_end(src, e1 + 1, t1.cend as int, t2.cend as int, dig);
            }
        }
    } else if t1.kind == TokKind::Str {
        assert(t2.kind == TokKind::Str) by {
            if let TokKind::Sym(s2) = t2.kind {
                assert(spelling(s2)[0] == c);
            }
        }
        let e1 = t1.cend - 1;
        let e2 = t2.cend - 1;
        assert(x1.subrange(1, x1.len() - 1) =~= src.subrange(i + 1, e1));
        assert(x2.subrange(1, x2.len() - 1) =~= src.subrange(i + 1, e2));
        assert(x1.last() == src[e1] && x2.last() == src[e2]);
        if e1 < e2 {
            lemma_string_body_prefix(src.subrange(i + 1, e1), src.subrange(e1 + 1, e2), c);
            assert(src.subrange(i + 1, e1) + seq![c] + src.subrange(e1 + 1, e2) =~= src.subrange(i + 1, e2));
        } else if e2 < e1 {
            lemma_string_body_prefix(src.subrange(i + 1, e2), src.subrange(e2 + 1, e1), c);
            assert(src.subrange(i + 1, e2) + seq![c] + src.subrange(e2 + 1, e1) =~= src.subrange(i + 1, e1));
        }
    } else if t1.kind == TokKind::Newline {
        assert(x1 == seq!['\n']);
        if let TokKind::Sym(s2) = t2.kind {
            assert(spelling(s2)[0] == c);
        }
        assert(t2.kind == TokKind::Newline);
        assert(x2 == seq!['\n']);
    } else {
        let s1 = t1.kind->Sym_0;
        assert(spelling(s1)[0] == c);
        if let TokKind::Sym(s2) = t2.kind {
            assert(spelling(s2)[0] == c);
            if x1.len() == 1 && x2.len() == 2 {
                assert(spelling(s2) =~= seq![x1[0], src[t1.cend as int]]);
            } else if x2.len() == 1 && x1.len() == 2 {
                assert(spelling(s1) =~= seq![x2[0], src[t2.cend as int]]);
            }
        } else {
            assert(!is_digit(c) && !is_ident_start(c) && c != '\'' && c != '"' && c != '\n');
        }
    }
}

/// The tokens `toks[k..]` are read, in order, from `src[i..e]`, with only
/// blanks and comments before, between and after them.
pub open spec fn read_from(src: Seq<char>, toks: Seq<Token>, k: int, i: int, e: int) -> bool
    decreases toks.len() - k,
{
    if k >= toks.len() {
        blank_text(src, i, e)
    } else {
        &&& blank_text(src, i, toks[k].cstart as int)
        &&& token_matches(src, toks[k])
        &&& read_from(src, toks, k + 1, toks[k].cend as int, e)
    }
}

/// Lemma: one more token read after the others.
proof fn lemma_read_from_push(src: Seq<char>, toks: Seq<Token>, t: Token, k: int, i: int, e: int)
    requires
        0 <= k <= toks.len(),
        read_from(src, toks, k, i, t.cstart as int),
        token_matches(src, t),
        blank_text(src, t.cend as int, e),
    ensures
        read_from(src, toks.push(t), k, i, e),
    decreases toks.len() - k,
{
    let all = toks.push(t);
    if k < toks.len() {
        assert(all[k] == toks[k]);
        lemma_read_from_push(src, toks, t, k + 1, toks[k].cend as int, e);
    } else {
        assert(all[k] == t);
        assert(read_from(src, all, k + 1, t.cend as int, e));
    }
}

/// Lemma: tokens read back to front are tokens read front to back.
proof fn lemma_read_to_from(src: Seq<char>, toks: Seq<Token>, e: int)
    requires
        read_to(src, toks, e),
    ensures
        read_from(src, toks, 0, 0, e),
    decreases toks.len(),
{
    if toks.len() > 0 {
        let t = toks.last();
        let d = toks.drop_last();
        lemma_read_to_from(src, d, t.cstart as int);
        lemma_read_from_push(src, d, t, 0, 0, e);
        assert(d.push(t) =~= toks);
    }
}

/// Lemma: no blank or comment starts where a token starts.
proof fn lemma_token_not_blank(src: Seq<char>, t: Token)
    requires
        token_matches(src, t),
    ensures
        !(t.cstart < blank_end(src, t.cstart as int)),
{
    lemma_token_start(src, t);
    let i = t.cstart as int;
    let x = src.subrange(i, t.cend as int);
    assert(x[0] == src[i]);
    if let TokKind::Sym(s) = t.kind {
        assert(spelling(s)[0] == src[i]);
        if x.len() == 2 {
            assert(x[1] == src[i + 1]);
        }
    }
}

/// Lemma: blanks and comments from `a` to `b` go forward.
proof fn lemma_blank_text_order(src: Seq<char>, a: int, b: int)
    requires
        blank_text(src, a, b),
    ensures
        a <= b,
{
}

/// Lemma: where the tokens `toks[k..]` are read from `i` on, a blank or
/// comment at `i` is skipped and the same tokens are read after it.
proof fn lemma_read_from_blank(src: Seq<char>, toks: Seq<Token>, k: int, i: int)
    requires
        0 <= k <= toks.len(),
        0 <= i < src.len(),
        read_from(src, toks, k, i, src.len() as int),
        i < blank_end(src, i),
    ensures
        read_from(src, toks, k, blank_end(src, i), src.len() as int),
{
    if k < toks.len() {
        lemma_blank_text_order(src, i, toks[k].cstart as int);
        if i == toks[k].cstart {
            lemma_token_not_blank(src, toks[k]);
        }
    }
}

/// Lemma: where the tokens `toks[k..]` are read from `i` on, a token `t` at
/// `i` is `toks[k]`, up to its end.
proof fn lemma_read_from_token(src: Seq<char>, toks: Seq<Token>, k: int, i: int, t: Token)
    requires
        0 <= k <= toks.len(),
        0 <= i < src.len(),
        read_from(src, toks, k, i, src.len() as int),
        token_matches(src, t),
        t.cstart == i,
    ensures
        k < toks.len(),
        read_from(src, toks, k + 1, t.cend as int, src.len() as int),
{
    lemma_token_not_blank(src, t);
    if k < toks.len() {
        lemma_blank_text_order(src, i, toks[k].cstart as int);
        if i == toks[k].cstart {
            lemma_token_end_unique(src, t, toks[k]);
        }
    }
}

/// Lemma: where the tokens `toks[k..]` are read from `i` on, something
/// starts at `i`.
proof fn lemma_read_from_lexeme(src: Seq<char>, toks: Seq<Token>, k: int, i: int)
    requires
        0 <= k <= toks.len(),
        0 <= i < src.len(),
        read_from(src, toks, k, i, src.len() as int),
    ensures
        !no_lexeme_at(src, i),
{
    if k < toks.len() {
        lemma_blank_text_order(src, i, toks[k].cstart as int);
        if i == toks[k].cstart {
            assert(token_matches(src, toks[k]));
        }
    }
}

/// Lemma: more digits never give a smaller value.
proof fn lemma_digits_value_prefix(s: Seq<char>, k: int, base: int)
    requires
        0 <= k <= s.len(),
        base == 10 || base == 16,
        forall|m: int| 0 <= m < s.len() ==> is_hex_digit(#[trigger] s[m]),
    ensures
        0 <= digits_value(s.take(k), base) <= digits_value(s, base),
    decreases s.len(),
{
    if k == s.len() {
        assert(s.take(k) =~= s);
        lemma_digits_value_nonneg(s, base);
    } else {
        let d = s.drop_last();
        assert forall|m: int| 0 <= m < d.len() implies is_hex_digit(#[trigger] d[m]) by {
            assert(d[m] == s[m]);
        }
        lemma_digits_value_prefix(d, k, base);
        assert(d.take(k) =~= s.take(k));
        lemma_digits_value_nonneg(d, base);
        let v = digits_value(d, base);
        assert(v * base >= v) by (nonlinear_arith)
            requires
                v >= 0,
                base >= 1,
        ;
    }
}

/// Lemma: the value of digits is not negative.
proof fn lemma_digits_value_nonneg(s: Seq<char>, base: int)
    requires
        base == 10 || base == 16,
        forall|m: int| 0 <= m < s.len() ==> is_hex_digit(#[trigger] s[m]),
    ensures
        digits_value(s, base) >= 0,
    decreases s.len(),
{
    if s.len() > 0 {
        let d = s.drop_last();
        assert forall|m: int| 0 <= m < d.len() implies is_hex_digit(#[trigger] d[m]) by {
            assert(d[m] == s[m]);
        }
        lemma_digits_value_nonneg(d, base);
        let v = digits_value(d, base);
        assert(v * base >= 0) by (nonlinear_arith)
            requires
                v >= 0,
                base >= 1,
        ;
        assert(is_hex_digit(s.last()));
    }
}

/// A name or keyword that ends at `j` is not followed by another character
/// of a name: it is the longest one there.
pub open spec fn word_ends(src: Seq<char>, j: int) -> bool {
    j < src.len() ==> !is_ident_char(src[j])
}

/// What a token says of the source text `src` it was read from.
pub open spec fn token_matches(src: Seq<char>, t: Token) -> bool {
    let text = src.subrange(t.cstart as int, t.cend as int);
    &&& t.cstart < t.cend <= src.len()
    &&& t.start == byte_offset(src, t.cstart as int)
    &&& t.end == byte_offset(src, t.cend as int)
    &&& match t.kind {
        TokKind::Ident => is_name(text) && t.text@ == text && word_ends(src, t.cend as int),
        TokKind::Int => if text.len() > 2 && text[0] == '0' && text[1] == 'x' {
            &&& t.int_val == digits_value(text.subrange(2, text.len() as int), 16)
            &&& forall|i: int| 2 <= i < text.len() ==> is_hex_digit(#[trigger] text[i])
            &&& t.cend < src.len() ==> !is_hex_digit(src[t.cend as int])
        } else {
            &&& t.int_val == digits_value(text, 10)
            &&& forall|i: int| 0 <= i < text.len() ==> is_digit(#[trigger] text[i])
            &&& t.cend < src.len() ==> !is_digit(src[t.cend as int]) && !(src[t.cend as int] == '.' && t.cend + 1
                < src.len() && is_digit(src[t.cend + 1]))
            &&& !(text == seq!['0'] && t.cend + 1 < src.len() && src[t.cend as int] == 'x' && is_hex_digit(
                src[t.cend + 1],
            ))
        },
        TokKind::Float => float_literal(text, t.float_bits) && (t.cend < src.len() ==> !is_digit(
            src[t.cend as int],
        )),
        TokKind::Str => text.len() >= 2 && (text[0] == '\'' || text[0] == '"') && text.last()
            == text[0] && t.text@ == text.subrange(1, text.len() - 1) && string_body(t.text@, text[0]),
        TokKind::Newline => text == seq!['\n'],
        TokKind::Kw(k) => keyword(text) == Some(k) && word_ends(src, t.cend as int),
        TokKind::Sym(sym) => text == spelling(sym) && (sym == Sym::Slash && t.cend < src.len() ==> src[t.cend as int]
            != '/' && src[t.cend as int] != '*') && (text.len() == 1 && t.cend < src.len() ==> forall|s2: Sym|
            #[trigger] spelling(s2) != seq![text[0], src[t.cend as int]]),
    }
}

/// Where a `//` comment whose text goes on from `j` ends: at the next
/// newline, or at the end of the text.
pub open spec fn line_comment_end(src: Seq<char>, j: int) -> int
    decreases src.len() - j,
{
    if j >= src.len() || src[j] == '\n' {
        j
    } else {
        line_comment_end(src, j + 1)
    }
}

/// Where a `/* */` comment whose text goes on from `j` ends: just after
/// the next `*/`, or -1 if there is none.
pub open spec fn block_comment_end(src: Seq<char>, j: int) -> int
    decreases src.len() - j,
{
    if j < 0 || j + 1 >= src.len() {
        -1
    } else if src[j] == '*' && src[j + 1] == '/' {
        j + 2
    } else {
        block_comment_end(src, j + 1)
    }
}

/// Where the blank (space, tab or carriage return) or comment that starts
/// at `a` ends; `a` itself if none starts there.
pub open spec fn blank_end(src: Seq<char>, a: int) -> int {
    if !(0 <= a < src.len()) {
        a
    } else if src[a] == ' ' || src[a] == '\t' || src[a] == '\r' {
        a + 1
    } else if a + 1 < src.len() && src[a] == '/' && src[a + 1] == '/' {
        line_comment_end(src, a + 2)
    } else if a + 1 < src.len() && src[a] == '/' && src[a + 1] == '*' {
        block_comment_end(src, a + 2)
    } else {
        a
    }
}

/// `src[a..b]` holds only blanks and comments.
pub open spec fn blank_text(src: Seq<char>, a: int, b: int) -> bool
    decreases b - a,
{
    if a == b {
        true
    } else if a < b && a < blank_end(src, a) <= b {
        blank_text(src, blank_end(src, a), b)
    } else {
        false
    }
}

/// The tokens `toks` are read, in order, from `src[..i]`, with only blanks
/// and comments before, between and after them.
pub open spec fn read_to(src: Seq<char>, toks: Seq<Token>, i: int) -> bool
    decreases toks.len(),
{
    if toks.len() == 0 {
        blank_text(src, 0, i)
    } else {
        let t = toks.last();
        &&& token_matches(src, t)
        &&& t.cend <= i
        &&& blank_text(src, t.cend as int, i)
        &&& read_to(src, toks.drop_last(), t.cstart as int)
    }
}

/// Lemma: blanks and comments followed by one more blank or comment.
proof fn lemma_blank_text_append(src: Seq<char>, a: int, i: int)
    requires
        blank_text(src, a, i),
        i < blank_end(src, i),
    ensures
        blank_text(src, a, blank_end(src, i)),
    decreases i - a,
{
    if a < i {
        lemma_blank_text_append(src, blank_end(src, a), i);
    } else {
        assert(blank_text(src, blank_end(src, i), blank_end(src, i)));
    }
}

/// The tokens `toks` were read, in order, from `src`: all of it but blanks
/// and comments.
pub open spec fn tokens_of(src: Seq<char>, toks: Seq<Token>) -> bool {
    &&& read_to(src, toks, src.len() as int)
    &&& forall|i: int| 0 <= i < toks.len() ==> token_matches(src, #[trigger] toks[i])
    &&& forall|i: int, j: int|
        0 <= i < j < toks.len() ==> (#[trigger] toks[i]).cend <= (#[trigger] toks[j]).cstart
}

/// Lemma: the byte offset of the next character adds the width of this one.
pub proof fn lemma_byte_offset_step(s: Seq<char>, i: int)
    requires
        0 <= i < s.len(),
    ensures
        byte_offset(s, i + 1) == byte_offset(s, i) + utf8_width(s[i]),
{
    assert(s.take(i + 1).drop_last() =~= s.take(i));
}

/// Number of bytes of the UTF-8 encoding of `c`.
fn width_of(c: char) -> (n: usize)
    ensures
        n == utf8_width(c),
{
    let u = c as u32;
    if u < 0x80 {
        1
    } else if u < 0x800 {
        2
    } else if u < 0x10000 {
        3
    } else {
        4
    }
}

/// The byte offset of character `j`, given the byte offset `b` of character `i`;
/// `None` if it does not fit in a `usize`.
fn advance(cs: &Vec<char>, i: usize, j: usize, b: usize) -> (r: Option<usize>)
    requires
        i <= j <= cs@.len(),
        b == byte_offset(cs@, i as int),
    ensures
        r matches Some(b2) ==> b2 == byte_offset(cs@, j as int),
        r is None ==> too_long(cs@),
{
    let mut k = i;
    let mut bb = b;
    while k < j
        invariant
            i <= k <= j <= cs@.len(),
            bb == byte_offset(cs@, k as int),
        decreases j - k,
    {
        proof {
            lemma_byte_offset_step(cs@, k as int);
        }
        let w = width_of(cs[k]);
        match bb.checked_add(w) {
            Some(v) => {
                bb = v;
            },
            None => {
                proof {
                    lemma_byte_offset_step(cs@, k as int);
                    if k + 1 < cs@.len() {
                        crate::ast::lemma_byte_offset_mono(cs@, k + 1, cs@.len() as int);
                    }
                }
                return None;
            },
        }
        k += 1;
    }
    Some(bb)
}

/// Does `cs[a..e]` spell `lit`?
fn text_is(cs: &Vec<char>, a: usize, e: usize, lit: &[char]) -> (b: bool)
    requires
        a <= e <= cs@.len(),
    ensures
        b == (cs@.subrange(a as int, e as int) == lit@),
{
    if e - a != lit.len() {
        return false;
    }
    let mut k: usize = 0;
    while k < lit.len()
        invariant
            e - a == lit@.len(),
            a <= e <= cs@.len(),
            k <= lit@.len(),
            forall|m: int| 0 <= m < k ==> cs@[a + m] == lit@[m],
        decreases lit.len() - k,
    {
        if cs[a + k] != lit[k] {
            assert(cs@.subrange(a as int, e as int)[k as int] != lit@[k as int]);
            return false;
        }
        k += 1;
    }
    assert(cs@.subrange(a as int, e as int) =~= lit@);
    true
}

/// The keyword spelled by `cs[a..e]`, if it is one.
fn keyword_at(cs: &Vec<char>, a: usize, e: usize) -> (k: Option<Kw>)
    requires
        a <= e <= cs@.len(),
    ensures
        k == keyword(cs@.subrange(a as int, e as int)),
{
    proof {
        let s = cs@.subrange(a as int, e as int);
        assert(['i', 'f']@ =~= seq!['i', 'f']);
        assert(['t', 'h', 'e', 'n']@ =~= seq!['t', 'h', 'e', 'n']);
        assert(['e', 'l', 's', 'e']@ =~= seq!['e', 'l', 's', 'e']);
        assert(['w', 'h', 'i', 'l', 'e']@ =~= seq!['w', 'h', 'i', 'l', 'e']);
        assert(['f', 'o', 'r']@ =~= seq!['f', 'o', 'r']);
        assert(['t', 'o']@ =~= seq!['t', 'o']);
        assert(['d', 'o', 'w', 'n', 't', 'o']@ =~= seq!['d', 'o', 'w', 'n', 't', 'o']);
        assert(['s', 't', 'e', 'p']@ =~= seq!['s', 't', 'e', 'p']);
        assert(['i', 'n']@ =~= seq!['i', 'n']);
        assert(['t', 'r', 'y']@ =~= seq!['t', 'r', 'y']);
        assert(['c', 'a', 's', 'e']@ =~= seq!['c', 'a', 's', 'e']);
        assert(['a', 's']@ =~= seq!['a', 's']);
        assert(['e', 'n', 'd']@ =~= seq!['e', 'n', 'd']);
        assert(['b', 'e', 'g', 'i', 'n']@ =~= seq!['b', 'e', 'g', 'i', 'n']);
        assert(['f', 'u', 'n', 'c', 't', 'i', 'o', 'n']@ =~= seq!['f', 'u', 'n', 'c', 't', 'i', 'o', 'n']);
        assert(['r', 'e', 'c', 'o', 'r', 'd']@ =~= seq!['r', 'e', 'c', 'o', 'r', 'd']);
        assert(['r', 'e', 't', 'u', 'r', 'n']@ =~= seq!['r', 'e', 't', 'u', 'r', 'n']);
        assert(['r', 'a', 'i', 's', 'e']@ =~= seq!['r', 'a', 'i', 's', 'e']);
        assert(['c', 'o', 'n', 't', 'i', 'n', 'u', 'e']@ =~= seq!['c', 'o', 'n', 't', 'i', 'n', 'u', 'e']);
        assert(['b', 'r', 'e', 'a', 'k']@ =~= seq!['b', 'r', 'e', 'a', 'k']);
        assert(['u', 's', 'e']@ =~= seq!['u', 's', 'e']);
        assert(['a', 'n', 'd']@ =~= seq!['a', 'n', 'd']);
        assert(['o', 'r']@ =~= seq!['o', 'r']);
        assert(['n', 'o', 't']@ =~= seq!['n', 'o', 't']);
        assert(['m', 'o', 'd']@ =~= seq!['m', 'o', 'd']);
        assert(['o', 'f']@ =~= seq!['o', 'f']);
    }
    if text_is(cs, a, e, &['i', 'f']) {
        Some(Kw::If)
    } else if text_is(cs, a, e, &['t', 'h', 'e', 'n']) {
        Some(Kw::Then)
    } else if text_is(cs, a, e, &['e', 'l', 's', 'e']) {
        Some(Kw::Else)
    } else if text_is(cs, a, e, &['w', 'h', 'i', 'l', 'e']) {
        Some(Kw::While)
    } else if text_is(cs, a, e, &['f', 'o', 'r']) {
        Some(Kw::For)
    } else if text_is(cs, a, e, &['t', 'o']) {
        Some(Kw::To)
    } else if text_is(cs, a, e, &['d', 'o', 'w', 'n', 't', 'o']) {
        Some(Kw::Downto)
    } else if text_is(cs, a, e, &['s', 't', 'e', 'p']) {
        Some(Kw::Step)
    } else if text_is(cs, a, e, &['i', 'n']) {
        Some(Kw::In)
    } else if text_is(cs, a, e, &['t', 'r', 'y']) {
        Some(Kw::Try)
    } else if text_is(cs, a, e, &['c', 'a', 's', 'e']) {
        Some(Kw::Case)
    } else if text_is(cs, a, e, &['a', 's']) {
        Some(Kw::As)
    } else if text_is(cs, a, e, &['e', 'n', 'd']) {
        Some(Kw::End)
    } else if text_is(cs, a, e, &['b', 'e', 'g', 'i', 'n']) {
        Some(Kw::Begin)
    } else if text_is(cs, a, e, &['f', 'u', 'n', 'c', 't', 'i', 'o', 'n']) {
        Some(Kw::Function)
    } else if text_is(cs, a, e, &['r', 'e', 'c', 'o', 'r', 'd']) {
        Some(Kw::Record)
    } else if text_is(cs, a, e, &['r', 'e', 't', 'u', 'r', 'n']) {
        Some(Kw::Return)
    } else if text_is(cs, a, e, &['r', 'a', 'i', 's', 'e']) {
        Some(Kw::Raise)
    } else if text_is(cs, a, e, &['c', 'o', 'n', 't', 'i', 'n', 'u', 'e']) {
        Some(Kw::Continue)
    } else if text_is(cs, a, e, &['b', 'r', 'e', 'a', 'k']) {
        Some(Kw::Break)
    } else if text_is(cs, a, e, &['u', 's', 'e']) {
        Some(Kw::Use)
    } else if text_is(cs, a, e, &['a', 'n', 'd']) {
        Some(Kw::And)
    } else if text_is(cs, a, e, &['o', 'r']) {
        Some(Kw::Or)
    } else if text_is(cs, a, e, &['n', 'o', 't']) {
        Some(Kw::Not)
    } else if text_is(cs, a, e, &['m', 'o', 'd']) {
        Some(Kw::Mod)
    } else if text_is(cs, a, e, &['o', 'f']) {
        Some(Kw::Of)
    } else {
        None
    }
}

/// Value of a decimal or hexadecimal digit.
fn digit_of(c: char) -> (d: i64)
    requires
        is_hex_digit(c),
    ensures
        d == digit_value(c),
        0 <= d < 16,
{
    let u = c as u32;
    if u >= 48 && u <= 57 {
        (u - 48) as i64
    } else if u >= 97 && u <= 102 {
        (u - 97 + 10) as i64
    } else {
        (u - 65 + 10) as i64
    }
}

/// The value of the digits `cs[a..e]` in base `base`, if it fits in an `i64`.
fn digits_i64(cs: &Vec<char>, a: usize, e: usize, base: i64) -> (r: Option<i64>)
    requires
        a <= e <= cs@.len(),
        base == 10 || base == 16,
        forall|k: int| a <= k < e ==> is_hex_digit(#[trigger] cs@[k]),
        base == 10 ==> forall|k: int| a <= k < e ==> is_digit(#[trigger] cs@[k]),
    ensures
        r matches Some(v) ==> v == digits_value(cs@.subrange(a as int, e as int), base as int),
        r is None ==> digits_value(cs@.subrange(a as int, e as int), base as int) > i64::MAX,
{
    let mut v: i64 = 0;
    let mut k = a;
    assert(cs@.subrange(a as int, a as int) =~= Seq::<char>::empty());
    while k < e
        invariant
            a <= k <= e <= cs@.len(),
            base == 10 || base == 16,
            forall|m: int| a <= m < e ==> is_hex_digit(#[trigger] cs@[m]),
            0 <= v,
            v == digits_value(cs@.subrange(a as int, k as int), base as int),
        decreases e - k,
    {
        let d = digit_of(cs[k]);
        assert(cs@.subrange(a as int, k + 1).drop_last() =~= cs@.subrange(a as int, k as int));
        proof {
            let full = cs@.subrange(a as int, e as int);
            assert forall|m: int| 0 <= m < full.len() implies is_hex_digit(#[trigger] full[m]) by {
                assert(full[m] == cs@[a + m]);
            }
            lemma_digits_value_prefix(full, k + 1 - a, base as int);
            assert(full.take(k + 1 - a) =~= cs@.subrange(a as int, k + 1));
        }
        let m = match v.checked_mul(base) {
            Some(m) => m,
            None => {
                proof {
                    assert(v * base + d >= v * base) by (nonlinear_arith)
                        requires
                            d >= 0,
                    ;
                }
                return None;
            },
        };
        v = match m.checked_add(d) {
            Some(x) => x,
            None => {
                return None;
            },
        };
        k += 1;
    }
    Some(v)
}

/// Builds a string from the characters `cs[a..e]`.
fn substring(cs: &Vec<char>, a: usize, e: usize) -> (s: String)
    requires
        a <= e <= cs@.len(),
    ensures
        s@ == cs@.subrange(a as int, e as int),
{
    let mut s = String::new();
    let mut k = a;
    while k < e
        invariant
            a <= k <= e <= cs@.len(),
            s@ == cs@.subrange(a as int, k as int),
        decreases e - k,
    {
        crate::text::push_char(&mut s, cs[k]);
        assert(cs@.subrange(a as int, k + 1) =~= cs@.subrange(a as int, k as int).push(cs@[k as int]));
        k += 1;
    }
    s
}

/// An error at the byte offset `offset`.
fn error_at(offset: usize, message: &str) -> (e: ParseError)
    ensures
        e.offset == offset,
{
    ParseError { offset, message: message.to_owned() }
}

/// A token of kind `kind` for the characters `cs[i..j]`, whose first byte is `b`.
fn make_token(kind: TokKind, text: String, int_val: i64, float_bits: u64, cs: &Vec<char>, i: usize, j: usize, b: usize) -> (r: Result<Token, ParseError>)
    requires
        i < j <= cs@.len(),
        b == byte_offset(cs@, i as int),
    ensures
        r matches Ok(t) ==> t.kind == kind && t.text == text && t.int_val == int_val && t.float_bits == float_bits
            && t.cstart == i && t.cend == j && t.start == b && t.end == byte_offset(cs@, j as int),
        r is Err ==> too_long(cs@),
{
    match advance(cs, i, j, b) {
        Some(e) => Ok(
            Token { kind, text, int_val, float_bits, cstart: i, cend: j, start: b, end: e },
        ),
        None => Err(error_at(b, "source text too long")),
    }
}

/// Reads a number (decimal, `0x` hexadecimal, or decimal with a fraction)
/// that starts at `cs[i]`.
fn lex_number(cs: &Vec<char>, i: usize, b: usize) -> (r: Result<Token, ParseError>)
    requires
        i < cs@.len(),
        is_digit(cs@[i as int]),
        b == byte_offset(cs@, i as int),
    ensures
        r matches Ok(t) ==> token_matches(cs@, t) && t.cstart == i,
        r is Err ==> too_long(cs@) || no_token_at(cs@, i as int),
{
    let n = cs.len();
    if cs[i] == '0' && 2 < n - i && cs[i + 1] == 'x' && is_hex(cs[i + 2]) {
        let mut j = i + 2;
        while j < n && is_hex(cs[j])
            invariant
                i + 2 <= j <= n == cs@.len(),
                forall|k: int| i + 2 <= k < j ==> is_hex_digit(#[trigger] cs@[k]),
            decreases n - j,
        {
            j += 1;
        }
        let v = match digits_i64(cs, i + 2, j, 16) {
            Some(v) => v,
            None => {
                proof {
                    lemma_hex_overflow_no_token(cs@, i as int, j as int);
                }
                return Err(error_at(b, "integer literal too large"));
            },
        };
        let r = make_token(TokKind::Int, String::new(), v, 0, cs, i, j, b);
        proof {
            let text = cs@.subrange(i as int, j as int);
            assert(text.subrange(2, text.len() as int) =~= cs@.subrange(i + 2, j as int));
            assert forall|k: int| 2 <= k < text.len() implies is_hex_digit(#[trigger] text[k]) by {
                assert(text[k] == cs@[i + k]);
            }
        }
        return r;
    }
    let mut j = i;
    while j < n && is_dec(cs[j])
        invariant
            i <= j <= n == cs@.len(),
            forall|k: int| i <= k < j ==> is_digit(#[trigger] cs@[k]),
        decreases n - j,
    {
        j += 1;
    }
    if j < n - 1 && cs[j] == '.' && is_dec(cs[j + 1]) {
        let dot = j;
        j += 1;
        while j < n && is_dec(cs[j])
            invariant
                dot < j <= n == cs@.len(),
                forall|k: int| i <= k < dot ==> is_digit(#[trigger] cs@[k]),
                forall|k: int| dot < k < j ==> is_digit(#[trigger] cs@[k]),
                cs@[dot as int] == '.',
            decreases n - j,
        {
            j += 1;
        }
        let bits = match crate::ast::float::decimal_bits(cs, i, dot, j) {
            Some(v) => v,
            None => {
                proof {
                    lemma_float_range_no_token(cs@, i as int, dot as int, j as int);
                }
                return Err(error_at(b, "floating-point literal out of range"));
            },
        };
        let r = make_token(TokKind::Float, String::new(), 0, bits, cs, i, j, b);
        proof {
            let text = cs@.subrange(i as int, j as int);
            let w = dot - i;
            assert(text[w as int] == '.');
            assert forall|k: int| 0 <= k < text.len() && k != w implies is_digit(#[trigger] text[k]) by {
                assert(text[k] == cs@[i + k]);
            }
            assert(text.subrange(0, w as int) =~= cs@.subrange(i as int, dot as int));
            assert(text.subrange(w + 1, text.len() as int) =~= cs@.subrange(dot + 1, j as int));
            assert(text.len() - w - 1 == j - dot - 1);
        }
        return r;
    }
    let v = match digits_i64(cs, i, j, 10) {
        Some(v) => v,
        None => {
            proof {
                lemma_dec_overflow_no_token(cs@, i as int, j as int);
            }
            return Err(error_at(b, "integer literal too large"));
        },
    };
    let r = make_token(TokKind::Int, String::new(), v, 0, cs, i, j, b);
    proof {
        let text = cs@.subrange(i as int, j as int);
        assert(text =~= cs@.subrange(i as int, j as int));
        assert forall|k: int| 0 <= k < text.len() implies is_digit(#[trigger] text[k]) by {
            assert(text[k] == cs@[i + k]);
        }
        if text.len() > 2 && text[0] == '0' && text[1] == 'x' {
            assert(text[1] == cs@[i + 1]);
        }
    }
    r
}

fn is_dec(c: char) -> (b: bool)
    ensures
        b == is_digit(c),
{
    let u = c as u32;
    u >= 48 && u <= 57
}

fn is_hex(c: char) -> (b: bool)
    ensures
        b == is_hex_digit(c),
{
    let u = c as u32;
    (u >= 48 && u <= 57) || (u >= 97 && u <= 102) || (u >= 65 && u <= 70)
}

fn is_ident_start_char(c: char) -> (b: bool)
    ensures
        b == is_ident_start(c),
{
    let u = c as u32;
    (u >= 97 && u <= 122) || (u >= 65 && u <= 90) || u == 95 || u == 36
}

fn is_ident_cont(c: char) -> (b: bool)
    ensures
        b == is_ident_char(c),
{
    let u = c as u32;
    is_ident_start_char(c) || (u >= 48 && u <= 57) || u == 63 || u == 33
}

/// Reads a name or a keyword that starts at `cs[i]`.
fn lex_word(cs: &Vec<char>, i: usize, b: usize) -> (r: Result<Token, ParseError>)
    requires
        i < cs@.len(),
        is_ident_start(cs@[i as int]),
        b == byte_offset(cs@, i as int),
    ensures
        r matches Ok(t) ==> token_matches(cs@, t) && t.cstart == i,
        r is Err ==> too_long(cs@) || no_token_at(cs@, i as int),
{
    let n = cs.len();
    let mut j = i + 1;
    while j < n && is_ident_cont(cs[j])
        invariant
            i < j <= n == cs@.len(),
            forall|k: int| i < k < j ==> is_ident_char(#[trigger] cs@[k]),
        decreases n - j,
    {
        j += 1;
    }
    let ghost text = cs@.subrange(i as int, j as int);
    match keyword_at(cs, i, j) {
        Some(k) => make_token(TokKind::Kw(k), String::new(), 0, 0, cs, i, j, b),
        None => {
            let s = substring(cs, i, j);
            let r = make_token(TokKind::Ident, s, 0, 0, cs, i, j, b);
            proof {
                assert(text[0] == cs@[i as int]);
                assert forall|k: int| 0 < k < text.len() implies is_ident_char(#[trigger] text[k]) by {
                    assert(text[k] == cs@[i + k]);
                }
            }
            r
        },
    }
}

/// Reads a string literal that starts with the quote `cs[i]`.
fn lex_string(cs: &Vec<char>, i: usize, b: usize) -> (r: Result<Token, ParseError>)
    requires
        i < cs@.len(),
        cs@[i as int] == '\'' || cs@[i as int] == '"',
        b == byte_offset(cs@, i as int),
    ensures
        r matches Ok(t) ==> token_matches(cs@, t) && t.cstart == i,
        r is Err ==> too_long(cs@) || no_token_at(cs@, i as int),
{
    let n = cs.len();
    let q = cs[i];
    let mut j = i + 1;
    assert(cs@.subrange(i + 1, i + 1) =~= Seq::<char>::empty());
    while j < n && cs[j] != q
        invariant
            i < j <= n == cs@.len(),
            q == cs@[i as int],
            j == n || string_body(cs@.subrange(i + 1, j as int), q),
            forall|e: int|
                i + 1 <= e < j && e < n ==> !(cs@[e] == q && #[trigger] string_body(cs@.subrange(i + 1, e), q)),
        decreases n - j,
    {
        if cs[j] == '\\' && j < n - 1 {
            proof {
                lemma_string_body_backslash(cs@.subrange(i + 1, j as int), q);
                assert(cs@.subrange(i + 1, j as int).push('\\') =~= cs@.subrange(i + 1, j + 1));
                lemma_string_body_append(cs@.subrange(i + 1, j as int), q, cs@.subrange(j as int, j + 2));
                assert(cs@.subrange(i + 1, j as int) + cs@.subrange(j as int, j + 2) =~= cs@.subrange(i + 1, j + 2));
            }
            j += 2;
        } else {
            proof {
                if cs[j as int] != '\\' {
                    lemma_string_body_append(cs@.subrange(i + 1, j as int), q, cs@.subrange(j as int, j + 1));
                    assert(cs@.subrange(i + 1, j as int) + cs@.subrange(j as int, j + 1) =~= cs@.subrange(
                        i + 1,
                        j + 1,
                    ));
                }
            }
            j += 1;
        }
    }
    if j >= n {
        proof {
            assert forall|t: Token| #[trigger] token_matches(cs@, t) implies t.cstart != i by {
                if t.cstart == i {
                    lemma_token_start(cs@, t);
                    if t.kind == TokKind::Str {
                        let text = cs@.subrange(t.cstart as int, t.cend as int);
                        let e = t.cend - 1;
                        assert(text[0] == cs@[i as int]);
                        assert(text.last() == cs@[e]);
                        assert(text.subrange(1, text.len() - 1) =~= cs@.subrange(i + 1, e));
                        assert(string_body(cs@.subrange(i + 1, e), q));
                    }
                }
            }
        }
        return Err(error_at(b, "unterminated string literal"));
    }
    let s = substring(cs, i + 1, j);
    let r = make_token(TokKind::Str, s, 0, 0, cs, i, j + 1, b);
    proof {
        let text = cs@.subrange(i as int, j + 1);
        assert(text[0] == cs@[i as int]);
        assert(text.last() == cs@[j as int]);
        assert(text.subrange(1, text.len() - 1) =~= cs@.subrange(i + 1, j as int));
    }
    r
}

/// The symbol written at `cs[i]`, with its length in characters.
fn sym_at(cs: &Vec<char>, i: usize) -> (r: Option<(Sym, usize)>)
    requires
        i < cs@.len(),
    ensures
        r matches Some((sym, len)) ==> 1 <= len <= 2 && i + len <= cs@.len() && cs@.subrange(
            i as int,
            i + len,
        ) == spelling(sym) && (len == 1 && i + 1 < cs@.len() ==> forall|s2: Sym|
            #[trigger] spelling(s2) != seq![cs@[i as int], cs@[i + 1]]),
        r is None ==> forall|s2: Sym| #[trigger] spelling(s2)[0] != cs@[i as int] || (spelling(s2).len() == 2 && (i
            + 1 >= cs@.len() || spelling(s2)[1] != cs@[i + 1])),
{
    let n = cs.len();
    let c = cs[i];
    let two = i < n - 1;
    let d = if two {
        cs[i + 1]
    } else {
        ' '
    };
    let r = if c == '(' {
        Some((Sym::LParen, 1))
    } else if c == ')' {
        Some((Sym::RParen, 1))
    } else if c == '[' {
        Some((Sym::LBracket, 1))
    } else if c == ']' {
        Some((Sym::RBracket, 1))
    } else if c == '{' {
        Some((Sym::LBrace, 1))
    } else if c == '}' {
        Some((Sym::RBrace, 1))
    } else if c == ',' {
        Some((Sym::Comma, 1))
    } else if c == '.' {
        Some((Sym::Dot, 1))
    } else if c == '?' {
        Some((Sym::Question, 1))
    } else if c == '|' {
        Some((Sym::Pipe, 1))
    } else if c == ':' {
        if two && d == ':' {
            Some((Sym::ColonColon, 2))
        } else {
            Some((Sym::Colon, 1))
        }
    } else if c == '=' {
        if two && d == '=' {
            Some((Sym::Eq, 2))
        } else {
            Some((Sym::Assign, 1))
        }
    } else if c == '!' {
        if two && d == '=' {
            Some((Sym::Neq, 2))
        } else {
            None
        }
    } else if c == '<' {
        if two && d == '=' {
            Some((Sym::Leq, 2))
        } else {
            Some((Sym::Lt, 1))
        }
    } else if c == '>' {
        if two && d == '=' {
            Some((Sym::Geq, 2))
        } else {
            Some((Sym::Gt, 1))
        }
    } else if c == '+' {
        if two && d == '=' {
            Some((Sym::AddAssign, 2))
        } else {
            Some((Sym::Plus, 1))
        }
    } else if c == '-' {
        if two && d == '=' {
            Some((Sym::SubAssign, 2))
        } else {
            Some((Sym::Minus, 1))
        }
    } else if c == '*' {
        if two && d == '=' {
            Some((Sym::MulAssign, 2))
        } else {
            Some((Sym::Star, 1))
        }
    } else if c == '/' {
        if two && d == '=' {
            Some((Sym::DivAssign, 2))
        } else {
            Some((Sym::Slash, 1))
        }
    } else {
        None
    };
    proof {
        match r {
            Some((sym, len)) => {
                if len == 1 {
                    assert(cs@.subrange(i as int, i + 1) =~= seq![c]);
                } else {
                    assert(cs@.subrange(i as int, i + 2) =~= seq![c, d]);
                }
            },
            None => {
                assert forall|s2: Sym| #[trigger] spelling(s2)[0] != cs@[i as int] || (spelling(s2).len() == 2 && (i
                    + 1 >= cs@.len() || spelling(s2)[1] != cs@[i + 1])) by {
                    match s2 {
                        _ => {},
                    }
                }
            },
        }
    }
    r
}

/// Reads what starts at `cs[i]`: a token, or blanks and comments (no token).
/// Returns where it ends.
fn next_lexeme(cs: &Vec<char>, i: usize, b: usize) -> (r: Result<(Option<Token>, usize), ParseError>)
    requires
        i < cs@.len(),
        b == byte_offset(cs@, i as int),
    ensures
        r matches Ok((ot, j)) ==> i < j <= cs@.len() && (ot matches Some(t) ==> token_matches(cs@, t)
            && t.cstart == i && t.cend == j) && (ot is None ==> j == blank_end(cs@, i as int)),
        r is Err ==> too_long(cs@) || no_lexeme_at(cs@, i as int),
{
    let n = cs.len();
    let c = cs[i];
    if c == ' ' || c == '\t' || c == '\r' {
        return Ok((None, i + 1));
    }
    if c == '\n' {
        let t = make_token(TokKind::Newline, String::new(), 0, 0, cs, i, i + 1, b)?;
        assert(cs@.subrange(i as int, i + 1) =~= seq!['\n']);
        return Ok((Some(t), i + 1));
    }
    if c == '/' && i < n - 1 && cs[i + 1] == '/' {
        let mut j = i + 2;
        while j < n && cs[j] != '\n'
            invariant
                i + 2 <= j <= n == cs@.len(),
                line_comment_end(cs@, j as int) == line_comment_end(cs@, i + 2),
            decreases n - j,
        {
            j += 1;
        }
        return Ok((None, j));
    }
    if c == '/' && i < n - 1 && cs[i + 1] == '*' {
        let mut j = i + 2;
        while j < n - 1 && !(cs[j] == '*' && cs[j + 1] == '/')
            invariant
                i + 2 <= j <= n == cs@.len(),
                n >= 2,
                block_comment_end(cs@, j as int) == block_comment_end(cs@, i + 2),
            decreases n - j,
        {
            j += 1;
        }
        if j >= n - 1 {
            proof {
                assert(blank_end(cs@, i as int) == -1);
                assert forall|t: Token| #[trigger] token_matches(cs@, t) implies t.cstart != i by {
                    lemma_token_start(cs@, t);
                    if t.cstart == i {
                        if let TokKind::Sym(sym) = t.kind {
                            let text = cs@.subrange(t.cstart as int, t.cend as int);
                            assert(text[0] == '/');
                            if text.len() == 2 {
                                assert(text[1] == cs@[i + 1]);
                            }
                        }
                    }
                }
            }
            return Err(error_at(b, "unterminated comment"));
        }
        return Ok((None, j + 2));
    }
    if is_dec(c) {
        let t = lex_number(cs, i, b)?;
        let j = t.cend;
        return Ok((Some(t), j));
    }
    if is_ident_start_char(c) {
        let t = lex_word(cs, i, b)?;
        let j = t.cend;
        return Ok((Some(t), j));
    }
    if c == '\'' || c == '"' {
        let t = lex_string(cs, i, b)?;
        let j = t.cend;
        return Ok((Some(t), j));
    }
    match sym_at(cs, i) {
        Some((sym, len)) => {
            let t = make_token(TokKind::Sym(sym), String::new(), 0, 0, cs, i, i + len, b)?;
            proof {
                if sym == Sym::Slash {
                    assert(spelling(Sym::Slash) == seq!['/']);
                    assert(cs@.subrange(i as int, i + len)[0] == cs@[i as int]);
                    assert(c == '/');
                    if i + 1 < n {
                        assert(cs@[i + 1] != '/' && cs@[i + 1] != '*');
                    }
                }
            }
            Ok((Some(t), i + len))
        },
        None => {
            proof {
                assert(blank_end(cs@, i as int) == i);
                assert forall|t: Token| #[trigger] token_matches(cs@, t) implies t.cstart != i by {
                    lemma_token_start(cs@, t);
                    if t.cstart == i {
                        if let TokKind::Sym(sym) = t.kind {
                            let text = cs@.subrange(t.cstart as int, t.cend as int);
                            assert(text[0] == cs@[i as int]);
                            if text.len() == 2 {
                                assert(text[1] == cs@[i + 1]);
                            }
                            assert(spelling(sym)[0] != cs@[i as int] || (spelling(sym).len() == 2 && (i + 1
                                >= cs@.len() || spelling(sym)[1] != cs@[i + 1])));
                        }
                    }
                }
            }
            Err(error_at(b, "unexpected character"))
        },
    }
}

/// Splits hana source text into tokens.
pub fn lex(input: &str) -> (r: Result<Vec<Token>, ParseError>)
    ensures
        r matches Ok(toks) ==> tokens_of(input@, toks@),
        r is Err ==> too_long(input@) || exists|i: int, toks: Seq<Token>|
            #[trigger] read_to(input@, toks, i) && 0 <= i < input@.len() && no_lexeme_at(input@, i),
        forall|toks: Seq<Token>| #[trigger] tokens_of(input@, toks) && !too_long(input@) ==> r is Ok,
{
    let cs = crate::text::chars_of(input);
    let n = cs.len();
    let mut toks: Vec<Token> = Vec::new();
    let mut i: usize = 0;
    let mut b: usize = 0;
    assert(cs@.take(0) =~= Seq::<char>::empty());
    proof {
        assert forall|tt: Seq<Token>| #[trigger] tokens_of(cs@, tt) implies read_from(cs@, tt, 0, 0, n as int) by {
            lemma_read_to_from(cs@, tt, n as int);
        }
    }
    while i < n
        invariant
            cs@ == input@,
            n == cs@.len(),
            i <= n,
            b == byte_offset(cs@, i as int),
            forall|k: int| 0 <= k < toks@.len() ==> token_matches(cs@, #[trigger] toks@[k]),
            forall|k: int| 0 <= k < toks@.len() ==> (#[trigger] toks@[k]).cend <= i,
            forall|k: int, l: int|
                0 <= k < l < toks@.len() ==> (#[trigger] toks@[k]).cend <= (#[trigger] toks@[l]).cstart,
            read_to(cs@, toks@, i as int),
            forall|tt: Seq<Token>|
                #[trigger] tokens_of(cs@, tt) ==> toks@.len() <= tt.len() && read_from(
                    cs@,
                    tt,
                    toks@.len() as int,
                    i as int,
                    n as int,
                ),
        decreases n - i,
    {
        let (ot, j) = match next_lexeme(&cs, i, b) {
            Ok(x) => x,
            Err(e) => {
                proof {
                    if !too_long(cs@) {
                        assert(read_to(input@, toks@, i as int) && no_lexeme_at(input@, i as int));
                        assert forall|tt: Seq<Token>| #[trigger] tokens_of(input@, tt) implies too_long(input@) by {
                            lemma_read_from_lexeme(cs@, tt, toks@.len() as int, i as int);
                        }
                    }
                }
                return Err(e);
            },
        };
        proof {
            assert forall|tt: Seq<Token>| #[trigger] tokens_of(cs@, tt) implies toks@.len() + (if ot is Some {
                1int
            } else {
                0
            }) <= tt.len() && read_from(
                cs@,
                tt,
                toks@.len() + (if ot is Some {
                    1int
                } else {
                    0
                }),
                j as int,
                n as int,
            ) by {
                match ot {
                    Some(t) => {
                        lemma_read_from_token(cs@, tt, toks@.len() as int, i as int, t);
                    },
                    None => {
                        lemma_read_from_blank(cs@, tt, toks@.len() as int, i as int);
                    },
                }
            }
        }
        let ghost prev = toks@;
        match ot {
            Some(t) => {
                toks.push(t);
                proof {
                    assert(toks@.drop_last() =~= prev);
                    assert(blank_text(cs@, j as int, j as int));
                }
            },
            None => {
                proof {
                    if prev.len() == 0 {
                        lemma_blank_text_append(cs@, 0, i as int);
                    } else {
                        lemma_blank_text_append(cs@, prev.last().cend as int, i as int);
                    }
                }
            },
        }
        b = match advance(&cs, i, j, b) {
            Some(v) => v,
            None => {
                return Err(error_at(b, "source text too long"));
            },
        };
        i = j;
    }
    Ok(toks)
}

/// Law: a name starts with a letter, `_` or `$` and goes on with letters,
/// digits, `_`, `$`, `?` and `!`; and a name or a keyword runs over every
/// such character that follows it: in the tokens read from any text, no
/// name or keyword token is directly followed by one of these characters
/// (so `x1` is one name, not `x` and `1`).
pub proof fn law_name_runs_on(src: Seq<char>, toks: Seq<Token>, i: int)
    requires
        tokens_of(src, toks),
        0 <= i < toks.len(),
        toks[i].kind == TokKind::Ident || toks[i].kind is Kw,
    ensures
        toks[i].cend < src.len() ==> ({
            let c = src[toks[i].cend as int];
            &&& !('0' <= c <= '9')
            &&& !('a' <= c <= 'z')
            &&& !('A' <= c <= 'Z')
            &&& c != '_' && c != '$' && c != '?' && c != '!'
        }),
        toks[i].kind == TokKind::Ident ==> ({
            let t = toks[i].text@;
            &&& t.len() > 0
            &&& ('a' <= t[0] <= 'z' || 'A' <= t[0] <= 'Z' || t[0] == '_' || t[0] == '$')
            &&& forall|j: int|
                0 < j < t.len() ==> ('a' <= #[trigger] t[j] <= 'z' || 'A' <= t[j] <= 'Z' || '0' <= t[j]
                    <= '9' || t[j] == '_' || t[j] == '$' || t[j] == '?' || t[j] == '!')
        }),
{
    assert(token_matches(src, toks[i]));
}

/// Law: the keywords of hana. In the tokens read from any text, a token
/// whose text is one of `if then else while for to downto step in try case
/// as end begin function record return raise continue break use and or not
/// mod of` is that keyword.
pub proof fn law_keyword_tokens(src: Seq<char>, toks: Seq<Token>, i: int)
    requires
        tokens_of(src, toks),
        0 <= i < toks.len(),
    ensures
        ({
            let t = src.subrange(toks[i].cstart as int, toks[i].cend as int);
            let k = toks[i].kind;
            &&& t == seq!['i', 'f'] ==> k == TokKind::Kw(Kw::If)
            &&& t == seq!['t', 'h', 'e', 'n'] ==> k == TokKind::Kw(Kw::Then)
            &&& t == seq!['e', 'l', 's', 'e'] ==> k == TokKind::Kw(Kw::Else)
            &&& t == seq!['w', 'h', 'i', 'l', 'e'] ==> k == TokKind::Kw(Kw::While)
            &&& t == seq!['f', 'o', 'r'] ==> k == TokKind::Kw(Kw::For)
            &&& t == seq!['t', 'o'] ==> k == TokKind::Kw(Kw::To)
            &&& t == seq!['d', 'o', 'w', 'n', 't', 'o'] ==> k == TokKind::Kw(Kw::Downto)
            &&& t == seq!['s', 't', 'e', 'p'] ==> k == TokKind::Kw(Kw::Step)
            &&& t == seq!['i', 'n'] ==> k == TokKind::Kw(Kw::In)
            &&& t == seq!['t', 'r', 'y'] ==> k == TokKind::Kw(Kw::Try)
            &&& t == seq!['c', 'a', 's', 'e'] ==> k == TokKind::Kw(Kw::Case)
            &&& t == seq!['a', 's'] ==> k == TokKind::Kw(Kw::As)
            &&& t == seq!['e', 'n', 'd'] ==> k == TokKind::Kw(Kw::End)
            &&& t == seq!['b', 'e', 'g', 'i', 'n'] ==> k == TokKind::Kw(Kw::Begin)
            &&& t == seq!['f', 'u', 'n', 'c', 't', 'i', 'o', 'n'] ==> k == TokKind::Kw(Kw::Function)
            &&& t == seq!['r', 'e', 'c', 'o', 'r', 'd'] ==> k == TokKind::Kw(Kw::Record)
            &&& t == seq!['r', 'e', 't', 'u', 'r', 'n'] ==> k == TokKind::Kw(Kw::Return)
            &&& t == seq!['r', 'a', 'i', 's', 'e'] ==> k == TokKind::Kw(Kw::Raise)
            &&& t == seq!['c', 'o', 'n', 't', 'i', 'n', 'u', 'e'] ==> k == TokKind::Kw(Kw::Continue)
            &&& t == seq!['b', 'r', 'e', 'a', 'k'] ==> k == TokKind::Kw(Kw::Break)
            &&& t == seq!['u', 's', 'e'] ==> k == TokKind::Kw(Kw::Use)
            &&& t == seq!['a', 'n', 'd'] ==> k == TokKind::Kw(Kw::And)
            &&& t == seq!['o', 'r'] ==> k == TokKind::Kw(Kw::Or)
            &&& t == seq!['n', 'o', 't'] ==> k == TokKind::Kw(Kw::Not)
            &&& t == seq!['m', 'o', 'd'] ==> k == TokKind::Kw(Kw::Mod)
            &&& t == seq!['o', 'f'] ==> k == TokKind::Kw(Kw::Of)
        }),
{
    assert(token_matches(src, toks[i]));
}

/// Lemma: a keyword is spelled with letters.
proof fn lemma_keyword_letters(s: Seq<char>)
    requires
        keyword(s) is Some,
    ensures
        s.len() > 0 && 'a' <= s[0] <= 'z',
{
}

/// The place of a symbol in the list of symbols.
spec fn sym_code(s: Sym) -> int {
    match s {
        Sym::LParen => 0,
        Sym::RParen => 1,
        Sym::LBracket => 2,
        Sym::RBracket => 3,
        Sym::LBrace => 4,
        Sym::RBrace => 5,
        Sym::Comma => 6,
        Sym::Dot => 7,
        Sym::ColonColon => 8,
        Sym::Colon => 9,
        Sym::Question => 10,
        Sym::Assign => 11,
        Sym::Eq => 12,
        Sym::Neq => 13,
        Sym::Lt => 14,
        Sym::Leq => 15,
        Sym::Gt => 16,
        Sym::Geq => 17,
        Sym::Plus => 18,
        Sym::Minus => 19,
        Sym::Star => 20,
        Sym::Slash => 21,
        Sym::AddAssign => 22,
        Sym::SubAssign => 23,
        Sym::MulAssign => 24,
        Sym::DivAssign => 25,
        Sym::Pipe => 26,
    }
}

/// The place, in the list of symbols, of the symbol spelled `t` (-1 if none).
spec fn spell_code(t: Seq<char>) -> int {
    if t.len() == 1 && t[0] == '(' {
        0
    } else if t.len() == 1 && t[0] == ')' {
        1
    } else if t.len() == 1 && t[0] == '[' {
        2
    } else if t.len() == 1 && t[0] == ']' {
        3
    } else if t.len() == 1 && t[0] == '{' {
        4
    } else if t.len() == 1 && t[0] == '}' {
        5
    } else if t.len() == 1 && t[0] == ',' {
        6
    } else if t.len() == 1 && t[0] == '.' {
        7
    } else if t.len() == 2 && t[0] == ':' && t[1] == ':' {
        8
    } else if t.len() == 1 && t[0] == ':' {
        9
    } else if t.len() == 1 && t[0] == '?' {
        10
    } else if t.len() == 1 && t[0] == '=' {
        11
    } else if t.len() == 2 && t[0] == '=' && t[1] == '=' {
        12
    } else if t.len() == 2 && t[0] == '!' && t[1] == '=' {
        13
    } else if t.len() == 1 && t[0] == '<' {
        14
    } else if t.len() == 2 && t[0] == '<' && t[1] == '=' {
        15
    } else if t.len() == 1 && t[0] == '>' {
        16
    } else if t.len() == 2 && t[0] == '>' && t[1] == '=' {
        17
    } else if t.len() == 1 && t[0] == '+' {
        18
    } else if t.len() == 1 && t[0] == '-' {
        19
    } else if t.len() == 1 && t[0] == '*' {
        20
    } else if t.len() == 1 && t[0] == '/' {
        21
    } else if t.len() == 2 && t[0] == '+' && t[1] == '=' {
        22
    } else if t.len() == 2 && t[0] == '-' && t[1] == '=' {
        23
    } else if t.len() == 2 && t[0] == '*' && t[1] == '=' {
        24
    } else if t.len() == 2 && t[0] == '/' && t[1] == '=' {
        25
    } else if t.len() == 1 && t[0] == '|' {
        26
    } else {
        -1
    }
}

/// The symbol at place `n` of the list of symbols.
spec fn sym_of_code(n: int) -> Sym {
    if n == 0 {
        Sym::LParen
    } else if n == 1 {
        Sym::RParen
    } else if n == 2 {
        Sym::LBracket
    } else if n == 3 {
        Sym::RBracket
    } else if n == 4 {
        Sym::LBrace
    } else if n == 5 {
        Sym::RBrace
    } else if n == 6 {
        Sym::Comma
    } else if n == 7 {
        Sym::Dot
    } else if n == 8 {
        Sym::ColonColon
    } else if n == 9 {
        Sym::Colon
    } else if n == 10 {
        Sym::Question
    } else if n == 11 {
        Sym::Assign
    } else if n == 12 {
        Sym::Eq
    } else if n == 13 {
        Sym::Neq
    } else if n == 14 {
        Sym::Lt
    } else if n == 15 {
        Sym::Leq
    } else if n == 16 {
        Sym::Gt
    } else if n == 17 {
        Sym::Geq
    } else if n == 18 {
        Sym::Plus
    } else if n == 19 {
        Sym::Minus
    } else if n == 20 {
        Sym::Star
    } else if n == 21 {
        Sym::Slash
    } else if n == 22 {
        Sym::AddAssign
    } else if n == 23 {
        Sym::SubAssign
    } else if n == 24 {
        Sym::MulAssign
    } else if n == 25 {
        Sym::DivAssign
    } else {
        Sym::Pipe
    }
}

/// Lemma: two symbols spelled alike are the same symbol.
proof fn lemma_spelling_injective(a: Sym, b: Sym)
    requires
        spelling(a) == spelling(b),
    ensures
        a == b,
{
    match a {
        Sym::LParen => {},
        Sym::RParen => {},
        Sym::LBracket => {},
        Sym::RBracket => {},
        Sym::LBrace => {},
        Sym::RBrace => {},
        Sym::Comma => {},
        Sym::Dot => {},
        Sym::ColonColon => {},
        Sym::Colon => {},
        Sym::Question => {},
        Sym::Assign => {},
        Sym::Eq => {},
        Sym::Neq => {},
        Sym::Lt => {},
        Sym::Leq => {},
        Sym::Gt => {},
        Sym::Geq => {},
        Sym::Plus => {},
        Sym::Minus => {},
        Sym::Star => {},
        Sym::Slash => {},
        Sym::AddAssign => {},
        Sym::SubAssign => {},
        Sym::MulAssign => {},
        Sym::DivAssign => {},
        Sym::Pipe => {},
    }
    match b {
        Sym::LParen => {},
        Sym::RParen => {},
        Sym::LBracket => {},
        Sym::RBracket => {},
        Sym::LBrace => {},
        Sym::RBrace => {},
        Sym::Comma => {},
        Sym::Dot => {},
        Sym::ColonColon => {},
        Sym::Colon => {},
        Sym::Question => {},
        Sym::Assign => {},
        Sym::Eq => {},
        Sym::Neq => {},
        Sym::Lt => {},
        Sym::Leq => {},
        Sym::Gt => {},
        Sym::Geq => {},
        Sym::Plus => {},
        Sym::Minus => {},
        Sym::Star => {},
        Sym::Slash => {},
        Sym::AddAssign => {},
        Sym::SubAssign => {},
        Sym::MulAssign => {},
        Sym::DivAssign => {},
        Sym::Pipe => {},
    }
    assert(spell_code(spelling(a)) == sym_code(a));
    assert(spell_code(spelling(b)) == sym_code(b));
    assert(sym_of_code(sym_code(a)) == a);
    assert(sym_of_code(sym_code(b)) == b);
}

/// Lemma: a token that starts with a character that no name, keyword,
/// number, string or newline starts with is the symbol spelled like it.
proof fn lemma_symbol_token(src: Seq<char>, t: Token, s: Sym)
    requires
        token_matches(src, t),
        src.subrange(t.cstart as int, t.cend as int) == spelling(s),
    ensures
        t.kind == TokKind::Sym(s),
{
    let text = src.subrange(t.cstart as int, t.cend as int);
    let c = text[0];
    assert(!is_ident_start(c) && !is_digit(c) && c != '\'' && c != '"' && c != '\n');
    match t.kind {
        TokKind::Kw(k) => {
            lemma_keyword_letters(text);
        },
        TokKind::Int => {
            if !(text.len() > 2 && text[0] == '0' && text[1] == 'x') {
                assert(is_digit(text[0]));
            }
        },
        TokKind::Float => {
            let dot = choose|dot: int|
                {
                    &&& 0 < dot < text.len() - 1
                    &&& text[dot] == '.'
                    &&& forall|i: int| 0 <= i < text.len() && i != dot ==> is_digit(#[trigger] text[i])
                    &&& ({
                        let n = digits_value(
                            text.subrange(0, dot) + text.subrange(dot + 1, text.len() as int),
                            10,
                        );
                        let k = (text.len() - dot - 1) as nat;
                        &&& n < 0x1_0000_0000_0000_0000
                        &&& k <= 22
                        &&& n == 0 ==> t.float_bits == 0
                        &&& n > 0 ==> crate::ast::float::rounds_to(n as nat, crate::ast::float::p10(k), t.float_bits)
                    })
                };
            assert(is_digit(text[0]));
        },
        TokKind::Sym(s2) => {
            lemma_spelling_injective(s, s2);
        },
        _ => {},
    }
}

/// Law: the symbols of hana. In the tokens read from any text, a token
/// whose text is one of `( ) [ ] { } , . :: : ? = == != < <= > >= + - * /
/// += -= *= /= |` is that symbol.
pub proof fn law_symbol_tokens(src: Seq<char>, toks: Seq<Token>, i: int)
    requires
        tokens_of(src, toks),
        0 <= i < toks.len(),
    ensures
        ({
            let t = src.subrange(toks[i].cstart as int, toks[i].cend as int);
            let k = toks[i].kind;
            &&& t == seq!['('] ==> k == TokKind::Sym(Sym::LParen)
            &&& t == seq![')'] ==> k == TokKind::Sym(Sym::RParen)
            &&& t == seq!['['] ==> k == TokKind::Sym(Sym::LBracket)
            &&& t == seq![']'] ==> k == TokKind::Sym(Sym::RBracket)
            &&& t == seq!['{'] ==> k == TokKind::Sym(Sym::LBrace)
            &&& t == seq!['}'] ==> k == TokKind::Sym(Sym::RBrace)
            &&& t == seq![','] ==> k == TokKind::Sym(Sym::Comma)
            &&& t == seq!['.'] ==> k == TokKind::Sym(Sym::Dot)
            &&& t == seq![':', ':'] ==> k == TokKind::Sym(Sym::ColonColon)
            &&& t == seq![':'] ==> k == TokKind::Sym(Sym::Colon)
            &&& t == seq!['?'] ==> k == TokKind::Sym(Sym::Question)
            &&& t == seq!['='] ==> k == TokKind::Sym(Sym::Assign)
            &&& t == seq!['=', '='] ==> k == TokKind::Sym(Sym::Eq)
            &&& t == seq!['!', '='] ==> k == TokKind::Sym(Sym::Neq)
            &&& t == seq!['<'] ==> k == TokKind::Sym(Sym::Lt)
            &&& t == seq!['<', '='] ==> k == TokKind::Sym(Sym::Leq)
            &&& t == seq!['>'] ==> k == TokKind::Sym(Sym::Gt)
            &&& t == seq!['>', '='] ==> k == TokKind::Sym(Sym::Geq)
            &&& t == seq!['+'] ==> k == TokKind::Sym(Sym::Plus)
            &&& t == seq!['-'] ==> k == TokKind::Sym(Sym::Minus)
            &&& t == seq!['*'] ==> k == TokKind::Sym(Sym::Star)
            &&& t == seq!['/'] ==> k == TokKind::Sym(Sym::Slash)
            &&& t == seq!['+', '='] ==> k == TokKind::Sym(Sym::AddAssign)
            &&& t == seq!['-', '='] ==> k == TokKind::Sym(Sym::SubAssign)
            &&& t == seq!['*', '='] ==> k == TokKind::Sym(Sym::MulAssign)
            &&& t == seq!['/', '='] ==> k == TokKind::Sym(Sym::DivAssign)
            &&& t == seq!['|'] ==> k == TokKind::Sym(Sym::Pipe)
        }),
{
    assert(token_matches(src, toks[i]));
    if src.subrange(toks[i].cstart as int, toks[i].cend as int) == spelling(Sym::LParen) {
        lemma_symbol_token(src, toks[i], Sym::LParen);
    }
    if src.subrange(toks[i].cstart as int, toks[i].cend as int) == spelling(Sym::RParen) {
        lemma_symbol_token(src, toks[i], Sym::RParen);
    }
    if src.subrange(toks[i].cstart as int, toks[i].cend as int) == spelling(Sym::LBracket) {
        lemma_symbol_token(src, toks[i], Sym::LBracket);
    }
    if src.subrange(toks[i].cstart as int, toks[i].cend as int) == spelling(Sym::RBracket) {
        lemma_symbol_token(src, toks[i], Sym::RBracket);
    }
    if src.subrange(toks[i].cstart as int, toks[i].cend as int) == spelling(Sym::LBrace) {
        lemma_symbol_token(src, toks[i], Sym::LBrace);
    }
    if src.subrange(toks[i].cstart as int, toks[i].cend as int) == spelling(Sym::RBrace) {
        lemma_symbol_token(src, toks[i], Sym::RBrace);
    }
    if src.subrange(toks[i].cstart as int, toks[i].cend as int) == spelling(Sym::Comma) {
        lemma_symbol_token(src, toks[i], Sym::Comma);
    }
    if src.subrange(toks[i].cstart as int, toks[i].cend as int) == spelling(Sym::Dot) {
        lemma_symbol_token(src, toks[i], Sym::Dot);
    }
    if src.subrange(toks[i].cstart as int, toks[i].cend as int) == spelling(Sym::ColonColon) {
        lemma_symbol_token(src, toks[i], Sym::ColonColon);
    }
    if src.subrange(toks[i].cstart as int, toks[i].cend as int) == spelling(Sym::Colon) {
        lemma_symbol_token(src, toks[i], Sym::Colon);
    }
    if src.subrange(toks[i].cstart as int, toks[i].cend as int) == spelling(Sym::Question) {
        lemma_symbol_token(src, toks[i], Sym::Question);
    }
    if src.subrange(toks[i].cstart as int, toks[i].cend as int) == spelling(Sym::Assign) {
        lemma_symbol_token(src, toks[i], Sym::Assign);
    }
    if src.subrange(toks[i].cstart as int, toks[i].cend as int) == spelling(Sym::Eq) {
        lemma_symbol_token(src, toks[i], Sym::Eq);
    }
    if src.subrange(toks[i].cstart as int, toks[i].cend as int) == spelling(Sym::Neq) {
        lemma_symbol_token(src, toks[i], Sym::Neq);
    }
    if src.subrange(toks[i].cstart as int, toks[i].cend as int) == spelling(Sym::Lt) {
        lemma_symbol_token(src, toks[i], Sym::Lt);
    }
    if src.subrange(toks[i].cstart as int, toks[i].cend as int) == spelling(Sym::Leq) {
        lemma_symbol_token(src, toks[i], Sym::Leq);
    }
    if src.subrange(toks[i].cstart as int, toks[i].cend as int) == spelling(Sym::Gt) {
        lemma_symbol_token(src, toks[i], Sym::Gt);
    }
    if src.subrange(toks[i].cstart as int, toks[i].cend as int) == spelling(Sym::Geq) {
        lemma_symbol_token(src, toks[i], Sym::Geq);
    }
    if src.subrange(toks[i].cstart as int, toks[i].cend as int) == spelling(Sym::Plus) {
        lemma_symbol_token(src, toks[i], Sym::Plus);
    }
    if src.subrange(toks[i].cstart as int, toks[i].cend as int) == spelling(Sym::Minus) {
        lemma_symbol_token(src, toks[i], Sym::Minus);
    }
    if src.subrange(toks[i].cstart as int, toks[i].cend as int) == spelling(Sym::Star) {
        lemma_symbol_token(src, toks[i], Sym::Star);
    }
    if src.subrange(toks[i].cstart as int, toks[i].cend as int) == spelling(Sym::Slash) {
        lemma_symbol_token(src, toks[i], Sym::Slash);
    }
    if src.subrange(toks[i].cstart as int, toks[i].cend as int) == spelling(Sym::AddAssign) {
        lemma_symbol_token(src, toks[i], Sym::AddAssign);
    }
    if src.subrange(toks[i].cstart as int, toks[i].cend as int) == spelling(Sym::SubAssign) {
        lemma_symbol_token(src, toks[i], Sym::SubAssign);
    }
    if src.subrange(toks[i].cstart as int, toks[i].cend as int) == spelling(Sym::MulAssign) {
        lemma_symbol_token(src, toks[i], Sym::MulAssign);
    }
    if src.subrange(toks[i].cstart as int, toks[i].cend as int) == spelling(Sym::DivAssign) {
        lemma_symbol_token(src, toks[i], Sym::DivAssign);
    }
    if src.subrange(toks[i].cstart as int, toks[i].cend as int) == spelling(Sym::Pipe) {
        lemma_symbol_token(src, toks[i], Sym::Pipe);
    }
}

/// The value of a hexadecimal digit: `0`-`9`, `a`-`f`, `A`-`F`.
pub open spec fn hex_value(c: char) -> int {
    if '0' <= c <= '9' {
        c as int - 48
    } else if 'a' <= c <= 'f' {
        c as int - 87
    } else {
        c as int - 55
    }
}

/// Law: the value of an integer literal. A decimal literal of one digit
/// `d` is worth `d`; of two digits `d1 d2`, `10 * d1 + d2`; and in
/// general ten times the value of its digits but the last, plus the last.
/// A hexadecimal literal `0x...` is worth sixteen times the value of its
/// digits but the last, plus the last (`a`-`f` and `A`-`F` worth 10 to 15).
pub proof fn law_int_value(src: Seq<char>, toks: Seq<Token>, i: int)
    requires
        tokens_of(src, toks),
        0 <= i < toks.len(),
        toks[i].kind == TokKind::Int,
    ensures
        ({
            let t = src.subrange(toks[i].cstart as int, toks[i].cend as int);
            let v = toks[i].int_val as int;
            if t.len() > 2 && t[0] == '0' && t[1] == 'x' {
                let h = t.subrange(2, t.len() as int);
                v == 16 * digits_value(h.drop_last(), 16) + hex_value(h.last())
            } else {
                &&& t.len() == 1 ==> v == t[0] as int - 48
                &&& t.len() == 2 ==> v == 10 * (t[0] as int - 48) + (t[1] as int - 48)
                &&& v == 10 * digits_value(t.drop_last(), 10) + (t.last() as int - 48)
            }
        }),
{
    let t = src.subrange(toks[i].cstart as int, toks[i].cend as int);
    assert(token_matches(src, toks[i]));
    assert('0' as int == 48 && 'a' as int == 97 && 'A' as int == 65);
    if t.len() > 2 && t[0] == '0' && t[1] == 'x' {
        let h = t.subrange(2, t.len() as int);
        assert(is_hex_digit(h[h.len() - 1]));
        assert(toks[i].int_val == digits_value(h, 16));
        assert(h.last() == h[h.len() - 1]);
        assert(digit_value(h.last()) == hex_value(h.last()));
        assert(digits_value(h, 16) == digits_value(h.drop_last(), 16) * 16 + digit_value(h.last()));
    } else {
        assert(toks[i].int_val == digits_value(t, 10));
        assert(is_digit(t[t.len() - 1]));
        assert(t.last() == t[t.len() - 1]);
        assert(digits_value(t, 10) == digits_value(t.drop_last(), 10) * 10 + digit_value(t.last()));
        if t.len() == 2 {
            assert(is_digit(t[0]));
            let t1 = t.drop_last();
            assert(t1.last() == t[0]);
            assert(t1.drop_last() =~= Seq::<char>::empty());
            assert(digits_value(t1, 10) == digits_value(t1.drop_last(), 10) * 10 + digit_value(t1.last()));
        }
        if t.len() == 1 {
            assert(t.drop_last() =~= Seq::<char>::empty());
        }
    }
}

} // verus!
