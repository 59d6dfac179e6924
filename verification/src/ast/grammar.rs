//! The parser: from hana source text to the statements of the program.
//!
//! Statements are separated by newlines. Expressions, loosest first:
//! assignment (`=`, `+=`, `-=`, `*=`, `/=`, right to left), conditional
//! (`?:`), `or`, `and`, equality (`==`, `!=`), comparison (`<`, `<=`, `>`,
//! `>=`, `of`), `+` and `-`, `*`, `/` and `mod`, unary `not` and `-`, then
//! calls, member accesses (`a.b`, `a[b]`, `a::b`) and primary expressions.

use vstd::prelude::*;

use crate::ast::ast::{
    AST, ArrayExpr, BinExpr, BinOp, BlockStatement, BreakStatement, CallExpr, CaseStatement,
    CondExpr, ContinueStatement, ExprStatement, FloatLiteral, ForInStatement, ForStatement,
    FunctionDefinition, FunctionStatement, Identifier, IfStatement, IntLiteral, MemExpr,
    RaiseStatement, RecordDefinition, RecordStatement, ReturnStatement, Span, StrLiteral,
    TryStatement, UnaryExpr, UnaryOp, UseStatement, WhileStatement,
};
use crate::ast::ast;
use crate::ast::lexer::{Kw, ParseError, Sym, TokKind, Token};
use crate::ast::lexer;

verus! {

/// A node read from the tokens, with the index of the first token after it.
pub type Parsed = Result<(AST, usize), ParseError>;

/// The span of the tokens `toks[p..q]`.
pub open spec fn token_span(toks: Seq<Token>, p: int, q: int) -> Span {
    (toks[p].start, toks[q - 1].end)
}

/// A node read from `toks` at `p` covers at least one token, and its span
/// is that of the tokens it covers.
pub open spec fn parsed_at(toks: Seq<Token>, p: usize, r: Parsed) -> bool {
    r matches Ok((node, q)) ==> p < q <= toks.len() && node.spec_span() == token_span(
        toks,
        p as int,
        q as int,
    )
}

/// The binary operator that a token of kind `k` stands for at precedence
/// `level`: 5 `or`, 4 `and`, 3 equality, 2 comparison, 1 `+ -`, 0 `* / mod`.
pub open spec fn binop_of(k: TokKind, level: int) -> Option<BinOp> {
    if level == 5 {
        if k == TokKind::Kw(Kw::Or) { Some(BinOp::Or) } else { None }
    } else if level == 4 {
        if k == TokKind::Kw(Kw::And) { Some(BinOp::And) } else { None }
    } else if level == 3 {
        if k == TokKind::Sym(Sym::Eq) {
            Some(BinOp::Eq)
        } else if k == TokKind::Sym(Sym::Neq) {
            Some(BinOp::Neq)
        } else {
            None
        }
    } else if level == 2 {
        if k == TokKind::Sym(Sym::Lt) {
            Some(BinOp::Lt)
        } else if k == TokKind::Sym(Sym::Leq) {
            Some(BinOp::Leq)
        } else if k == TokKind::Sym(Sym::Gt) {
            Some(BinOp::Gt)
        } else if k == TokKind::Sym(Sym::Geq) {
            Some(BinOp::Geq)
        } else if k == TokKind::Kw(Kw::Of) {
            Some(BinOp::Of)
        } else {
            None
        }
    } else if level == 1 {
        if k == TokKind::Sym(Sym::Plus) {
            Some(BinOp::Add)
        } else if k == TokKind::Sym(Sym::Minus) {
            Some(BinOp::Sub)
        } else {
            None
        }
    } else if level == 0 {
        if k == TokKind::Sym(Sym::Star) {
            Some(BinOp::Mul)
        } else if k == TokKind::Sym(Sym::Slash) {
            Some(BinOp::Div)
        } else if k == TokKind::Kw(Kw::Mod) {
            Some(BinOp::Mod)
        } else {
            None
        }
    } else {
        None
    }
}

/// The assignment operator that a token of kind `k` stands for.
pub open spec fn assign_op_of(k: TokKind) -> Option<BinOp> {
    if k == TokKind::Sym(Sym::Assign) {
        Some(BinOp::Assign)
    } else if k == TokKind::Sym(Sym::AddAssign) {
        Some(BinOp::Adds)
    } else if k == TokKind::Sym(Sym::SubAssign) {
        Some(BinOp::Subs)
    } else if k == TokKind::Sym(Sym::MulAssign) {
        Some(BinOp::Muls)
    } else if k == TokKind::Sym(Sym::DivAssign) {
        Some(BinOp::Divs)
    } else {
        None
    }
}

/// The number of tokens from `p` to `q`.
pub open spec fn span_len(p: int, q: int) -> int {
    if q >= p {
        q - p
    } else {
        0
    }
}

/// A binary or conditional expression read from `toks[p..q]` as an operand
/// of the tightest level is one written in parentheses.
pub open spec fn operand_tree(toks: Seq<Token>, p: int, q: int, node: AST) -> bool
    decreases span_len(p, q), node, 4int,
{
    &&& 0 <= p < q <= toks.len()
    &&& unary_tree(toks, p, q, node)
}

/// `node` is read from `toks[p..q]` as `not x`, `-x`, or a postfix
/// expression.
pub open spec fn unary_tree(toks: Seq<Token>, p: int, q: int, node: AST) -> bool
    decreases span_len(p, q), node, 3int,
{
    ||| postfix_tree(toks, p, q, node)
    ||| (node matches AST::UnaryExpr(u) && p + 1 < q && (if u.op == UnaryOp::Not {
        kw_at(toks, p, Kw::Not)
    } else {
        toks[p].kind == TokKind::Sym(Sym::Minus)
    }) && unary_tree(toks, p + 1, q, *u.val))
}

/// `node` is read from `toks[p..q]` as a primary expression followed by
/// calls `(..)` and member accesses `.name`, `::name` and `[..]`.
pub open spec fn postfix_tree(toks: Seq<Token>, p: int, q: int, node: AST) -> bool
    decreases span_len(p, q), node, 2int,
{
    ||| primary_tree(toks, p, q, node)
    ||| (node matches AST::CallExpr(c) && exists|m: int|
        #![trigger toks[m]]
        p < m < q && toks[m].kind == TokKind::Sym(Sym::LParen) && toks[q - 1].kind == TokKind::Sym(Sym::RParen)
            && list_read(toks, m + 1, q - 1, c.args@) && postfix_tree(toks, p, m, *c.callee))
    ||| (node matches AST::MemExpr(e) && exists|m: int|
        #![trigger toks[m]]
        p < m < q && member_tail(toks, m, q, e) && (e.is_expr ==> expr_tree(toks, m + 1, q - 1, *e.right))
            && postfix_tree(toks, p, m, *e.left))
}

/// The access `e` is read from `toks[m..q]`: `.name`, `::name` or `[key]`
/// (what the key is read from is stated in `postfix_tree`).
pub open spec fn member_tail(toks: Seq<Token>, m: int, q: int, e: MemExpr) -> bool {
    ||| (!e.is_expr && q == m + 2 && (if e.is_namespace {
        toks[m].kind == TokKind::Sym(Sym::ColonColon)
    } else {
        toks[m].kind == TokKind::Sym(Sym::Dot)
    }) && (*e.right matches AST::Identifier(id) && name_at(toks, m + 1, id.val@)))
    ||| (e.is_expr && !e.is_namespace && m + 2 < q && toks[m].kind == TokKind::Sym(Sym::LBracket)
        && toks[q - 1].kind == TokKind::Sym(Sym::RBracket))
}

/// `node` is read from `toks[p..q]` as a name, a literal, an expression in
/// parentheses, an array, or a function or record written as an expression.
pub open spec fn primary_tree(toks: Seq<Token>, p: int, q: int, node: AST) -> bool
    decreases span_len(p, q), node, 1int,
{
    ||| ((node is Identifier || node is IntLiteral || node is FloatLiteral || node is StrLiteral)
        && leaf_of_token(toks, p, q, node))
    ||| (p + 2 < q && in_parens(toks, p, q) && expr_tree(toks, p + 1, q - 1, node))
    ||| (node matches AST::ArrayExpr(a) && p + 2 <= q && toks[p].kind == TokKind::Sym(Sym::LBracket)
        && toks[q - 1].kind == TokKind::Sym(Sym::RBracket) && list_read(toks, p + 1, q - 1, a.exprs@))
    ||| (node matches AST::FunctionDefinition(f) && f.id is None && exists|m: int|
        #![trigger in_tokens(toks, m)]
        in_tokens(toks, m) && fn_literal_read(toks, p, m, q, f))
    ||| (node matches AST::RecordDefinition(r) && r.id is None && p + 2 <= q && kw_at(toks, p, Kw::Record)
        && kw_at(toks, q - 1, Kw::End) && stmts_tree(toks, p + 1, q - 1, r.stmts@))
}

/// The tokens `toks[p..q]` are in parentheses.
pub open spec fn in_parens(toks: Seq<Token>, p: int, q: int) -> bool {
    toks[p].kind == TokKind::Sym(Sym::LParen) && toks[q - 1].kind == TokKind::Sym(Sym::RParen)
}

/// A name or a literal is the one token it is read from, with its text or
/// value; other nodes are not constrained here.
pub open spec fn leaf_of_token(toks: Seq<Token>, p: int, q: int, node: AST) -> bool {
    match node {
        AST::Identifier(id) => q == p + 1 && toks[p].kind == TokKind::Ident && id.val@ == toks[p].text@,
        AST::IntLiteral(n) => q == p + 1 && toks[p].kind == TokKind::Int && n.val == toks[p].int_val,
        AST::FloatLiteral(f) => q == p + 1 && toks[p].kind == TokKind::Float && f.bits
            == toks[p].float_bits,
        AST::StrLiteral(st) => q == p + 1 && toks[p].kind == TokKind::Str && Some(st.val@) == ast::unescape(
            toks[p].text@,
        ),
        _ => true,
    }
}

/// `node` is read from `toks[p..q]` at precedence `level` (0 to 5): operands
/// of the tighter levels joined, left to right, by the operators of `level`.
pub open spec fn binary_tree(toks: Seq<Token>, p: int, q: int, node: AST, level: int) -> bool
    decreases span_len(p, q), node, if level < 0 { 5int } else { level + 6 },
{
    if level < 0 {
        operand_tree(toks, p, q, node)
    } else {
        ||| binary_tree(toks, p, q, node, level - 1)
        ||| (node matches AST::BinExpr(e) && exists|m: int|
            #![trigger toks[m]]
            p < m < q && binop_of(toks[m].kind, level) == Some(e.op) && binary_tree(
                toks,
                p,
                m,
                *e.left,
                level,
            ) && binary_tree(toks, m + 1, q, *e.right, level - 1))
    }
}

/// `node` is a conditional expression `cond ? then : alt` read from
/// `toks[p..q]`, or an `or` expression.
pub open spec fn cond_tree(toks: Seq<Token>, p: int, q: int, node: AST) -> bool
    decreases span_len(p, q), node, 12int,
{
    ||| binary_tree(toks, p, q, node, 5)
    ||| (node matches AST::CondExpr(e) && exists|m1: int, m2: int|
        #![trigger toks[m1], toks[m2]]
        p < m1 < m2 < q && toks[m1].kind == TokKind::Sym(Sym::Question) && toks[m2].kind
            == TokKind::Sym(Sym::Colon) && binary_tree(toks, p, m1, *e.cond, 5) && cond_tree(
            toks,
            m1 + 1,
            m2,
            *e.then_,
        ) && cond_tree(toks, m2 + 1, q, *e.alt))
}

/// `node` is an expression read from `toks[p..q]`: assignments, right to
/// left, over conditional expressions.
pub open spec fn expr_tree(toks: Seq<Token>, p: int, q: int, node: AST) -> bool
    decreases span_len(p, q), node, 13int,
{
    ||| cond_tree(toks, p, q, node)
    ||| (node matches AST::BinExpr(e) && exists|m: int|
        #![trigger toks[m]]
        p < m < q && assign_op_of(toks[m].kind) == Some(e.op) && cond_tree(toks, p, m, *e.left)
            && expr_tree(toks, m + 1, q, *e.right))
}

/// No operator of precedence `level` or tighter stands at `q`.
pub open spec fn ends_binary(toks: Seq<Token>, q: int, level: int) -> bool {
    q < toks.len() ==> forall|l: int| 0 <= l <= level ==> #[trigger] binop_of(toks[q].kind, l) is None
}

/// Every token of `toks[p..q]` is a newline.
pub open spec fn newlines(toks: Seq<Token>, p: int, q: int) -> bool {
    forall|k: int| p <= k < q ==> #[trigger] toks[k].kind == TokKind::Newline
}

/// From `m1` to `m2` there is nothing, or the keyword `then`.
pub open spec fn then_gap(toks: Seq<Token>, m1: int, m2: int) -> bool {
    m2 == m1 || (m2 == m1 + 1 && toks[m1].kind == TokKind::Kw(Kw::Then))
}

/// The token at `k` is the keyword `kw`.
pub open spec fn kw_at(toks: Seq<Token>, k: int, kw: Kw) -> bool {
    0 <= k < toks.len() && toks[k].kind == TokKind::Kw(kw)
}

/// The token at `k` is a name, `name`.
pub open spec fn name_at(toks: Seq<Token>, k: int, name: Seq<char>) -> bool {
    0 <= k < toks.len() && toks[k].kind == TokKind::Ident && toks[k].text@ == name
}

/// `m` is a position in the tokens, from the first to just after the last.
pub open spec fn in_tokens(toks: Seq<Token>, m: int) -> bool {
    0 <= m <= toks.len()
}

/// The function `f` is read from `toks[p..q]`, its parameters ending at
/// `m`: `function(params) stmt`, or `|params| { stmts }`.
pub open spec fn fn_literal_read(toks: Seq<Token>, p: int, m: int, q: int, f: FunctionDefinition) -> bool
    decreases span_len(p, q), f, 0int,
{
    let names = f.args@.map_values(|a: String| a@);
    ||| (kw_at(toks, p, Kw::Function) && toks[p + 1].kind == TokKind::Sym(Sym::LParen) && params_read(
        toks,
        p + 2,
        m,
        names,
        Sym::RParen,
    ) && m < q && stmt_tree(toks, m, q, *f.stmt))
    ||| (toks[p].kind == TokKind::Sym(Sym::Pipe) && params_read(toks, p + 1, m, names, Sym::Pipe) && m + 2
        <= q && toks[m].kind == TokKind::Sym(Sym::LBrace) && toks[q - 1].kind == TokKind::Sym(Sym::RBrace)
        && (*f.stmt matches AST::BlockStatement(b) && stmts_tree(toks, m + 1, q - 1, b.stmts@)))
}

/// The parameter names `names` are read from `toks[p..q]`: the names,
/// separated by commas, then the closing `close`.
pub open spec fn params_read(toks: Seq<Token>, p: int, q: int, names: Seq<Seq<char>>, close: Sym) -> bool {
    &&& 0 <= p < q <= toks.len()
    &&& toks[q - 1].kind == TokKind::Sym(close)
    &&& q == p + if names.len() == 0 {
        1
    } else {
        2 * names.len()
    }
    &&& forall|i: int| 0 <= i < names.len() ==> #[trigger] name_at(toks, p + 2 * i, names[i])
    &&& forall|i: int| 0 <= i < names.len() - 1 ==> #[trigger] toks[p + 2 * i + 1].kind == TokKind::Sym(Sym::Comma)
}

/// The expressions `s` are read, in order, from `toks[p..q]`, separated by
/// commas, with newlines around them.
pub open spec fn list_read(toks: Seq<Token>, p: int, q: int, s: Seq<AST>) -> bool
    decreases span_len(p, q), s, 1int,
{
    if s.len() == 0 {
        p <= q && newlines(toks, p, q)
    } else {
        exists|m1: int, m2: int|
            #![trigger in_tokens(toks, m1), in_tokens(toks, m2)]
            in_tokens(toks, m1) && in_tokens(toks, m2) && p <= m1 < m2 <= q && list_before(
                toks,
                p,
                m1,
                s.drop_last(),
            ) && expr_tree(toks, m1, m2, s.last()) && newlines(toks, m2, q)
    }
}

/// The expressions `s` and a comma after them (if there are any) are read
/// from `toks[p..q]`, with newlines around them.
pub open spec fn list_before(toks: Seq<Token>, p: int, q: int, s: Seq<AST>) -> bool
    decreases span_len(p, q), s, 2int,
{
    if s.len() == 0 {
        p <= q && newlines(toks, p, q)
    } else {
        exists|k: int|
            #![trigger in_tokens(toks, k)]
            in_tokens(toks, k) && p <= k < q && list_read(toks, p, k, s) && toks[k].kind == TokKind::Sym(Sym::Comma)
                && newlines(toks, k + 1, q)
    }
}

/// The handlers `cases` of a `try` are read, in order, from `toks[m..q]`.
pub open spec fn cases_read(toks: Seq<Token>, m: int, q: int, cases: Seq<CaseStatement>) -> bool
    decreases span_len(m, q), cases, 0int,
{
    if cases.len() == 0 {
        m == q
    } else {
        exists|c0: int|
            #![trigger in_tokens(toks, c0)]
            in_tokens(toks, c0) && m <= c0 < q && cases_read(toks, m, c0, cases.drop_last()) && case_read(
                toks,
                c0,
                q,
                cases.last(),
            )
    }
}

/// The handler `c` is read from `toks[p..q]`: `case etype [as id]`, then
/// its statements.
pub open spec fn case_read(toks: Seq<Token>, p: int, q: int, c: CaseStatement) -> bool
    decreases span_len(p, q), c, 0int,
{
    kw_at(toks, p, Kw::Case) && exists|q1: int, q2: int|
        #![trigger in_tokens(toks, q1), in_tokens(toks, q2)]
        in_tokens(toks, q1) && in_tokens(toks, q2) && p + 1 < q1 <= q2 <= q && expr_tree(
            toks,
            p + 1,
            q1,
            *c.etype,
        ) && match c.id {
            None => q2 == q1,
            Some(id) => q2 == q1 + 2 && kw_at(toks, q1, Kw::As) && (*id matches AST::Identifier(i) && name_at(
                toks,
                q1 + 1,
                i.val@,
            )),
        } && stmts_tree(toks, q2, q, c.stmts@)
}

/// The statements `s` are read, in order, from `toks[p..q]`, with newlines
/// before, between and after them.
pub open spec fn stmts_tree(toks: Seq<Token>, p: int, q: int, s: Seq<AST>) -> bool
    decreases span_len(p, q), s, 0int,
{
    if s.len() == 0 {
        p <= q && newlines(toks, p, q)
    } else {
        exists|m1: int, m2: int|
            #![trigger in_tokens(toks, m1), in_tokens(toks, m2)]
            in_tokens(toks, m1) && in_tokens(toks, m2) && p <= m1 < m2 <= q && stmts_tree(toks, p, m1, s.drop_last()) && stmt_tree(toks, m1, m2, s.last())
                && newlines(toks, m2, q)
    }
}

/// The statement `node` is read from `toks[p..q]`.
pub open spec fn stmt_tree(toks: Seq<Token>, p: int, q: int, node: AST) -> bool
    decreases span_len(p, q), node, 0int,
{
    match node {
        AST::ExprStatement(e) => expr_tree(toks, p, q, *e.expr),
        AST::ReturnStatement(e) => kw_at(toks, p, Kw::Return) && match e.expr {
            None => q == p + 1,
            Some(x) => expr_tree(toks, p + 1, q, *x),
        },
        AST::RaiseStatement(e) => kw_at(toks, p, Kw::Raise) && expr_tree(toks, p + 1, q, *e.expr),
        AST::ContinueStatement(_) => q == p + 1 && kw_at(toks, p, Kw::Continue),
        AST::BreakStatement(_) => q == p + 1 && kw_at(toks, p, Kw::Break),
        AST::UseStatement(e) => q == p + 2 && kw_at(toks, p, Kw::Use) && toks[p + 1].kind == TokKind::Str
            && Some(e.path@) == ast::unescape(toks[p + 1].text@),
        AST::BlockStatement(e) => p + 2 <= q && kw_at(toks, p, Kw::Begin) && kw_at(toks, q - 1, Kw::End)
            && stmts_tree(toks, p + 1, q - 1, e.stmts@),
        AST::IfStatement(e) => kw_at(toks, p, Kw::If) && exists|m1: int, m2: int, m3: int|
            #![trigger in_tokens(toks, m1), in_tokens(toks, m2), in_tokens(toks, m3)]
            p + 1 < m1 <= m2 < m3 <= q && expr_tree(toks, p + 1, m1, *e.expr) && then_gap(toks, m1, m2)
                && stmt_tree(toks, m2, m3, *e.then_) && match e.alt {
                None => q == m3,
                Some(a) => exists|m4: int|
                    #![trigger in_tokens(toks, m4)]
                    in_tokens(toks, m4) && m3 <= m4 < q && newlines(toks, m3, m4) && kw_at(toks, m4, Kw::Else) && stmt_tree(
                        toks,
                        m4 + 1,
                        q,
                        *a,
                    ),
            },
        AST::WhileStatement(e) => kw_at(toks, p, Kw::While) && exists|m1: int, m2: int|
            #![trigger in_tokens(toks, m1), in_tokens(toks, m2)]
            p + 1 < m1 <= m2 < q && expr_tree(toks, p + 1, m1, *e.expr) && then_gap(toks, m1, m2)
                && stmt_tree(toks, m2, q, *e.then_),
        AST::ForInStatement(e) => kw_at(toks, p, Kw::For) && name_at(toks, p + 1, e.id@) && kw_at(
            toks,
            p + 2,
            Kw::In,
        ) && exists|m1: int, m2: int|
            #![trigger in_tokens(toks, m1), in_tokens(toks, m2)]
            p + 3 < m1 <= m2 < q && expr_tree(toks, p + 3, m1, *e.expr) && then_gap(toks, m1, m2)
                && stmt_tree(toks, m2, q, *e.stmt),
        AST::ForStatement(e) => kw_at(toks, p, Kw::For) && name_at(toks, p + 1, e.id@)
            && toks[p + 2].kind == TokKind::Sym(Sym::Assign) && exists|m1: int, m2: int, m3: int, m4: int|
            #![trigger in_tokens(toks, m1), in_tokens(toks, m2), in_tokens(toks, m3), in_tokens(toks, m4)]
            p + 3 < m1 < m2 <= m3 <= m4 < q && expr_tree(toks, p + 3, m1, *e.from) && kw_at(
                toks,
                m1,
                if e.is_up {
                    Kw::To
                } else {
                    Kw::Downto
                },
            ) && expr_tree(toks, m1 + 1, m2, *e.to) && (if m3 == m2 {
                *e.step matches AST::IntLiteral(n) && n.val == 1
            } else {
                kw_at(toks, m2, Kw::Step) && expr_tree(toks, m2 + 1, m3, *e.step)
            }) && then_gap(toks, m3, m4) && stmt_tree(toks, m4, q, *e.stmt),
        AST::FunctionStatement(e) => kw_at(toks, p, Kw::Function) && e.def.id is Some && name_at(
            toks,
            p + 1,
            e.def.id->0@,
        ) && toks[p + 2].kind == TokKind::Sym(Sym::LParen) && exists|m: int|
            #![trigger in_tokens(toks, m)]
            in_tokens(toks, m) && p + 2 < m < q && params_read(
                toks,
                p + 3,
                m,
                e.def.args@.map_values(|a: String| a@),
                Sym::RParen,
            ) && stmt_tree(toks, m, q, *e.def.stmt),
        AST::RecordStatement(e) => p + 3 <= q && kw_at(toks, p, Kw::Record) && e.def.id is Some && name_at(
            toks,
            p + 1,
            e.def.id->0@,
        ) && kw_at(toks, q - 1, Kw::End) && stmts_tree(toks, p + 2, q - 1, e.def.stmts@),
        AST::TryStatement(e) => kw_at(toks, p, Kw::Try) && kw_at(toks, q - 1, Kw::End) && exists|m: int|
            #![trigger in_tokens(toks, m)]
            in_tokens(toks, m) && p + 1 <= m < q && stmts_tree(toks, p + 1, m, e.stmts@) && cases_read(
                toks,
                m,
                q - 1,
                e.cases@,
            ),
        _ => false,
    }
}

/// Law: the binary operators of hana, with their precedence (from 5, the
/// loosest, to 0, the tightest) and what they stand for: `or` 5; `and` 4;
/// `==`, `!=` 3; `<`, `<=`, `>`, `>=`, `of` 2; `+`, `-` 1; `*`, `/`, `mod`
/// 0. No other token is a binary operator at any precedence.
pub proof fn law_binop_table(k: TokKind, level: int)
    ensures
        binop_of(k, level) matches Some(op) ==> ((k == TokKind::Kw(Kw::Or) && level == 5 && op == BinOp::Or)
            || (k == TokKind::Kw(Kw::And) && level == 4 && op == BinOp::And)
            || (k == TokKind::Sym(Sym::Eq) && level == 3 && op == BinOp::Eq)
            || (k == TokKind::Sym(Sym::Neq) && level == 3 && op == BinOp::Neq)
            || (k == TokKind::Sym(Sym::Lt) && level == 2 && op == BinOp::Lt)
            || (k == TokKind::Sym(Sym::Leq) && level == 2 && op == BinOp::Leq)
            || (k == TokKind::Sym(Sym::Gt) && level == 2 && op == BinOp::Gt)
            || (k == TokKind::Sym(Sym::Geq) && level == 2 && op == BinOp::Geq)
            || (k == TokKind::Kw(Kw::Of) && level == 2 && op == BinOp::Of)
            || (k == TokKind::Sym(Sym::Plus) && level == 1 && op == BinOp::Add)
            || (k == TokKind::Sym(Sym::Minus) && level == 1 && op == BinOp::Sub)
            || (k == TokKind::Sym(Sym::Star) && level == 0 && op == BinOp::Mul)
            || (k == TokKind::Sym(Sym::Slash) && level == 0 && op == BinOp::Div)
            || (k == TokKind::Kw(Kw::Mod) && level == 0 && op == BinOp::Mod)),
        k == TokKind::Kw(Kw::Or) && level == 5 ==> binop_of(k, level) == Some(BinOp::Or),
        k == TokKind::Kw(Kw::And) && level == 4 ==> binop_of(k, level) == Some(BinOp::And),
        k == TokKind::Sym(Sym::Eq) && level == 3 ==> binop_of(k, level) == Some(BinOp::Eq),
        k == TokKind::Sym(Sym::Neq) && level == 3 ==> binop_of(k, level) == Some(BinOp::Neq),
        k == TokKind::Sym(Sym::Lt) && level == 2 ==> binop_of(k, level) == Some(BinOp::Lt),
        k == TokKind::Sym(Sym::Leq) && level == 2 ==> binop_of(k, level) == Some(BinOp::Leq),
        k == TokKind::Sym(Sym::Gt) && level == 2 ==> binop_of(k, level) == Some(BinOp::Gt),
        k == TokKind::Sym(Sym::Geq) && level == 2 ==> binop_of(k, level) == Some(BinOp::Geq),
        k == TokKind::Kw(Kw::Of) && level == 2 ==> binop_of(k, level) == Some(BinOp::Of),
        k == TokKind::Sym(Sym::Plus) && level == 1 ==> binop_of(k, level) == Some(BinOp::Add),
        k == TokKind::Sym(Sym::Minus) && level == 1 ==> binop_of(k, level) == Some(BinOp::Sub),
        k == TokKind::Sym(Sym::Star) && level == 0 ==> binop_of(k, level) == Some(BinOp::Mul),
        k == TokKind::Sym(Sym::Slash) && level == 0 ==> binop_of(k, level) == Some(BinOp::Div),
        k == TokKind::Kw(Kw::Mod) && level == 0 ==> binop_of(k, level) == Some(BinOp::Mod),
{
}

/// Law: the assignment operators of hana: `=`, `+=`, `-=`, `*=`, `/=`;
/// no other token is one.
pub proof fn law_assign_table(k: TokKind)
    ensures
        assign_op_of(k) matches Some(op) ==> ((k == TokKind::Sym(Sym::Assign) && op == BinOp::Assign)
            || (k == TokKind::Sym(Sym::AddAssign) && op == BinOp::Adds)
            || (k == TokKind::Sym(Sym::SubAssign) && op == BinOp::Subs)
            || (k == TokKind::Sym(Sym::MulAssign) && op == BinOp::Muls)
            || (k == TokKind::Sym(Sym::DivAssign) && op == BinOp::Divs)),
        k == TokKind::Sym(Sym::Assign) ==> assign_op_of(k) == Some(BinOp::Assign),
        k == TokKind::Sym(Sym::AddAssign) ==> assign_op_of(k) == Some(BinOp::Adds),
        k == TokKind::Sym(Sym::SubAssign) ==> assign_op_of(k) == Some(BinOp::Subs),
        k == TokKind::Sym(Sym::MulAssign) ==> assign_op_of(k) == Some(BinOp::Muls),
        k == TokKind::Sym(Sym::DivAssign) ==> assign_op_of(k) == Some(BinOp::Divs),
{
}

/// Law: an index access `a[k]` that the grammar reads from `toks[p..q]`
/// has as its key the expression read from the tokens between its
/// brackets (not a name or a string made from them).
pub proof fn law_index_key(toks: Seq<Token>, p: int, q: int, node: AST)
    requires
        postfix_tree(toks, p, q, node),
        node matches AST::MemExpr(e) && e.is_expr,
        0 <= p < q <= toks.len(),
        toks[q - 1].kind == TokKind::Sym(Sym::RBracket),
    ensures
        exists|m: int|
            #![trigger toks[m]]
            p < m < q - 1 && toks[m].kind == TokKind::Sym(Sym::LBracket) && expr_tree(
                toks,
                m + 1,
                q - 1,
                *node->MemExpr_0.right,
            ),
{
    assert(!primary_tree(toks, p, q, node));
}

/// Lemma: one more statement read after the others.
proof fn lemma_stmts_tree_push(toks: Seq<Token>, p: int, m1: int, m2: int, q: int, s: Seq<AST>)
    requires
        s.len() > 0,
        0 <= p <= m1 < m2 <= q <= toks.len(),
        stmts_tree(toks, p, m1, s.drop_last()),
        stmt_tree(toks, m1, m2, s.last()),
        newlines(toks, m2, q),
    ensures
        stmts_tree(toks, p, q, s),
{
    assert(in_tokens(toks, m1) && in_tokens(toks, m2));
}

/// Lemma: what an expression is read from does not depend on its span.
proof fn lemma_expr_tree_respan(toks: Seq<Token>, p: int, q: int, node: AST, span: Span)
    requires
        expr_tree(toks, p, q, node),
    ensures
        expr_tree(toks, p, q, node.respan(span)),
    decreases span_len(p, q), 13int,
{
    if cond_tree(toks, p, q, node) {
        lemma_cond_tree_respan(toks, p, q, node, span);
    }
}

/// Lemma: what a conditional expression is read from does not depend on its span.
proof fn lemma_cond_tree_respan(toks: Seq<Token>, p: int, q: int, node: AST, span: Span)
    requires
        cond_tree(toks, p, q, node),
    ensures
        cond_tree(toks, p, q, node.respan(span)),
    decreases span_len(p, q), 12int,
{
    if binary_tree(toks, p, q, node, 5) {
        lemma_binary_tree_respan(toks, p, q, node, span, 5);
    }
}

/// Lemma: what an expression at a precedence level is read from does not depend on its span.
proof fn lemma_binary_tree_respan(toks: Seq<Token>, p: int, q: int, node: AST, span: Span, level: int)
    requires
        binary_tree(toks, p, q, node, level),
    ensures
        binary_tree(toks, p, q, node.respan(span), level),
    decreases span_len(p, q), if level < 0 { 5int } else { level + 6 },
{
    if level < 0 {
        assert(operand_tree(toks, p, q, node));
        lemma_unary_tree_respan(toks, p, q, node, span);
        assert(operand_tree(toks, p, q, node.respan(span)));
    } else if binary_tree(toks, p, q, node, level - 1) {
        lemma_binary_tree_respan(toks, p, q, node, span, level - 1);
    } else {
        let e = node->BinExpr_0;
        let m = choose|m: int|
            #![trigger toks[m]]
            p < m < q && binop_of(toks[m].kind, level) == Some(e.op) && binary_tree(toks, p, m, *e.left, level)
                && binary_tree(toks, m + 1, q, *e.right, level - 1);
        let g = node.respan(span)->BinExpr_0;
        assert(g.op == e.op && g.left == e.left && g.right == e.right);
        assert(binop_of(toks[m].kind, level) == Some(g.op));
    }
}

/// Lemma: what a unary expression is read from does not depend on its span.
proof fn lemma_unary_tree_respan(toks: Seq<Token>, p: int, q: int, node: AST, span: Span)
    requires
        unary_tree(toks, p, q, node),
    ensures
        unary_tree(toks, p, q, node.respan(span)),
    decreases span_len(p, q), 3int,
{
    if postfix_tree(toks, p, q, node) {
        lemma_postfix_tree_respan(toks, p, q, node, span);
    }
}

/// Lemma: what a postfix expression is read from does not depend on its span.
proof fn lemma_postfix_tree_respan(toks: Seq<Token>, p: int, q: int, node: AST, span: Span)
    requires
        postfix_tree(toks, p, q, node),
    ensures
        postfix_tree(toks, p, q, node.respan(span)),
    decreases span_len(p, q), 2int,
{
    if primary_tree(toks, p, q, node) {
        lemma_primary_tree_respan(toks, p, q, node, span);
    }
}

/// Lemma: what a primary expression is read from does not depend on its span.
proof fn lemma_primary_tree_respan(toks: Seq<Token>, p: int, q: int, node: AST, span: Span)
    requires
        primary_tree(toks, p, q, node),
    ensures
        primary_tree(toks, p, q, node.respan(span)),
    decreases span_len(p, q), 1int,
{
    if p + 2 < q && in_parens(toks, p, q) && expr_tree(toks, p + 1, q - 1, node) {
        lemma_expr_tree_respan(toks, p + 1, q - 1, node, span);
    } else if node is FunctionDefinition {
        let f = node->FunctionDefinition_0;
        let m = choose|m: int| in_tokens(toks, m) && fn_literal_read(toks, p, m, q, f);
        let g = node.respan(span)->FunctionDefinition_0;
        assert(g.args == f.args && g.stmt == f.stmt);
        assert(fn_literal_read(toks, p, m, q, g));
    }
}

/// The token at `k` is a name or a literal (a string literal whose escapes
/// are complete).
pub open spec fn leaf_tok(toks: Seq<Token>, k: int) -> bool {
    &&& 0 <= k < toks.len()
    &&& (toks[k].kind == TokKind::Int || toks[k].kind == TokKind::Float || toks[k].kind == TokKind::Ident
        || (toks[k].kind == TokKind::Str && ast::unescape(toks[k].text@) is Some))
}

/// The precedence of the binary operator at `k` (see `binop_of`), or -1 if
/// no binary operator stands there.
pub open spec fn op_level(toks: Seq<Token>, k: int) -> int {
    if !(0 <= k < toks.len()) {
        -1
    } else if binop_of(toks[k].kind, 0) is Some {
        0
    } else if binop_of(toks[k].kind, 1) is Some {
        1
    } else if binop_of(toks[k].kind, 2) is Some {
        2
    } else if binop_of(toks[k].kind, 3) is Some {
        3
    } else if binop_of(toks[k].kind, 4) is Some {
        4
    } else if binop_of(toks[k].kind, 5) is Some {
        5
    } else {
        -1
    }
}

/// A line ends at `k`: the tokens end there, or a newline stands there.
pub open spec fn line_end(toks: Seq<Token>, k: int) -> bool {
    k >= toks.len() || (0 <= k && toks[k].kind == TokKind::Newline)
}

/// The token at `k` cannot carry an expression on: the tokens end there,
/// or it is neither a binary operator nor an assignment, `?`, `(`, `[`,
/// `.` or `::`.
pub open spec fn expr_follow(toks: Seq<Token>, k: int) -> bool {
    ||| k >= toks.len()
    ||| (0 <= k && op_level(toks, k) < 0 && assign_op_of(toks[k].kind) is None && toks[k].kind != TokKind::Sym(
        Sym::Question,
    ) && toks[k].kind != TokKind::Sym(Sym::LParen) && toks[k].kind != TokKind::Sym(Sym::LBracket)
        && toks[k].kind != TokKind::Sym(Sym::Dot) && toks[k].kind != TokKind::Sym(Sym::ColonColon))
}

/// Where a plain primary expression read at `p` ends: a name or a
/// literal, a plain expression in parentheses, an array of plain
/// expressions, `function(params)` and a plain statement, `|params|` and
/// plain statements in braces, or `record`, plain lines and `end`.
pub open spec fn primary_end(toks: Seq<Token>, p: int) -> Option<int>
    decreases toks.len() - p, 0int,
{
    if leaf_tok(toks, p) {
        Some(p + 1)
    } else if 0 <= p < toks.len() && toks[p].kind == TokKind::Sym(Sym::LParen) {
        match full_end(toks, p + 1) {
            Some(k) => if p + 1 < k < toks.len() && toks[k].kind == TokKind::Sym(Sym::RParen) {
                Some(k + 1)
            } else {
                None
            },
            None => None,
        }
    } else if 0 <= p < toks.len() && toks[p].kind == TokKind::Sym(Sym::LBracket) {
        match list_end(toks, p + 1, Sym::RBracket) {
            Some(k) => if p < k <= toks.len() {
                Some(k)
            } else {
                None
            },
            None => None,
        }
    } else if kw_at(toks, p, Kw::Function) && p + 1 < toks.len() && toks[p + 1].kind == TokKind::Sym(Sym::LParen) {
        match params_end(toks, p + 2, Sym::RParen) {
            Some(m) => if p < m <= toks.len() {
                match plain_stmt_end(toks, m) {
                    Some(k) => if m < k <= toks.len() {
                        Some(k)
                    } else {
                        None
                    },
                    None => None,
                }
            } else {
                None
            },
            None => None,
        }
    } else if 0 <= p < toks.len() && toks[p].kind == TokKind::Sym(Sym::Pipe) {
        match params_end(toks, p + 1, Sym::Pipe) {
            Some(m) => if p < m < toks.len() && toks[m].kind == TokKind::Sym(Sym::LBrace) {
                match plain_brace_end(toks, m + 1) {
                    Some(k) => if m < k < toks.len() && toks[k].kind == TokKind::Sym(Sym::RBrace) {
                        Some(k + 1)
                    } else {
                        None
                    },
                    None => None,
                }
            } else {
                None
            },
            None => None,
        }
    } else if kw_at(toks, p, Kw::Record) && !(p + 1 < toks.len() && toks[p + 1].kind == TokKind::Ident) {
        match plain_lines_end(toks, p + 1) {
            Some(k) => if p < k && kw_at(toks, k, Kw::End) {
                Some(k + 1)
            } else {
                None
            },
            None => None,
        }
    } else {
        None
    }
}

/// Where the calls `(args)` and accesses `.name`, `::name`, `[key]` that go
/// on an operand at `k` end.
pub open spec fn postfix_end(toks: Seq<Token>, k: int) -> Option<int>
    decreases toks.len() - k, 0int,
{
    if 0 <= k < toks.len() && toks[k].kind == TokKind::Sym(Sym::LParen) {
        match list_end(toks, k + 1, Sym::RParen) {
            Some(k2) => if k < k2 <= toks.len() {
                postfix_end(toks, k2)
            } else {
                None
            },
            None => None,
        }
    } else if 0 <= k < toks.len() && toks[k].kind == TokKind::Sym(Sym::LBracket) {
        match full_end(toks, k + 1) {
            Some(k2) => if k + 1 < k2 < toks.len() && toks[k2].kind == TokKind::Sym(Sym::RBracket) {
                postfix_end(toks, k2 + 1)
            } else {
                None
            },
            None => None,
        }
    } else if 0 <= k && k + 1 < toks.len() && (toks[k].kind == TokKind::Sym(Sym::Dot) || toks[k].kind
        == TokKind::Sym(Sym::ColonColon)) && toks[k + 1].kind == TokKind::Ident {
        postfix_end(toks, k + 2)
    } else if 0 <= k < toks.len() && (toks[k].kind == TokKind::Sym(Sym::Dot) || toks[k].kind == TokKind::Sym(
        Sym::ColonColon,
    )) {
        None
    } else {
        Some(k)
    }
}

/// Where a plain operand read at `p` ends: `-` or `not` before a plain
/// operand, or a plain primary expression with its calls and accesses.
pub open spec fn operand_end(toks: Seq<Token>, p: int) -> Option<int>
    decreases toks.len() - p, 1int,
{
    if 0 <= p < toks.len() && (toks[p].kind == TokKind::Kw(Kw::Not) || toks[p].kind == TokKind::Sym(
        Sym::Minus,
    )) {
        operand_end(toks, p + 1)
    } else {
        match primary_end(toks, p) {
            Some(k) => if p < k <= toks.len() {
                postfix_end(toks, k)
            } else {
                None
            },
            None => None,
        }
    }
}

/// Where a plain expression of precedence `level` read at `p` ends: a
/// plain operand, then operators of `level` or tighter, each with a plain
/// operand.
pub open spec fn expr_end(toks: Seq<Token>, p: int, level: int) -> Option<int>
    decreases toks.len() - p, 2int,
{
    match operand_end(toks, p) {
        Some(k) => if p < k <= toks.len() {
            chain_end(toks, k, level)
        } else {
            None
        },
        None => None,
    }
}

/// Where the operators of precedence `level` or tighter, each with a plain
/// operand, that go on an operand ending at `k` end: at a token that cannot
/// carry an expression on, or at a looser operator.
pub open spec fn chain_end(toks: Seq<Token>, k: int, level: int) -> Option<int>
    decreases toks.len() - k, 0int,
{
    if stops_binary(toks, k) || op_level(toks, k) > level {
        Some(k)
    } else if 0 <= op_level(toks, k) && k + 1 < toks.len() {
        match operand_end(toks, k + 1) {
            Some(k2) => if k + 1 < k2 <= toks.len() {
                chain_end(toks, k2, level)
            } else {
                None
            },
            None => None,
        }
    } else {
        None
    }
}

/// The token at `k` ends the operators of every precedence: it cannot
/// carry an expression on, or it is `?` or an assignment.
pub open spec fn stops_binary(toks: Seq<Token>, k: int) -> bool {
    ||| expr_follow(toks, k)
    ||| (0 <= k < toks.len() && (toks[k].kind == TokKind::Sym(Sym::Question) || assign_op_of(toks[k].kind) is Some))
}

/// Where a plain conditional expression read at `p` ends: an `or`
/// expression, optionally followed by `? then : alt`.
pub open spec fn cond_end(toks: Seq<Token>, p: int) -> Option<int>
    decreases toks.len() - p, 3int,
{
    match expr_end(toks, p, 5) {
        Some(k) => if !(p < k <= toks.len()) {
            None
        } else if k < toks.len() && toks[k].kind == TokKind::Sym(Sym::Question) {
            match cond_end(toks, k + 1) {
                Some(k2) => if k < k2 < toks.len() && toks[k2].kind == TokKind::Sym(Sym::Colon) {
                    cond_end(toks, k2 + 1)
                } else {
                    None
                },
                None => None,
            }
        } else {
            Some(k)
        },
        None => None,
    }
}

/// Where a plain expression read at `p` ends: conditional expressions
/// joined, right to left, by assignments.
pub open spec fn full_end(toks: Seq<Token>, p: int) -> Option<int>
    decreases toks.len() - p, 4int,
{
    match cond_end(toks, p) {
        Some(k) => if !(p < k <= toks.len()) {
            None
        } else if k < toks.len() && assign_op_of(toks[k].kind) is Some {
            full_end(toks, k + 1)
        } else {
            Some(k)
        },
        None => None,
    }
}

/// Where a plain list read at `p`, just after its opening bracket, ends
/// (just after `close`): plain expressions separated by commas, with
/// newlines around them.
pub open spec fn list_end(toks: Seq<Token>, p: int, close: Sym) -> Option<int>
    decreases toks.len() - p, 6int,
{
    let q = skip_nl(toks, p);
    if !(0 <= p <= q <= toks.len()) {
        None
    } else if q < toks.len() && toks[q].kind == TokKind::Sym(close) {
        Some(q + 1)
    } else {
        list_items_end(toks, q, close)
    }
}

/// Where a plain list from `q`, at an expression, ends (just after `close`).
pub open spec fn list_items_end(toks: Seq<Token>, q: int, close: Sym) -> Option<int>
    decreases toks.len() - q, 5int,
{
    match full_end(toks, q) {
        Some(k) => {
            let k2 = skip_nl(toks, k);
            if !(q < k <= k2 < toks.len()) {
                None
            } else if toks[k2].kind == TokKind::Sym(close) {
                Some(k2 + 1)
            } else if toks[k2].kind == TokKind::Sym(Sym::Comma) {
                let k3 = skip_nl(toks, k2 + 1);
                if k2 < k3 <= toks.len() {
                    list_items_end(toks, k3, close)
                } else {
                    None
                }
            } else {
                None
            }
        },
        None => None,
    }
}

/// Where parameter names from `p`, separated by commas and closed by
/// `close`, end (just after `close`).
pub open spec fn params_end(toks: Seq<Token>, p: int, close: Sym) -> Option<int> {
    if 0 <= p < toks.len() && toks[p].kind == TokKind::Sym(close) {
        Some(p + 1)
    } else {
        names_end(toks, p, close)
    }
}

/// Where names from `q`, separated by commas and closed by `close`, end.
pub open spec fn names_end(toks: Seq<Token>, q: int, close: Sym) -> Option<int>
    decreases toks.len() - q,
{
    if !(0 <= q && q + 1 < toks.len() && toks[q].kind == TokKind::Ident) {
        None
    } else if toks[q + 1].kind == TokKind::Sym(close) {
        Some(q + 2)
    } else if toks[q + 1].kind == TokKind::Sym(Sym::Comma) {
        names_end(toks, q + 2, close)
    } else {
        None
    }
}

/// Lemma: a token is an operator of at most one precedence.
proof fn lemma_op_level(k: TokKind, l: int)
    requires
        0 <= l <= 5,
        binop_of(k, l) is Some,
    ensures
        forall|l2: int| 0 <= l2 <= 5 && l2 != l ==> #[trigger] binop_of(k, l2) is None,
{
}

/// Lemma: the operator at `k`, of precedence `l`, has `op_level` `l`.
proof fn lemma_op_level_at(toks: Seq<Token>, k: int, l: int)
    requires
        0 <= k < toks.len(),
        0 <= l <= 5,
        binop_of(toks[k].kind, l) is Some,
    ensures
        op_level(toks, k) == l,
{
    lemma_op_level(toks[k].kind, l);
}

/// Lemma: where a chain of precedence `level` stops.
proof fn lemma_chain_stop(toks: Seq<Token>, k: int, level: int)
    requires
        chain_end(toks, k, level) is Some,
    ensures
        k <= chain_end(toks, k, level)->0,
        stops_binary(toks, chain_end(toks, k, level)->0) || op_level(toks, chain_end(toks, k, level)->0) > level,
    decreases toks.len() - k,
{
    if !(stops_binary(toks, k) || op_level(toks, k) > level) {
        let k2 = operand_end(toks, k + 1)->0;
        lemma_chain_stop(toks, k2, level);
    }
}

/// Lemma: a chain of precedence `level` goes on through the stops of the
/// tighter precedence `level - 1`.
proof fn lemma_chain_through(toks: Seq<Token>, k: int, level: int)
    requires
        chain_end(toks, k, level) is Some,
    ensures
        chain_end(toks, k, level - 1) is Some,
        chain_end(toks, chain_end(toks, k, level - 1)->0, level) == chain_end(toks, k, level),
    decreases toks.len() - k,
{
    if !(stops_binary(toks, k) || op_level(toks, k) > level - 1) {
        let k2 = operand_end(toks, k + 1)->0;
        lemma_chain_through(toks, k2, level);
    }
}

/// Lemma: a plain conditional expression ends where the operators end, not
/// at `?`.
proof fn lemma_cond_stop(toks: Seq<Token>, p: int)
    requires
        cond_end(toks, p) is Some,
    ensures
        stops_binary(toks, cond_end(toks, p)->0),
        !(cond_end(toks, p)->0 < toks.len() && toks[cond_end(toks, p)->0].kind == TokKind::Sym(Sym::Question)),
    decreases toks.len() - p,
{
    let k = expr_end(toks, p, 5)->0;
    lemma_chain_stop(toks, operand_end(toks, p)->0, 5);
    if k < toks.len() && toks[k].kind == TokKind::Sym(Sym::Question) {
        let k2 = cond_end(toks, k + 1)->0;
        lemma_cond_stop(toks, k2 + 1);
    }
}

/// Lemma: a plain expression ends at a token that cannot carry it on.
proof fn lemma_full_stop(toks: Seq<Token>, p: int)
    requires
        full_end(toks, p) is Some,
    ensures
        expr_follow(toks, full_end(toks, p)->0),
    decreases toks.len() - p,
{
    let k = cond_end(toks, p)->0;
    lemma_cond_stop(toks, p);
    if k < toks.len() && assign_op_of(toks[k].kind) is Some {
        lemma_full_stop(toks, k + 1);
    }
}

/// A plain operand can start at `p`: a name, a literal, `(`, `[`, `-`,
/// `not`, `|`, `function (` or `record` without a name stands there.
pub open spec fn operand_start(toks: Seq<Token>, p: int) -> bool {
    ||| leaf_tok(toks, p)
    ||| (0 <= p < toks.len() && (toks[p].kind == TokKind::Sym(Sym::LParen) || toks[p].kind == TokKind::Sym(
        Sym::LBracket,
    ) || toks[p].kind == TokKind::Kw(Kw::Not) || toks[p].kind == TokKind::Sym(Sym::Minus) || toks[p].kind
        == TokKind::Sym(Sym::Pipe)))
    ||| (kw_at(toks, p, Kw::Function) && p + 1 < toks.len() && toks[p + 1].kind == TokKind::Sym(Sym::LParen))
    ||| (kw_at(toks, p, Kw::Record) && !(p + 1 < toks.len() && toks[p + 1].kind == TokKind::Ident))
}

/// Lemma: a plain expression starts where a plain operand can start.
proof fn lemma_full_start(toks: Seq<Token>, p: int)
    requires
        full_end(toks, p) is Some,
    ensures
        operand_start(toks, p),
{
    assert(cond_end(toks, p) is Some);
    assert(expr_end(toks, p, 5) is Some);
    lemma_operand_start(toks, p);
}

/// Lemma: a plain operand starts where a plain operand can start.
proof fn lemma_operand_start(toks: Seq<Token>, p: int)
    requires
        operand_end(toks, p) is Some,
    ensures
        operand_start(toks, p),
{
    if !(0 <= p < toks.len() && (toks[p].kind == TokKind::Kw(Kw::Not) || toks[p].kind == TokKind::Sym(
        Sym::Minus,
    ))) {
        assert(primary_end(toks, p) is Some);
    }
}

/// The first token from `k` on that is not a newline.
pub open spec fn skip_nl(toks: Seq<Token>, k: int) -> int
    decreases toks.len() - k,
{
    if 0 <= k < toks.len() && toks[k].kind == TokKind::Newline {
        skip_nl(toks, k + 1)
    } else {
        k
    }
}

/// Where a plain statement read at `p` ends. Plain statements are a plain
/// expression (see `full_end`); `continue`; `break`; `return`, alone or
/// with a plain expression; `raise` and a plain expression; `use` and a
/// string; `if` and `while` with a plain condition, an optional `then` and
/// plain statements (for `if`, an optional `else`, which may stand on a
/// later line); `for` (see `plain_for_end`); `try` (see
/// `plain_cases_end`); `begin`, plain lines and
/// `end`; `record name`, plain lines and `end`; and `function
/// name(params)` followed by a plain statement.
pub open spec fn plain_stmt_end(toks: Seq<Token>, p: int) -> Option<int>
    decreases toks.len() - p, 7int,
{
    if kw_at(toks, p, Kw::Continue) || kw_at(toks, p, Kw::Break) {
        Some(p + 1)
    } else if kw_at(toks, p, Kw::Return) && line_end(toks, p + 1) {
        Some(p + 1)
    } else if (kw_at(toks, p, Kw::Return) || kw_at(toks, p, Kw::Raise)) && full_end(toks, p + 1) is Some {
        full_end(toks, p + 1)
    } else if kw_at(toks, p, Kw::Use) && p + 1 < toks.len() && toks[p + 1].kind == TokKind::Str
        && ast::unescape(toks[p + 1].text@) is Some {
        Some(p + 2)
    } else if (kw_at(toks, p, Kw::If) || kw_at(toks, p, Kw::While)) && full_end(toks, p + 1) is Some {
        let q = full_end(toks, p + 1)->0;
        let m2 = if kw_at(toks, q, Kw::Then) {
            q + 1
        } else {
            q
        };
        if !(p < q <= m2 <= toks.len()) {
            None
        } else {
            match plain_stmt_end(toks, m2) {
                Some(q2) => if !(m2 < q2 <= toks.len()) {
                    None
                } else if kw_at(toks, p, Kw::While) {
                    Some(q2)
                } else {
                    let q3 = skip_nl(toks, q2);
                    if kw_at(toks, q3, Kw::Else) && q2 <= q3 {
                        plain_stmt_end(toks, q3 + 1)
                    } else {
                        Some(q2)
                    }
                },
                None => None,
            }
        }
    } else if kw_at(toks, p, Kw::Begin) {
        match plain_lines_end(toks, p + 1) {
            Some(k) => if p < k && kw_at(toks, k, Kw::End) {
                Some(k + 1)
            } else {
                None
            },
            None => None,
        }
    } else if kw_at(toks, p, Kw::Function) && p + 2 < toks.len() && toks[p + 1].kind == TokKind::Ident
        && toks[p + 2].kind == TokKind::Sym(Sym::LParen) {
        match params_end(toks, p + 3, Sym::RParen) {
            Some(m) => if p < m <= toks.len() {
                plain_stmt_end(toks, m)
            } else {
                None
            },
            None => None,
        }
    } else if kw_at(toks, p, Kw::For) && p + 1 < toks.len() && toks[p + 1].kind == TokKind::Ident {
        plain_for_end(toks, p)
    } else if kw_at(toks, p, Kw::Try) {
        match plain_block_end(toks, p + 1) {
            Some(q0) => if p < q0 <= toks.len() {
                plain_cases_end(toks, q0)
            } else {
                None
            },
            None => None,
        }
    } else if kw_at(toks, p, Kw::Record) && p + 1 < toks.len() && toks[p + 1].kind == TokKind::Ident {
        match plain_lines_end(toks, p + 2) {
            Some(k) => if p + 1 < k && kw_at(toks, k, Kw::End) {
                Some(k + 1)
            } else {
                None
            },
            None => None,
        }
    } else if operand_start(toks, p) && full_end(toks, p) is Some {
        let q = full_end(toks, p)->0;
        if p < q <= toks.len() {
            Some(q)
        } else {
            None
        }
    } else {
        None
    }
}

/// Where the body of a plain statement that begins at `p`, and whose
/// header ends at `q`, ends: an optional `then`, then a plain statement.
pub open spec fn plain_then_end(toks: Seq<Token>, p: int, q: int) -> Option<int>
    decreases toks.len() - p, 0int,
{
    let m = if kw_at(toks, q, Kw::Then) {
        q + 1
    } else {
        q
    };
    if p < q <= m <= toks.len() {
        match plain_stmt_end(toks, m) {
            Some(e) => if m < e <= toks.len() {
                Some(e)
            } else {
                None
            },
            None => None,
        }
    } else {
        None
    }
}

/// Where a plain `for` statement read at `p` ends: `for name in` and a
/// plain expression, or `for name =` and plain expressions with `to` or
/// `downto` and an optional `step`; then a body (see `plain_then_end`).
pub open spec fn plain_for_end(toks: Seq<Token>, p: int) -> Option<int>
    decreases toks.len() - p, 1int,
{
    if kw_at(toks, p + 2, Kw::In) {
        match full_end(toks, p + 3) {
            Some(q) => plain_then_end(toks, p, q),
            None => None,
        }
    } else if 0 <= p + 2 < toks.len() && toks[p + 2].kind == TokKind::Sym(Sym::Assign) {
        match full_end(toks, p + 3) {
            Some(q1) => if p + 3 < q1 && (kw_at(toks, q1, Kw::To) || kw_at(toks, q1, Kw::Downto)) {
                match full_end(toks, q1 + 1) {
                    Some(q2) => if q1 + 1 < q2 <= toks.len() {
                        if kw_at(toks, q2, Kw::Step) {
                            match full_end(toks, q2 + 1) {
                                Some(q3) => plain_then_end(toks, p, q3),
                                None => None,
                            }
                        } else {
                            plain_then_end(toks, p, q2)
                        }
                    } else {
                        None
                    },
                    None => None,
                }
            } else {
                None
            },
            None => None,
        }
    } else {
        None
    }
}

/// Where plain statements from `p`, each on a line of its own (empty lines
/// between them), end at the keyword `end`: the index of that `end`.
pub open spec fn plain_lines_end(toks: Seq<Token>, p: int) -> Option<int>
    decreases toks.len() - p, 8int,
{
    if p < 0 || p >= toks.len() {
        None
    } else if toks[p].kind == TokKind::Newline {
        plain_lines_end(toks, p + 1)
    } else if toks[p].kind == TokKind::Kw(Kw::End) {
        Some(p)
    } else {
        match plain_stmt_end(toks, p) {
            Some(q) => if p < q <= toks.len() && (line_end(toks, q) || kw_at(toks, q, Kw::End)) {
                plain_lines_end(toks, q)
            } else {
                None
            },
            None => None,
        }
    }
}

/// Where plain statements from `p`, each on a line of its own (empty lines
/// between them), end at the keyword `end` or `case`: the index of that
/// keyword.
pub open spec fn plain_block_end(toks: Seq<Token>, p: int) -> Option<int>
    decreases toks.len() - p, 8int,
{
    if p < 0 || p >= toks.len() {
        None
    } else if toks[p].kind == TokKind::Newline {
        plain_block_end(toks, p + 1)
    } else if toks[p].kind == TokKind::Kw(Kw::End) || toks[p].kind == TokKind::Kw(Kw::Case) {
        Some(p)
    } else {
        match plain_stmt_end(toks, p) {
            Some(q) => if p < q <= toks.len() && (line_end(toks, q) || kw_at(toks, q, Kw::End) || kw_at(
                toks,
                q,
                Kw::Case,
            )) {
                plain_block_end(toks, q)
            } else {
                None
            },
            None => None,
        }
    }
}

/// Where plain statements from `p`, each on a line of its own (empty lines
/// between them), end at `}`: the index of that `}`.
pub open spec fn plain_brace_end(toks: Seq<Token>, p: int) -> Option<int>
    decreases toks.len() - p, 8int,
{
    if p < 0 || p >= toks.len() {
        None
    } else if toks[p].kind == TokKind::Newline {
        plain_brace_end(toks, p + 1)
    } else if toks[p].kind == TokKind::Sym(Sym::RBrace) {
        Some(p)
    } else {
        match plain_stmt_end(toks, p) {
            Some(q) => if p < q <= toks.len() && (line_end(toks, q) || (q < toks.len() && toks[q].kind
                == TokKind::Sym(Sym::RBrace))) {
                plain_brace_end(toks, q)
            } else {
                None
            },
            None => None,
        }
    }
}

/// Where the handlers of a plain `try`, from `q` (at `case` or `end`), end
/// (just after `end`): each `case`, a plain expression, optionally `as` and
/// a name, then plain statements.
pub open spec fn plain_cases_end(toks: Seq<Token>, q: int) -> Option<int>
    decreases toks.len() - q, 0int,
{
    if kw_at(toks, q, Kw::End) {
        Some(q + 1)
    } else if kw_at(toks, q, Kw::Case) {
        match full_end(toks, q + 1) {
            Some(q1) => {
                let q2 = if kw_at(toks, q1, Kw::As) {
                    q1 + 2
                } else {
                    q1
                };
                if !(q + 1 < q1 <= q2 <= toks.len()) || (kw_at(toks, q1, Kw::As) && !(q1 + 1 < toks.len()
                    && toks[q1 + 1].kind == TokKind::Ident)) {
                    None
                } else {
                    match plain_block_end(toks, q2) {
                        Some(q3) => if q2 <= q3 <= toks.len() {
                            plain_cases_end(toks, q3)
                        } else {
                            None
                        },
                        None => None,
                    }
                }
            },
            None => None,
        }
    } else {
        None
    }
}

/// From `p` to the end of the tokens, every line is empty or a plain
/// statement (see `plain_stmt_end`).
pub open spec fn plain_program(toks: Seq<Token>, p: int) -> bool
    decreases toks.len() - p,
{
    if p < 0 || p >= toks.len() {
        true
    } else if toks[p].kind == TokKind::Newline {
        plain_program(toks, p + 1)
    } else {
        match plain_stmt_end(toks, p) {
            Some(q) => p < q <= toks.len() && line_end(toks, q) && plain_program(toks, q),
            None => false,
        }
    }
}

/// Lemma: newlines before plain lines or a plain program leave them as
/// they are.
proof fn lemma_plain_newlines(toks: Seq<Token>, p: int, q: int)
    requires
        0 <= p <= q <= toks.len(),
        newlines(toks, p, q),
    ensures
        plain_program(toks, p) ==> plain_program(toks, q),
        plain_lines_end(toks, p) == plain_lines_end(toks, q),
        plain_block_end(toks, p) == plain_block_end(toks, q),
        plain_brace_end(toks, p) == plain_brace_end(toks, q),
    decreases q - p,
{
    if p < q {
        assert(toks[p].kind == TokKind::Newline);
        lemma_plain_newlines(toks, p + 1, q);
    }
}

/// Where to stop reading a list of statements.
#[derive(Clone, Copy, PartialEq, Eq, Structural)]
pub enum Stop {
    /// At the end of the tokens.
    Eof,
    /// At `end`.
    End,
    /// At `end` or `case`.
    EndOrCase,
    /// At `}`.
    Brace,
}

fn at_kw(toks: &Vec<Token>, p: usize, k: Kw) -> (b: bool)
    ensures
        b == (p < toks.len() && toks@[p as int].kind == TokKind::Kw(k)),
{
    p < toks.len() && toks[p].kind == TokKind::Kw(k)
}

fn at_sym(toks: &Vec<Token>, p: usize, s: Sym) -> (b: bool)
    ensures
        b == (p < toks.len() && toks@[p as int].kind == TokKind::Sym(s)),
{
    p < toks.len() && toks[p].kind == TokKind::Sym(s)
}

fn at_newline(toks: &Vec<Token>, p: usize) -> (b: bool)
    ensures
        b == (p < toks.len() && toks@[p as int].kind == TokKind::Newline),
{
    p < toks.len() && toks[p].kind == TokKind::Newline
}

/// Skips newlines from `p`.
fn skip_newlines(toks: &Vec<Token>, p: usize) -> (q: usize)
    requires
        p <= toks.len(),
    ensures
        p <= q <= toks.len(),
        q < toks.len() ==> toks@[q as int].kind != TokKind::Newline,
        newlines(toks@, p as int, q as int),
        q == skip_nl(toks@, p as int),
{
    let mut q = p;
    while q < toks.len() && toks[q].kind == TokKind::Newline
        invariant
            p <= q <= toks.len(),
            newlines(toks@, p as int, q as int),
            skip_nl(toks@, q as int) == skip_nl(toks@, p as int),
        decreases toks.len() - q,
    {
        q += 1;
    }
    q
}

/// An error at the token `p` (or at the end of the source).
fn error_at(toks: &Vec<Token>, p: usize, message: &str) -> ParseError {
    let offset = if p < toks.len() {
        toks[p].start
    } else if toks.len() > 0 {
        toks[toks.len() - 1].end
    } else {
        0
    };
    ParseError { offset, message: message.to_owned() }
}

/// Expects the symbol `s` at `p`.
fn expect_sym(toks: &Vec<Token>, p: usize, s: Sym, message: &str) -> (r: Result<usize, ParseError>)
    ensures
        r matches Ok(q) ==> q == p + 1 && p < toks.len() && toks@[p as int].kind == TokKind::Sym(s),
        r is Err ==> !(p < toks.len() && toks@[p as int].kind == TokKind::Sym(s)),
{
    if at_sym(toks, p, s) {
        Ok(p + 1)
    } else {
        Err(error_at(toks, p, message))
    }
}

/// Expects the keyword `k` at `p`.
fn expect_kw(toks: &Vec<Token>, p: usize, k: Kw, message: &str) -> (r: Result<usize, ParseError>)
    ensures
        r matches Ok(q) ==> q == p + 1 && p < toks.len() && toks@[p as int].kind == TokKind::Kw(k),
        r is Err ==> !(p < toks.len() && toks@[p as int].kind == TokKind::Kw(k)),
{
    if at_kw(toks, p, k) {
        Ok(p + 1)
    } else {
        Err(error_at(toks, p, message))
    }
}

/// Expects a name at `p`.
fn expect_name(toks: &Vec<Token>, p: usize) -> (r: Result<String, ParseError>)
    ensures
        r matches Ok(s) ==> p < toks.len() && toks@[p as int].kind == TokKind::Ident && s@
            == toks@[p as int].text@,
        r is Err ==> !(p < toks.len() && toks@[p as int].kind == TokKind::Ident),
{
    if p < toks.len() && toks[p].kind == TokKind::Ident {
        Ok(toks[p].text.clone())
    } else {
        Err(error_at(toks, p, "expected a name"))
    }
}

/// The span of the tokens `toks[p..q]`.
fn span_of(toks: &Vec<Token>, p: usize, q: usize) -> (s: Span)
    requires
        p < q <= toks.len(),
    ensures
        s == token_span(toks@, p as int, q as int),
{
    (toks[p].start, toks[q - 1].end)
}

/// The node with its span replaced by `span`.
fn with_span(node: AST, span: Span) -> (r: AST)
    ensures
        r.spec_span() == span,
        r == node.respan(span),
{
    match node {
        AST::Identifier(mut e) => {
            e._span = span;
            AST::Identifier(e)
        },
        AST::StrLiteral(mut e) => {
            e._span = span;
            AST::StrLiteral(e)
        },
        AST::IntLiteral(mut e) => {
            e._span = span;
            AST::IntLiteral(e)
        },
        AST::FloatLiteral(mut e) => {
            e._span = span;
            AST::FloatLiteral(e)
        },
        AST::ArrayExpr(mut e) => {
            e._span = span;
            AST::ArrayExpr(e)
        },
        AST::FunctionDefinition(mut e) => {
            e._span = span;
            AST::FunctionDefinition(e)
        },
        AST::RecordDefinition(mut e) => {
            e._span = span;
            AST::RecordDefinition(e)
        },
        AST::UnaryExpr(mut e) => {
            e._span = span;
            AST::UnaryExpr(e)
        },
        AST::CondExpr(mut e) => {
            e._span = span;
            AST::CondExpr(e)
        },
        AST::BinExpr(mut e) => {
            e._span = span;
            AST::BinExpr(e)
        },
        AST::MemExpr(mut e) => {
            e._span = span;
            AST::MemExpr(e)
        },
        AST::CallExpr(mut e) => {
            e._span = span;
            AST::CallExpr(e)
        },
        AST::IfStatement(mut e) => {
            e._span = span;
            AST::IfStatement(e)
        },
        AST::WhileStatement(mut e) => {
            e._span = span;
            AST::WhileStatement(e)
        },
        AST::ForStatement(mut e) => {
            e._span = span;
            AST::ForStatement(e)
        },
        AST::ForInStatement(mut e) => {
            e._span = span;
            AST::ForInStatement(e)
        },
        AST::ContinueStatement(mut e) => {
            e._span = span;
            AST::ContinueStatement(e)
        },
        AST::BreakStatement(mut e) => {
            e._span = span;
            AST::BreakStatement(e)
        },
        AST::FunctionStatement(mut e) => {
            e._span = span;
            AST::FunctionStatement(e)
        },
        AST::ReturnStatement(mut e) => {
            e._span = span;
            AST::ReturnStatement(e)
        },
        AST::RecordStatement(mut e) => {
            e._span = span;
            AST::RecordStatement(e)
        },
        AST::TryStatement(mut e) => {
            e._span = span;
            AST::TryStatement(e)
        },
        AST::CaseStatement(mut e) => {
            e._span = span;
            AST::CaseStatement(e)
        },
        AST::RaiseStatement(mut e) => {
            e._span = span;
            AST::RaiseStatement(e)
        },
        AST::ExprStatement(mut e) => {
            e._span = span;
            AST::ExprStatement(e)
        },
        AST::UseStatement(mut e) => {
            e._span = span;
            AST::UseStatement(e)
        },
        AST::BlockStatement(mut e) => {
            e._span = span;
            AST::BlockStatement(e)
        },
    }
}

/// Reads the parameter names of a function, from just after `(` (or `|`)
/// up to and including the closing `close`.
fn parse_params(toks: &Vec<Token>, p: usize, close: Sym) -> (r: Result<(Vec<String>, usize), ParseError>)
    requires
        p <= toks.len(),
    ensures
        r matches Ok((v, q)) ==> p < q <= toks.len() && params_read(
            toks@,
            p as int,
            q as int,
            v@.map_values(|a: String| a@),
            close,
        ),
        params_end(toks@, p as int, close) matches Some(e) ==> (r matches Ok((_, q)) && q == e),
{
    let mut args: Vec<String> = Vec::new();
    let mut q = p;
    if at_sym(toks, q, close) {
        proof {
            assert(args@.map_values(|a: String| a@).len() == 0);
        }
        return Ok((args, q + 1));
    }
    loop
        invariant
            p <= q <= toks.len(),
            q == p + 2 * args@.len(),
            forall|i: int| 0 <= i < args@.len() ==> #[trigger] name_at(toks@, p + 2 * i, args@[i]@),
            forall|i: int| 0 <= i < args@.len() ==> #[trigger] toks@[p + 2 * i + 1].kind == TokKind::Sym(Sym::Comma),
            params_end(toks@, p as int, close) matches Some(e) ==> names_end(toks@, q as int, close) == Some(e),
        decreases toks.len() - q,
    {
        let name = expect_name(toks, q)?;
        args.push(name);
        q = q + 1;
        if at_sym(toks, q, close) {
            proof {
                let names = args@.map_values(|a: String| a@);
                assert forall|i: int| 0 <= i < names.len() implies #[trigger] name_at(toks@, p + 2 * i, names[i]) by {
                    assert(names[i] == args@[i]@);
                }
                assert forall|i: int| 0 <= i < names.len() - 1 implies #[trigger] toks@[p + 2 * i + 1].kind
                    == TokKind::Sym(Sym::Comma) by {
                    assert(toks@[p + 2 * i + 1].kind == TokKind::Sym(Sym::Comma));
                }
            }
            return Ok((args, q + 1));
        }
        q = expect_sym(toks, q, Sym::Comma, "expected ',' between parameters")?;
    }
}

/// Reads expressions separated by commas, from `p` up to and including the
/// closing `close`; newlines may stand between them.
fn parse_expr_list(toks: &Vec<Token>, p: usize, close: Sym) -> (r: Result<(Vec<AST>, usize), ParseError>)
    requires
        p <= toks.len(),
    ensures
        r matches Ok((v, q)) ==> p < q <= toks.len() && toks@[q - 1].kind == TokKind::Sym(close)
            && list_read(toks@, p as int, q - 1, v@),
        list_end(toks@, p as int, close) matches Some(e) ==> (r matches Ok((_, q)) && q == e),
    decreases toks.len() - p, 12nat,
{
    let mut items: Vec<AST> = Vec::new();
    let mut q = skip_newlines(toks, p);
    if at_sym(toks, q, close) {
        return Ok((items, q + 1));
    }
    loop
        invariant
            p <= q <= toks.len(),
            list_before(toks@, p as int, q as int, items@),
            list_end(toks@, p as int, close) is Some ==> list_items_end(toks@, q as int, close) == list_end(
                toks@,
                p as int,
                close,
            ),
        decreases toks.len() - q,
    {
        let (e, q1) = parse_expr(toks, q)?;
        let ghost prev = items@;
        let ghost q0 = q;
        items.push(e);
        q = skip_newlines(toks, q1);
        proof {
            assert(items@.drop_last() =~= prev);
            assert(in_tokens(toks@, q0 as int) && in_tokens(toks@, q1 as int));
            assert(list_read(toks@, p as int, q as int, items@));
        }
        if at_sym(toks, q, close) {
            return Ok((items, q + 1));
        }
        let ghost k = q;
        q = expect_sym(toks, q, Sym::Comma, "expected ','")?;
        q = skip_newlines(toks, q);
        proof {
            assert(in_tokens(toks@, k as int));
            assert(list_before(toks@, p as int, q as int, items@));
        }
    }
}

/// Reads an expression. A plain expression (see `full_end`) is always
/// read, up to where it ends.
pub fn parse_expr(toks: &Vec<Token>, p: usize) -> (r: Parsed)
    requires
        p <= toks.len(),
    ensures
        parsed_at(toks@, p, r),
        r matches Ok((node, q)) ==> expr_tree(toks@, p as int, q as int, node),
        full_end(toks@, p as int) matches Some(e) ==> (r matches Ok((_, q)) && q == e && expr_follow(
            toks@,
            q as int,
        )),
    decreases toks.len() - p, 11nat,
{
    parse_assign(toks, p)
}

/// The assignment operator at `p`, if there is one.
fn assign_op_at(toks: &Vec<Token>, p: usize) -> (r: Option<BinOp>)
    ensures
        r == (if p < toks.len() {
            assign_op_of(toks@[p as int].kind)
        } else {
            None
        }),
{
    if at_sym(toks, p, Sym::Assign) {
        Some(BinOp::Assign)
    } else if at_sym(toks, p, Sym::AddAssign) {
        Some(BinOp::Adds)
    } else if at_sym(toks, p, Sym::SubAssign) {
        Some(BinOp::Subs)
    } else if at_sym(toks, p, Sym::MulAssign) {
        Some(BinOp::Muls)
    } else if at_sym(toks, p, Sym::DivAssign) {
        Some(BinOp::Divs)
    } else {
        None
    }
}

/// `target op value` (right to left), or a conditional expression.
fn parse_assign(toks: &Vec<Token>, p: usize) -> (r: Parsed)
    requires
        p <= toks.len(),
    ensures
        parsed_at(toks@, p, r),
        r matches Ok((node, q)) ==> expr_tree(toks@, p as int, q as int, node),
        full_end(toks@, p as int) matches Some(e) ==> (r matches Ok((_, q)) && q == e && expr_follow(
            toks@,
            q as int,
        )),
    decreases toks.len() - p, 10nat,
{
    proof {
        if full_end(toks@, p as int) is Some {
            lemma_full_stop(toks@, p as int);
        }
    }
    let (left, q) = parse_cond(toks, p)?;
    match assign_op_at(toks, q) {
        Some(op) => {
            let (right, q2) = parse_assign(toks, q + 1)?;
            let span = span_of(toks, p, q2);
            let node = AST::BinExpr(BinExpr { _span: span, left: Box::new(left), right: Box::new(right), op });
            proof {
                assert(assign_op_of(toks@[q as int].kind) == Some(op));
                assert(expr_tree(toks@, p as int, q2 as int, node));
            }
            Ok((node, q2))
        },
        None => Ok((left, q)),
    }
}

/// `cond ? then : alt`, or an `or` expression.
fn parse_cond(toks: &Vec<Token>, p: usize) -> (r: Parsed)
    requires
        p <= toks.len(),
    ensures
        parsed_at(toks@, p, r),
        r matches Ok((node, q)) ==> cond_tree(toks@, p as int, q as int, node),
        cond_end(toks@, p as int) matches Some(e) ==> (r matches Ok((_, q)) && q == e),
    decreases toks.len() - p, 9nat,
{
    let (cond, q) = parse_binary(toks, p, 5)?;
    proof {
        if cond_end(toks@, p as int) is Some {
            lemma_chain_stop(toks@, operand_end(toks@, p as int)->0, 5);
        }
    }
    if at_sym(toks, q, Sym::Question) {
        let (then_, q2) = parse_cond(toks, q + 1)?;
        let q3 = expect_sym(toks, q2, Sym::Colon, "expected ':'")?;
        let (alt, q4) = parse_cond(toks, q3)?;
        let span = span_of(toks, p, q4);
        let node = AST::CondExpr(
            CondExpr { _span: span, cond: Box::new(cond), then_: Box::new(then_), alt: Box::new(alt) },
        );
        proof {
            assert(toks@[q as int].kind == TokKind::Sym(Sym::Question));
            assert(toks@[q2 as int].kind == TokKind::Sym(Sym::Colon));
            assert(cond_tree(toks@, p as int, q4 as int, node));
        }
        Ok((node, q4))
    } else {
        Ok((cond, q))
    }
}

/// The binary operator of precedence `level` at `p`, if there is one:
/// 5 `or`, 4 `and`, 3 equality, 2 comparison, 1 `+ -`, 0 `* / mod`.
fn binop_at(toks: &Vec<Token>, p: usize, level: u8) -> (r: Option<BinOp>)
    requires
        level <= 5,
    ensures
        r == (if p < toks.len() {
            binop_of(toks@[p as int].kind, level as int)
        } else {
            None
        }),
{
    if p >= toks.len() {
        return None;
    }
    let k = toks[p].kind;
    if level == 5 {
        if k == TokKind::Kw(Kw::Or) {
            Some(BinOp::Or)
        } else {
            None
        }
    } else if level == 4 {
        if k == TokKind::Kw(Kw::And) {
            Some(BinOp::And)
        } else {
            None
        }
    } else if level == 3 {
        if k == TokKind::Sym(Sym::Eq) {
            Some(BinOp::Eq)
        } else if k == TokKind::Sym(Sym::Neq) {
            Some(BinOp::Neq)
        } else {
            None
        }
    } else if level == 2 {
        if k == TokKind::Sym(Sym::Lt) {
            Some(BinOp::Lt)
        } else if k == TokKind::Sym(Sym::Leq) {
            Some(BinOp::Leq)
        } else if k == TokKind::Sym(Sym::Gt) {
            Some(BinOp::Gt)
        } else if k == TokKind::Sym(Sym::Geq) {
            Some(BinOp::Geq)
        } else if k == TokKind::Kw(Kw::Of) {
            Some(BinOp::Of)
        } else {
            None
        }
    } else if level == 1 {
        if k == TokKind::Sym(Sym::Plus) {
            Some(BinOp::Add)
        } else if k == TokKind::Sym(Sym::Minus) {
            Some(BinOp::Sub)
        } else {
            None
        }
    } else {
        if k == TokKind::Sym(Sym::Star) {
            Some(BinOp::Mul)
        } else if k == TokKind::Sym(Sym::Slash) {
            Some(BinOp::Div)
        } else if k == TokKind::Kw(Kw::Mod) {
            Some(BinOp::Mod)
        } else {
            None
        }
    }
}

/// Operators of precedence `level` and above, left to right.
#[verifier::rlimit(100)]
#[verifier::spinoff_prover]
fn parse_binary(toks: &Vec<Token>, p: usize, level: u8) -> (r: Parsed)
    requires
        p <= toks.len(),
        level <= 5,
    ensures
        parsed_at(toks@, p, r),
        r matches Ok((node, q)) ==> binary_tree(toks@, p as int, q as int, node, level as int)
            && ends_binary(toks@, q as int, level as int),
        expr_end(toks@, p as int, level as int) matches Some(e) ==> (r matches Ok((_, q)) && q == e),
    decreases toks.len() - p, 3 + level as nat,
{
    proof {
        if expr_end(toks@, p as int, level as int) is Some {
            let k = operand_end(toks@, p as int)->0;
            lemma_chain_through(toks@, k, level as int);
            lemma_chain_stop(toks@, k, level - 1);
        }
    }
    let (mut left, mut q) = if level == 0 {
        parse_unary(toks, p)?
    } else {
        parse_binary(toks, p, level - 1)?
    };
    proof {
        if level == 0 {
            assert(binary_tree(toks@, p as int, q as int, left, -1));
        }
        assert(binary_tree(toks@, p as int, q as int, left, level - 1));
        if expr_end(toks@, p as int, level as int) is Some {
            let k = operand_end(toks@, p as int)->0;
            lemma_chain_through(toks@, k, level as int);
            lemma_chain_stop(toks@, k, level - 1);
        }
    }
    let ghost target = expr_end(toks@, p as int, level as int);
    loop
        invariant
            p < q <= toks.len(),
            level <= 5,
            left.spec_span() == token_span(toks@, p as int, q as int),
            binary_tree(toks@, p as int, q as int, left, level as int),
            ends_binary(toks@, q as int, level - 1),
            target == expr_end(toks@, p as int, level as int),
            target is Some ==> chain_end(toks@, q as int, level as int) == target && (stops_binary(
                toks@,
                q as int,
            ) || op_level(toks@, q as int) > level - 1),
        decreases toks.len() - q,
    {
        match binop_at(toks, q, level) {
            Some(op) => {
                proof {
                    if target is Some {
                        lemma_op_level_at(toks@, q as int, level as int);
                        assert(operand_end(toks@, q + 1) is Some);
                        let k2 = operand_end(toks@, q + 1)->0;
                        lemma_chain_through(toks@, k2, level as int);
                        lemma_chain_stop(toks@, k2, level - 1);
                    }
                }
                let (right, q2) = if level == 0 {
                    parse_unary(toks, q + 1)?
                } else {
                    parse_binary(toks, q + 1, level - 1)?
                };
                let span = span_of(toks, p, q2);
                let ghost old_left = left;
                left = AST::BinExpr(BinExpr { _span: span, left: Box::new(left), right: Box::new(right), op });
                proof {
                    assert(binary_tree(toks@, q + 1, q2 as int, right, level - 1));
                    assert(binop_of(toks@[q as int].kind, level as int) == Some(op));
                    assert(binary_tree(toks@, p as int, q2 as int, left, level as int));
                }
                q = q2;
            },
            None => {
                proof {
                    if target is Some && !stops_binary(toks@, q as int) {
                        assert(op_level(toks@, q as int) != level);
                    }
                    if q < toks.len() {
                        assert forall|l: int| 0 <= l <= level implies #[trigger] binop_of(toks@[q as int].kind, l) is None by {
                            if l < level {
                                assert(ends_binary(toks@, q as int, level - 1));
                            }
                        }
                    }
                }
                return Ok((left, q));
            },
        }
    }
}

/// `not x`, `-x`, or a postfix expression.
fn parse_unary(toks: &Vec<Token>, p: usize) -> (r: Parsed)
    requires
        p <= toks.len(),
    ensures
        parsed_at(toks@, p, r),
        r matches Ok((node, q)) ==> operand_tree(toks@, p as int, q as int, node),
        operand_end(toks@, p as int) matches Some(e) ==> (r matches Ok((_, q)) && q == e),
    decreases toks.len() - p, 2nat,
{
    let op = if at_kw(toks, p, Kw::Not) {
        Some(UnaryOp::Not)
    } else if at_sym(toks, p, Sym::Minus) {
        Some(UnaryOp::Neg)
    } else {
        None
    };
    match op {
        Some(op) => {
            let (val, q) = parse_unary(toks, p + 1)?;
            let span = span_of(toks, p, q);
            Ok((AST::UnaryExpr(UnaryExpr { _span: span, op, val: Box::new(val) }), q))
        },
        None => parse_postfix(toks, p),
    }
}

/// A primary expression followed by calls and member accesses.
fn parse_postfix(toks: &Vec<Token>, p: usize) -> (r: Parsed)
    requires
        p <= toks.len(),
    ensures
        parsed_at(toks@, p, r),
        r matches Ok((node, q)) ==> operand_tree(toks@, p as int, q as int, node),
        primary_end(toks@, p as int) matches Some(k) ==> (postfix_end(toks@, k) matches Some(e) ==> (r matches Ok(
            (_, q),
        ) && q == e)),
    decreases toks.len() - p, 1nat,
{
    let (mut node, mut q) = parse_primary(toks, p)?;
    loop
        invariant
            p < q <= toks.len(),
            postfix_tree(toks@, p as int, q as int, node),
            node.spec_span() == token_span(toks@, p as int, q as int),
            primary_end(toks@, p as int) matches Some(k) ==> (postfix_end(toks@, k) matches Some(e)
                ==> postfix_end(toks@, q as int) == Some(e)),
        decreases toks.len() - q,
    {
        if at_sym(toks, q, Sym::LParen) {
            let (args, q2) = parse_expr_list(toks, q + 1, Sym::RParen)?;
            let span = span_of(toks, p, q2);
            proof {
                assert(postfix_tree(toks@, p as int, q as int, node));
                assert(toks@[q as int].kind == TokKind::Sym(Sym::LParen));
            }
            node = AST::CallExpr(CallExpr { _span: span, callee: Box::new(node), args });
            proof {
                assert(postfix_tree(toks@, p as int, q2 as int, node));
            }
            q = q2;
        } else if at_sym(toks, q, Sym::Dot) || at_sym(toks, q, Sym::ColonColon) {
            let is_namespace = at_sym(toks, q, Sym::ColonColon);
            let name = expect_name(toks, q + 1)?;
            let key_span = span_of(toks, q + 1, q + 2);
            let span = span_of(toks, p, q + 2);
            proof {
                assert(postfix_tree(toks@, p as int, q as int, node));
                assert(toks@[q as int].kind == TokKind::Sym(Sym::ColonColon) || toks@[q as int].kind == TokKind::Sym(
                    Sym::Dot,
                ));
            }
            let ghost left0 = node;
            node = AST::MemExpr(
                MemExpr {
                    _span: span,
                    left: Box::new(node),
                    right: Box::new(AST::Identifier(Identifier { _span: key_span, val: name })),
                    is_expr: false,
                    is_namespace,
                },
            );
            proof {
                let e = node->MemExpr_0;
                assert(member_tail(toks@, q as int, q + 2, e));
                assert(postfix_tree(toks@, p as int, q + 2, node));
            }
            q = q + 2;
        } else if at_sym(toks, q, Sym::LBracket) {
            let (key, q2) = parse_expr(toks, q + 1)?;
            let q3 = expect_sym(toks, q2, Sym::RBracket, "expected ']'")?;
            let span = span_of(toks, p, q3);
            proof {
                assert(postfix_tree(toks@, p as int, q as int, node));
                assert(toks@[q as int].kind == TokKind::Sym(Sym::LBracket));
            }
            node = AST::MemExpr(
                MemExpr {
                    _span: span,
                    left: Box::new(node),
                    right: Box::new(key),
                    is_expr: true,
                    is_namespace: false,
                },
            );
            proof {
                let e = node->MemExpr_0;
                assert(member_tail(toks@, q as int, q3 as int, e));
                assert(postfix_tree(toks@, p as int, q3 as int, node));
            }
            q = q3;
        } else {
            return Ok((node, q));
        }
    }
}

/// A literal, a name, a parenthesized expression, an array, or a function
/// or record written as an expression.
#[verifier::rlimit(80)]
#[verifier::spinoff_prover]
fn parse_primary(toks: &Vec<Token>, p: usize) -> (r: Parsed)
    requires
        p <= toks.len(),
    ensures
        parsed_at(toks@, p, r),
        r matches Ok((node, q)) ==> operand_tree(toks@, p as int, q as int, node) && primary_tree(toks@, p as int, q as int, node),
        primary_end(toks@, p as int) matches Some(e) ==> (r matches Ok((_, q)) && q == e),
    decreases toks.len() - p, 0nat,
{
    if p >= toks.len() {
        return Err(error_at(toks, p, "unexpected end of input"));
    }
    let span = span_of(toks, p, p + 1);
    match toks[p].kind {
        TokKind::Int => Ok((AST::IntLiteral(IntLiteral { _span: span, val: toks[p].int_val }), p + 1)),
        TokKind::Float => Ok(
            (AST::FloatLiteral(FloatLiteral { _span: span, bits: toks[p].float_bits }), p + 1),
        ),
        TokKind::Str => {
            if ast::unescape_str(toks[p].text.as_str()).is_none() {
                return Err(error_at(toks, p, "string literal ends with a backslash"));
            }
            Ok((AST::StrLiteral(StrLiteral::new(&toks[p].text, span)), p + 1))
        },
        TokKind::Ident => Ok(
            (AST::Identifier(Identifier { _span: span, val: toks[p].text.clone() }), p + 1),
        ),
        TokKind::Sym(Sym::LParen) => {
            let (e, q) = parse_expr(toks, p + 1)?;
            let q2 = expect_sym(toks, q, Sym::RParen, "expected ')'")?;
            let span = span_of(toks, p, q2);
            let node = with_span(e, span);
            proof {
                lemma_expr_tree_respan(toks@, p + 1, q as int, e, span);
            }
            Ok((node, q2))
        },
        TokKind::Sym(Sym::LBracket) => {
            let (exprs, q) = parse_expr_list(toks, p + 1, Sym::RBracket)?;
            let span = span_of(toks, p, q);
            Ok((AST::ArrayExpr(ArrayExpr { _span: span, exprs }), q))
        },
        TokKind::Kw(Kw::Function) => {
            let q = expect_sym(toks, p + 1, Sym::LParen, "expected '('")?;
            let (args, q2) = parse_params(toks, q, Sym::RParen)?;
            let (stmt, q3) = parse_stmt(toks, q2)?;
            let span = span_of(toks, p, q3);
            let f = FunctionDefinition { _span: span, id: None, args, stmt: Box::new(stmt) };
            proof {
                assert(in_tokens(toks@, q2 as int));
                assert(fn_literal_read(toks@, p as int, q2 as int, q3 as int, f));
            }
            Ok((AST::FunctionDefinition(f), q3))
        },
        TokKind::Sym(Sym::Pipe) => {
            let (args, q) = parse_params(toks, p + 1, Sym::Pipe)?;
            let q2 = expect_sym(toks, q, Sym::LBrace, "expected '{'")?;
            let (stmts, q3) = parse_stmts(toks, q2, Stop::Brace)?;
            let q4 = expect_sym(toks, q3, Sym::RBrace, "expected '}'")?;
            let body_span = span_of(toks, q2 - 1, q4);
            let span = span_of(toks, p, q4);
            let f = FunctionDefinition {
                _span: span,
                id: None,
                args,
                stmt: Box::new(AST::BlockStatement(BlockStatement { _span: body_span, stmts })),
            };
            proof {
                assert(in_tokens(toks@, q as int));
                assert(fn_literal_read(toks@, p as int, q as int, q4 as int, f));
            }
            Ok((AST::FunctionDefinition(f), q4))
        },
        TokKind::Kw(Kw::Record) => {
            let (stmts, q) = parse_stmts(toks, p + 1, Stop::End)?;
            let q2 = expect_kw(toks, q, Kw::End, "expected 'end'")?;
            let span = span_of(toks, p, q2);
            Ok((AST::RecordDefinition(RecordDefinition { _span: span, id: None, stmts }), q2))
        },
        _ => Err(error_at(toks, p, "expected an expression")),
    }
}

/// Is the token at `p` where a list of statements read with `stop` ends?
fn at_stop(toks: &Vec<Token>, p: usize, stop: Stop) -> (b: bool)
    ensures
        p >= toks.len() ==> b,
        stop == Stop::Eof ==> b == (p >= toks.len()),
        stop == Stop::End ==> b == (p >= toks.len() || toks@[p as int].kind == TokKind::Kw(Kw::End)),
        stop == Stop::EndOrCase ==> b == (p >= toks.len() || toks@[p as int].kind == TokKind::Kw(Kw::End)
            || toks@[p as int].kind == TokKind::Kw(Kw::Case)),
        stop == Stop::Brace ==> b == (p >= toks.len() || toks@[p as int].kind == TokKind::Sym(Sym::RBrace)),
{
    if p >= toks.len() {
        return true;
    }
    match stop {
        Stop::Eof => false,
        Stop::End => at_kw(toks, p, Kw::End),
        Stop::EndOrCase => at_kw(toks, p, Kw::End) || at_kw(toks, p, Kw::Case),
        Stop::Brace => at_sym(toks, p, Sym::RBrace),
    }
}

/// Reads statements, each on a line of its own, up to where `stop` says;
/// returns the index of that token.
fn parse_stmts(toks: &Vec<Token>, p: usize, stop: Stop) -> (r: Result<(Vec<AST>, usize), ParseError>)
    requires
        p <= toks.len(),
    ensures
        r matches Ok((v, q)) ==> p <= q <= toks.len() && stmts_tree(toks@, p as int, q as int, v@),
        stop == Stop::Eof && plain_program(toks@, p as int) ==> (r matches Ok((_, q)) && q == toks.len()),
        stop == Stop::End ==> (plain_lines_end(toks@, p as int) matches Some(k) ==> (r matches Ok((_, q))
            && q == k)),
        stop == Stop::EndOrCase ==> (plain_block_end(toks@, p as int) matches Some(k) ==> (r matches Ok((_, q))
            && q == k)),
        stop == Stop::Brace ==> (plain_brace_end(toks@, p as int) matches Some(k) ==> (r matches Ok((_, q))
            && q == k)),
    decreases toks.len() - p, 35nat,
{
    let mut stmts: Vec<AST> = Vec::new();
    let mut q = skip_newlines(toks, p);
    proof {
        lemma_plain_newlines(toks@, p as int, q as int);
    }
    loop
        invariant
            p <= q <= toks.len(),
            stmts_tree(toks@, p as int, q as int, stmts@),
            q < toks.len() ==> toks@[q as int].kind != TokKind::Newline,
            stop == Stop::Eof && plain_program(toks@, p as int) ==> plain_program(toks@, q as int),
            stop == Stop::End && plain_lines_end(toks@, p as int) is Some ==> plain_lines_end(toks@, q as int)
                == plain_lines_end(toks@, p as int),
            stop == Stop::EndOrCase && plain_block_end(toks@, p as int) is Some ==> plain_block_end(toks@, q as int)
                == plain_block_end(toks@, p as int),
            stop == Stop::Brace && plain_brace_end(toks@, p as int) is Some ==> plain_brace_end(toks@, q as int)
                == plain_brace_end(toks@, p as int),
        decreases toks.len() - q,
    {
        if at_stop(toks, q, stop) {
            return Ok((stmts, q));
        }
        let (s, q1) = parse_stmt(toks, q)?;
        let ghost prev = stmts@;
        stmts.push(s);
        if !(at_newline(toks, q1) || at_stop(toks, q1, stop)) {
            return Err(error_at(toks, q1, "expected a new line"));
        }
        let q2 = skip_newlines(toks, q1);
        proof {
            assert(stmts@.drop_last() =~= prev);
            lemma_stmts_tree_push(toks@, p as int, q as int, q1 as int, q2 as int, stmts@);
            lemma_plain_newlines(toks@, q1 as int, q2 as int);
        }
        q = q2;
    }
}

/// Skips an optional `then`.
fn skip_then(toks: &Vec<Token>, p: usize) -> (q: usize)
    requires
        p <= toks.len(),
    ensures
        p <= q <= p + 1,
        q <= toks.len(),
        then_gap(toks@, p as int, q as int),
        q == if kw_at(toks@, p as int, Kw::Then) {
            p + 1
        } else {
            p as int
        },
{
    if at_kw(toks, p, Kw::Then) {
        p + 1
    } else {
        p
    }
}

/// Reads a statement. A plain statement (see `plain_stmt_end`) is always
/// read, up to where it ends.
#[verifier::rlimit(80)]
#[verifier::spinoff_prover]
pub fn parse_stmt(toks: &Vec<Token>, p: usize) -> (r: Parsed)
    requires
        p <= toks.len(),
    ensures
        parsed_at(toks@, p, r),
        r matches Ok((node, q)) ==> stmt_tree(toks@, p as int, q as int, node),
        plain_stmt_end(toks@, p as int) matches Some(e) ==> (r matches Ok((_, q)) && q == e),
    decreases toks.len() - p, 30nat,
{
    if p >= toks.len() {
        return Err(error_at(toks, p, "expected a statement"));
    }
    match toks[p].kind {
        TokKind::Kw(Kw::If) => parse_if(toks, p),
        TokKind::Kw(Kw::While) => parse_while(toks, p),
        TokKind::Kw(Kw::For) => parse_for(toks, p),
        TokKind::Kw(Kw::Try) => parse_try(toks, p),
        TokKind::Kw(Kw::Begin) => {
            let (stmts, q) = parse_stmts(toks, p + 1, Stop::End)?;
            let q2 = expect_kw(toks, q, Kw::End, "expected 'end'")?;
            let span = span_of(toks, p, q2);
            Ok((AST::BlockStatement(BlockStatement { _span: span, stmts }), q2))
        },
        TokKind::Kw(Kw::Function) if p + 1 < toks.len() && toks[p + 1].kind == TokKind::Ident => {
            let id = toks[p + 1].text.clone();
            let q = expect_sym(toks, p + 2, Sym::LParen, "expected '('")?;
            let (args, q2) = parse_params(toks, q, Sym::RParen)?;
            let (stmt, q3) = parse_stmt(toks, q2)?;
            let span = span_of(toks, p, q3);
            proof {
                assert(in_tokens(toks@, q2 as int));
            }
            let def = FunctionDefinition { _span: span, id: Some(id), args, stmt: Box::new(stmt) };
            Ok((AST::FunctionStatement(FunctionStatement::new(def, span)), q3))
        },
        TokKind::Kw(Kw::Record) if p + 1 < toks.len() && toks[p + 1].kind == TokKind::Ident => {
            let id = toks[p + 1].text.clone();
            let (stmts, q) = parse_stmts(toks, p + 2, Stop::End)?;
            let q2 = expect_kw(toks, q, Kw::End, "expected 'end'")?;
            let span = span_of(toks, p, q2);
            let def = RecordDefinition { _span: span, id: Some(id), stmts };
            Ok((AST::RecordStatement(RecordStatement::new(def, span)), q2))
        },
        TokKind::Kw(Kw::Return) => {
            let q = p + 1;
            proof {
                if full_end(toks@, q as int) is Some {
                    lemma_full_start(toks@, q as int);
                }
            }
            if at_newline(toks, q) || at_stop(toks, q, Stop::EndOrCase) || at_kw(toks, q, Kw::Else)
                || at_sym(toks, q, Sym::RBrace) {
                let span = span_of(toks, p, q);
                Ok((AST::ReturnStatement(ReturnStatement { _span: span, expr: None }), q))
            } else {
                let (e, q2) = parse_expr(toks, q)?;
                let span = span_of(toks, p, q2);
                Ok((AST::ReturnStatement(ReturnStatement { _span: span, expr: Some(Box::new(e)) }), q2))
            }
        },
        TokKind::Kw(Kw::Raise) => {
            let (e, q) = parse_expr(toks, p + 1)?;
            let span = span_of(toks, p, q);
            Ok((AST::RaiseStatement(RaiseStatement { _span: span, expr: Box::new(e) }), q))
        },
        TokKind::Kw(Kw::Continue) => {
            let span = span_of(toks, p, p + 1);
            Ok((AST::ContinueStatement(ContinueStatement { _span: span }), p + 1))
        },
        TokKind::Kw(Kw::Break) => {
            let span = span_of(toks, p, p + 1);
            Ok((AST::BreakStatement(BreakStatement { _span: span }), p + 1))
        },
        TokKind::Kw(Kw::Use) => {
            if !(p + 1 < toks.len() && toks[p + 1].kind == TokKind::Str) {
                return Err(error_at(toks, p + 1, "expected a string"));
            }
            let path = match ast::unescape_str(toks[p + 1].text.as_str()) {
                Some(s) => s,
                None => {
                    return Err(error_at(toks, p + 1, "string literal ends with a backslash"));
                },
            };
            let span = span_of(toks, p, p + 2);
            Ok((AST::UseStatement(UseStatement { _span: span, path }), p + 2))
        },
        _ => {
            let (e, q) = parse_expr(toks, p)?;
            let span = span_of(toks, p, q);
            Ok((AST::ExprStatement(ExprStatement { _span: span, expr: Box::new(e) }), q))
        },
    }
}

/// `if expr [then] stmt [else stmt]`; `else` may stand on the next line.
fn parse_if(toks: &Vec<Token>, p: usize) -> (r: Parsed)
    requires
        p < toks.len(),
        toks@[p as int].kind == TokKind::Kw(Kw::If),
    ensures
        parsed_at(toks@, p, r),
        r matches Ok((node, q)) ==> stmt_tree(toks@, p as int, q as int, node),
        plain_stmt_end(toks@, p as int) matches Some(e) ==> (r matches Ok((_, q)) && q == e),
    decreases toks.len() - p, 25nat,
{
    let (expr, q) = parse_expr(toks, p + 1)?;
    let m2 = skip_then(toks, q);
    let (then_, q2) = parse_stmt(toks, m2)?;
    let q3 = skip_newlines(toks, q2);
    proof {
        assert(in_tokens(toks@, q as int) && in_tokens(toks@, m2 as int) && in_tokens(toks@, q2 as int));
    }
    if at_kw(toks, q3, Kw::Else) {
        let (alt, q4) = parse_stmt(toks, q3 + 1)?;
        let span = span_of(toks, p, q4);
        proof {
            assert(in_tokens(toks@, q3 as int));
        }
        Ok((
            AST::IfStatement(
                IfStatement { _span: span, expr: Box::new(expr), then_: Box::new(then_), alt: Some(Box::new(alt)) },
            ),
            q4,
        ))
    } else {
        let span = span_of(toks, p, q2);
        Ok((
            AST::IfStatement(
                IfStatement { _span: span, expr: Box::new(expr), then_: Box::new(then_), alt: None },
            ),
            q2,
        ))
    }
}

/// `while expr [then] stmt`.
fn parse_while(toks: &Vec<Token>, p: usize) -> (r: Parsed)
    requires
        p < toks.len(),
        toks@[p as int].kind == TokKind::Kw(Kw::While),
    ensures
        parsed_at(toks@, p, r),
        r matches Ok((node, q)) ==> stmt_tree(toks@, p as int, q as int, node),
        plain_stmt_end(toks@, p as int) matches Some(e) ==> (r matches Ok((_, q)) && q == e),
    decreases toks.len() - p, 25nat,
{
    let (expr, q) = parse_expr(toks, p + 1)?;
    let m2 = skip_then(toks, q);
    let (then_, q2) = parse_stmt(toks, m2)?;
    let span = span_of(toks, p, q2);
    proof {
        assert(in_tokens(toks@, q as int) && in_tokens(toks@, m2 as int));
    }
    Ok((AST::WhileStatement(WhileStatement { _span: span, expr: Box::new(expr), then_: Box::new(then_) }), q2))
}

/// `for id = from to|downto to [step step] [then] stmt`, or
/// `for id in expr [then] stmt`.
#[verifier::rlimit(80)]
#[verifier::spinoff_prover]
fn parse_for(toks: &Vec<Token>, p: usize) -> (r: Parsed)
    requires
        p < toks.len(),
        toks@[p as int].kind == TokKind::Kw(Kw::For),
    ensures
        parsed_at(toks@, p, r),
        r matches Ok((node, q)) ==> stmt_tree(toks@, p as int, q as int, node),
        plain_stmt_end(toks@, p as int) matches Some(e) ==> (r matches Ok((_, q)) && q == e),
    decreases toks.len() - p, 25nat,
{
    proof {
        if p + 1 < toks.len() && toks@[p + 1].kind == TokKind::Ident {
            assert(plain_stmt_end(toks@, p as int) == plain_for_end(toks@, p as int));
        }
    }
    let id = expect_name(toks, p + 1)?;
    if at_kw(toks, p + 2, Kw::In) {
        let (expr, q) = parse_expr(toks, p + 3)?;
        let m2 = skip_then(toks, q);
        let (stmt, q2) = parse_stmt(toks, m2)?;
        let span = span_of(toks, p, q2);
        proof {
            assert(in_tokens(toks@, q as int) && in_tokens(toks@, m2 as int));
        }
        return Ok((
            AST::ForInStatement(ForInStatement { _span: span, id, expr: Box::new(expr), stmt: Box::new(stmt) }),
            q2,
        ));
    }
    let q = expect_sym(toks, p + 2, Sym::Assign, "expected '=' or 'in'")?;
    let (from, q1) = parse_expr(toks, q)?;
    let is_up = if at_kw(toks, q1, Kw::To) {
        true
    } else if at_kw(toks, q1, Kw::Downto) {
        false
    } else {
        return Err(error_at(toks, q1, "expected 'to' or 'downto'"));
    };
    let (to, q2) = parse_expr(toks, q1 + 1)?;
    let (step, q3) = if at_kw(toks, q2, Kw::Step) {
        parse_expr(toks, q2 + 1)?
    } else {
        let step_span = span_of(toks, p, q2);
        (AST::IntLiteral(IntLiteral { _span: step_span, val: 1 }), q2)
    };
    let m4 = skip_then(toks, q3);
    let (stmt, q4) = parse_stmt(toks, m4)?;
    let span = span_of(toks, p, q4);
    proof {
        assert(in_tokens(toks@, q1 as int) && in_tokens(toks@, q2 as int) && in_tokens(toks@, q3 as int)
            && in_tokens(toks@, m4 as int));
    }
    Ok((
        AST::ForStatement(
            ForStatement {
                _span: span,
                id,
                from: Box::new(from),
                to: Box::new(to),
                step: Box::new(step),
                stmt: Box::new(stmt),
                is_up,
            },
        ),
        q4,
    ))
}

/// `try` statements, then `case etype [as id]` handlers, then `end`.
fn parse_try(toks: &Vec<Token>, p: usize) -> (r: Parsed)
    requires
        p < toks.len(),
        toks@[p as int].kind == TokKind::Kw(Kw::Try),
    ensures
        parsed_at(toks@, p, r),
        r matches Ok((node, q)) ==> stmt_tree(toks@, p as int, q as int, node),
        plain_stmt_end(toks@, p as int) matches Some(e) ==> (r matches Ok((_, q)) && q == e),
    decreases toks.len() - p, 25nat,
{
    proof {
        assert(plain_stmt_end(toks@, p as int) is Some ==> plain_block_end(toks@, p + 1) is Some);
    }
    let (stmts, q0) = parse_stmts(toks, p + 1, Stop::EndOrCase)?;
    let mut q = q0;
    let mut cases: Vec<CaseStatement> = Vec::new();
    while at_kw(toks, q, Kw::Case)
        invariant
            p < q <= toks.len(),
            p + 1 <= q0 <= q,
            cases_read(toks@, q0 as int, q as int, cases@),
            plain_stmt_end(toks@, p as int) is Some ==> plain_cases_end(toks@, q as int) == plain_stmt_end(
                toks@,
                p as int,
            ),
        decreases toks.len() - q,
    {
        let c0 = q;
        let (etype, q1) = parse_expr(toks, q + 1)?;
        let (id, q2) = if at_kw(toks, q1, Kw::As) {
            let name = expect_name(toks, q1 + 1)?;
            let id_span = span_of(toks, q1 + 1, q1 + 2);
            (Some(Box::new(AST::Identifier(Identifier { _span: id_span, val: name }))), q1 + 2)
        } else {
            (None, q1)
        };
        let (body, q3) = parse_stmts(toks, q2, Stop::EndOrCase)?;
        let case_span = span_of(toks, c0, q2);
        let ghost prev = cases@;
        let case = CaseStatement { _span: case_span, etype: Box::new(etype), id, stmts: body };
        proof {
            assert(in_tokens(toks@, q1 as int) && in_tokens(toks@, q2 as int) && in_tokens(toks@, c0 as int));
            assert(case_read(toks@, c0 as int, q3 as int, case));
        }
        cases.push(case);
        proof {
            assert(cases@.drop_last() =~= prev);
            assert(cases_read(toks@, q0 as int, q3 as int, cases@));
        }
        q = q3;
    }
    let q4 = expect_kw(toks, q, Kw::End, "expected 'end'")?;
    let span = span_of(toks, p, q4);
    proof {
        assert(in_tokens(toks@, q0 as int));
    }
    Ok((AST::TryStatement(TryStatement { _span: span, stmts, cases }), q4))
}

/// Reads a whole program: its statements are read from all the tokens of
/// the source text. A source text that can be read as tokens, and whose
/// lines (as it is read) are empty or plain statements (see
/// `plain_stmt_end`), is always read.
pub fn start(input: &str) -> (r: Result<Vec<AST>, ParseError>)
    ensures
        r matches Ok(v) ==> exists|toks: Seq<Token>|
            #[trigger] lexer::tokens_of(input@, toks) && stmts_tree(toks, 0, toks.len() as int, v@),
        !lexer::too_long(input@) && (exists|toks: Seq<Token>| #[trigger] lexer::tokens_of(input@, toks)) && (
        forall|toks: Seq<Token>| #[trigger] lexer::tokens_of(input@, toks) ==> plain_program(toks, 0)) ==> r is Ok,
{
    proof {
        if exists|toks: Seq<Token>| #[trigger] lexer::tokens_of(input@, toks) {
            let w = choose|toks: Seq<Token>| #[trigger] lexer::tokens_of(input@, toks);
            assert(lexer::tokens_of(input@, w));
        }
    }
    let toks = lexer::lex(input)?;
    let (stmts, q) = parse_stmts(&toks, 0, Stop::Eof)?;
    if q < toks.len() {
        return Err(error_at(&toks, q, "unexpected token"));
    }
    assert(lexer::tokens_of(input@, toks@) && stmts_tree(toks@, 0, toks@.len() as int, stmts@));
    Ok(stmts)
}

} // verus!
