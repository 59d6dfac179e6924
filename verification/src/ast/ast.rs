//! Abstract syntax tree of hana programs.

use vstd::prelude::*;

use crate::compiler::{self, CompilerState};
use crate::vmbindings::vm::VmOpcode;

verus! {

/// Range of the source text (character positions, end exclusive) a node comes from.
pub type Span = (usize, usize);

/// A node of the abstract syntax tree.
#[derive(Debug)]
pub enum AST {
    Identifier(Identifier),
    StrLiteral(StrLiteral),
    IntLiteral(IntLiteral),
    FloatLiteral(FloatLiteral),
    ArrayExpr(ArrayExpr),
    FunctionDefinition(FunctionDefinition),
    RecordDefinition(RecordDefinition),
    UnaryExpr(UnaryExpr),
    CondExpr(CondExpr),
    BinExpr(BinExpr),
    MemExpr(MemExpr),
    CallExpr(CallExpr),
    IfStatement(IfStatement),
    WhileStatement(WhileStatement),
    ForStatement(ForStatement),
    ForInStatement(ForInStatement),
    ContinueStatement(ContinueStatement),
    BreakStatement(BreakStatement),
    FunctionStatement(FunctionStatement),
    ReturnStatement(ReturnStatement),
    RecordStatement(RecordStatement),
    TryStatement(TryStatement),
    CaseStatement(CaseStatement),
    RaiseStatement(RaiseStatement),
    ExprStatement(ExprStatement),
    UseStatement(UseStatement),
    BlockStatement(BlockStatement),
}

// # values
/// A variable name.
#[derive(Debug)]
pub struct Identifier {
    pub _span: Span,
    pub val: String,
}

/// A string literal: `val` is the string, `rawval` the text between the quotes.
#[derive(Debug)]
pub struct StrLiteral {
    pub _span: Span,
    pub val: String,
    pub rawval: String,
}

/// An integer literal.
#[derive(Debug)]
pub struct IntLiteral {
    pub _span: Span,
    pub val: i64,
}

/// A floating-point literal, held as the IEEE 754 binary64 encoding of its value.
#[derive(Debug)]
pub struct FloatLiteral {
    pub _span: Span,
    pub bits: u64,
}

/// An array literal `[a, b, ...]`.
#[derive(Debug)]
pub struct ArrayExpr {
    pub _span: Span,
    pub exprs: Vec<AST>,
}

/// A function: its name (if any), its parameters and its body.
#[derive(Debug)]
pub struct FunctionDefinition {
    pub _span: Span,
    pub id: Option<String>,
    pub args: Vec<String>,
    pub stmt: Box<AST>,
}

/// A record: its name (if any) and its body.
#[derive(Debug)]
pub struct RecordDefinition {
    pub _span: Span,
    pub id: Option<String>,
    pub stmts: Vec<AST>,
}

// # expressions
/// Unary operators.
#[derive(Debug, Clone, Copy, PartialEq, Eq, Structural)]
pub enum UnaryOp {
    Not,
    Neg,
}

/// `not x` or `-x`.
#[derive(Debug)]
pub struct UnaryExpr {
    pub _span: Span,
    pub op: UnaryOp,
    pub val: Box<AST>,
}

/// `cond ? then_ : alt`.
#[derive(Debug)]
pub struct CondExpr {
    pub _span: Span,
    pub cond: Box<AST>,
    pub then_: Box<AST>,
    pub alt: Box<AST>,
}

/// Binary operators.
#[derive(Debug, Clone, Copy, PartialEq, Eq, Structural)]
pub enum BinOp {
    Add,
    Sub,
    Mul,
    Div,
    Mod,
    And,
    Or,
    Eq,
    Neq,
    Gt,
    Lt,
    Geq,
    Leq,
    Assign,
    Adds,
    Subs,
    Muls,
    Divs,
    Mods,
    Of,
}

/// `left op right`.
#[derive(Debug)]
pub struct BinExpr {
    pub _span: Span,
    pub left: Box<AST>,
    pub right: Box<AST>,
    pub op: BinOp,
}

/// `left.right`, `left[right]` or `left::right`.
#[derive(Debug)]
pub struct MemExpr {
    pub _span: Span,
    pub left: Box<AST>,
    pub right: Box<AST>,
    /// The key is an expression (`a[b]`) rather than a name (`a.b`).
    pub is_expr: bool,
    /// The access uses `::`: a call through it does not pass `left`.
    pub is_namespace: bool,
}

/// `callee(args...)`.
#[derive(Debug)]
pub struct CallExpr {
    pub _span: Span,
    pub callee: Box<AST>,
    pub args: Vec<AST>,
}

/// One postfix operation of an expression, as the parser reads it.
#[derive(Debug)]
pub enum CallExprArm {
    MemExprIden(Box<AST>),
    MemExprNs(Box<AST>),
    MemExpr(Box<AST>),
    CallExpr(Vec<AST>),
}

// # statements
/// `if expr then_ stmt [else alt]`.
#[derive(Debug)]
pub struct IfStatement {
    pub _span: Span,
    pub expr: Box<AST>,
    pub then_: Box<AST>,
    pub alt: Option<Box<AST>>,
}

/// `while expr then_ stmt`.
#[derive(Debug)]
pub struct WhileStatement {
    pub _span: Span,
    pub expr: Box<AST>,
    pub then_: Box<AST>,
}

/// `for id = from to|downto to [step step] stmt`.
#[derive(Debug)]
pub struct ForStatement {
    pub _span: Span,
    pub id: String,
    pub from: Box<AST>,
    pub to: Box<AST>,
    pub step: Box<AST>,
    pub stmt: Box<AST>,
    pub is_up: bool,
}

/// `for id in expr stmt`.
#[derive(Debug)]
pub struct ForInStatement {
    pub _span: Span,
    pub id: String,
    pub expr: Box<AST>,
    pub stmt: Box<AST>,
}

/// `continue`.
#[derive(Debug)]
pub struct ContinueStatement {
    pub _span: Span,
}

/// `break`.
#[derive(Debug)]
pub struct BreakStatement {
    pub _span: Span,
}

/// `function name(args) stmt`.
#[derive(Debug)]
pub struct FunctionStatement {
    pub _span: Span,
    pub def: FunctionDefinition,
}

/// `return [expr]`.
#[derive(Debug)]
pub struct ReturnStatement {
    pub _span: Span,
    pub expr: Option<Box<AST>>,
}

/// `record name ... end`.
#[derive(Debug)]
pub struct RecordStatement {
    pub _span: Span,
    pub def: RecordDefinition,
}

/// `try stmts cases end`.
#[derive(Debug)]
pub struct TryStatement {
    pub _span: Span,
    pub stmts: Vec<AST>,
    pub cases: Vec<CaseStatement>,
}

/// `case etype [as id] stmts` inside a `try`.
#[derive(Debug)]
pub struct CaseStatement {
    pub _span: Span,
    pub etype: Box<AST>,
    pub id: Option<Box<AST>>,
    pub stmts: Vec<AST>,
}

/// `raise expr`.
#[derive(Debug)]
pub struct RaiseStatement {
    pub _span: Span,
    pub expr: Box<AST>,
}

/// An expression evaluated for its effect.
#[derive(Debug)]
pub struct ExprStatement {
    pub _span: Span,
    pub expr: Box<AST>,
}

/// `use "path"`.
#[derive(Debug)]
pub struct UseStatement {
    pub _span: Span,
    pub path: String,
}

/// `begin stmts end`.
#[derive(Debug)]
pub struct BlockStatement {
    pub _span: Span,
    pub stmts: Vec<AST>,
}


/// The character that the escape `\c` stands for.
pub open spec fn escaped_char(c: char) -> char {
    if c == 'n' {
        '\n'
    } else if c == 'r' {
        '\r'
    } else if c == 't' {
        '\t'
    } else {
        c
    }
}

/// The string that the text `s` of a string literal stands for: `\n`, `\r`
/// and `\t` are a newline, a carriage return and a tab, and a backslash
/// before any other character stands for that character. `None` if `s`
/// ends with an unpaired backslash.
pub open spec fn unescape(s: Seq<char>) -> Option<Seq<char>>
    decreases s.len(),
{
    if s.len() == 0 {
        Some(Seq::empty())
    } else if s[0] == '\\' {
        if s.len() < 2 {
            None
        } else {
            match unescape(s.subrange(2, s.len() as int)) {
                Some(rest) => Some(seq![escaped_char(s[1])] + rest),
                None => None,
            }
        }
    } else {
        match unescape(s.drop_first()) {
            Some(rest) => Some(seq![s[0]] + rest),
            None => None,
        }
    }
}

/// The string that the text of a string literal stands for (see `unescape`).
pub fn unescape_str(s: &str) -> (r: Option<String>)
    ensures
        r matches Some(v) ==> unescape(s@) == Some(v@),
        r is None ==> unescape(s@) is None,
{
    let cs = crate::text::chars_of(s);
    let n = cs.len();
    let mut out = String::new();
    let mut i: usize = 0;
    assert(cs@.subrange(0, n as int) =~= cs@);
    while i < n
        invariant
            cs@ == s@,
            n == cs@.len(),
            i <= n,
            unescape(s@) == match unescape(cs@.subrange(i as int, n as int)) {
                Some(rest) => Some(out@ + rest),
                None => None::<Seq<char>>,
            },
        decreases n - i,
    {
        let ghost t = cs@.subrange(i as int, n as int);
        if cs[i] == '\\' {
            if i + 1 >= n {
                assert(t.len() < 2);
                return None;
            }
            let c = cs[i + 1];
            let e = if c == 'n' {
                '\n'
            } else if c == 'r' {
                '\r'
            } else if c == 't' {
                '\t'
            } else {
                c
            };
            proof {
                assert(t.subrange(2, t.len() as int) =~= cs@.subrange(i + 2, n as int));
                assert(t[1] == c);
                match unescape(cs@.subrange(i + 2, n as int)) {
                    Some(rest) => {
                        assert(out@ + (seq![e] + rest) =~= out@.push(e) + rest);
                    },
                    None => {},
                }
            }
            crate::text::push_char(&mut out, e);
            i += 2;
        } else {
            let c = cs[i];
            proof {
                assert(t.drop_first() =~= cs@.subrange(i + 1, n as int));
                match unescape(cs@.subrange(i + 1, n as int)) {
                    Some(rest) => {
                        assert(out@ + (seq![c] + rest) =~= out@.push(c) + rest);
                    },
                    None => {},
                }
            }
            crate::text::push_char(&mut out, c);
            i += 1;
        }
    }
    assert(cs@.subrange(n as int, n as int) =~= Seq::<char>::empty());
    assert(out@ + Seq::<char>::empty() =~= out@);
    Some(out)
}

impl StrLiteral {
    /// A string literal from the text between its quotes.
    pub fn new(str: &String, span: Span) -> (r: StrLiteral)
        requires
            unescape(str@) is Some,
        ensures
            r._span == span,
            Some(r.val@) == unescape(str@),
            r.rawval@ == str@,
    {
        let val = match unescape_str(str.as_str()) {
            Some(v) => v,
            None => String::new(),
        };
        StrLiteral { _span: span, val, rawval: str.clone() }
    }
}

impl FunctionStatement {
    /// A statement that defines the function `def`.
    pub fn new(def: FunctionDefinition, span: Span) -> (r: FunctionStatement)
        ensures
            r._span == span,
            r.def == def,
    {
        FunctionStatement { _span: span, def }
    }

    /// The function it defines.
    pub fn def(&self) -> (d: &FunctionDefinition)
        ensures
            *d == self.def,
    {
        &self.def
    }
}

impl RecordStatement {
    /// A statement that defines the record `def`.
    pub fn new(def: RecordDefinition, span: Span) -> (r: RecordStatement)
        ensures
            r._span == span,
            r.def == def,
    {
        RecordStatement { _span: span, def }
    }

    /// The record it defines.
    pub fn def(&self) -> (d: &RecordDefinition)
        ensures
            *d == self.def,
    {
        &self.def
    }
}

/// Why code generation refused a tree.
#[derive(Debug, Clone, Copy, PartialEq, Eq, Structural)]
pub enum CodeGenError {
    /// The left side of an assignment can't be assigned to.
    InvalidLeftHandSide,
    /// A name was expected (function parameter, exception variable, record key).
    ExpectedIdentifier,
    /// A record body holds an expression that isn't an assignment.
    ExpectedAssignment,
    /// `return` outside of a function body.
    ReturnOutsideFunction,
    /// `continue` outside of a loop.
    ContinueOutsideLoop,
    /// `break` outside of a loop.
    BreakOutsideLoop,
    /// A function or record statement without a name.
    UnnamedDefinition,
    /// A `case` outside of a `try` statement.
    UnexpectedCase,
}

pub type EmitResult = Result<CompilerState, CodeGenError>;

impl AST {
    /// The span of the node.
    pub open spec fn spec_span(self) -> Span {
        match self {
            AST::Identifier(e) => e._span,
            AST::StrLiteral(e) => e._span,
            AST::IntLiteral(e) => e._span,
            AST::FloatLiteral(e) => e._span,
            AST::ArrayExpr(e) => e._span,
            AST::FunctionDefinition(e) => e._span,
            AST::RecordDefinition(e) => e._span,
            AST::UnaryExpr(e) => e._span,
            AST::CondExpr(e) => e._span,
            AST::BinExpr(e) => e._span,
            AST::MemExpr(e) => e._span,
            AST::CallExpr(e) => e._span,
            AST::IfStatement(e) => e._span,
            AST::WhileStatement(e) => e._span,
            AST::ForStatement(e) => e._span,
            AST::ForInStatement(e) => e._span,
            AST::ContinueStatement(e) => e._span,
            AST::BreakStatement(e) => e._span,
            AST::FunctionStatement(e) => e._span,
            AST::ReturnStatement(e) => e._span,
            AST::RecordStatement(e) => e._span,
            AST::TryStatement(e) => e._span,
            AST::CaseStatement(e) => e._span,
            AST::RaiseStatement(e) => e._span,
            AST::ExprStatement(e) => e._span,
            AST::UseStatement(e) => e._span,
            AST::BlockStatement(e) => e._span,
        }
    }

    /// The node with its span replaced by `span`.
    pub open spec fn respan(self, span: Span) -> AST {
        match self {
            AST::Identifier(e) => AST::Identifier(Identifier { _span: span, ..e }),
            AST::StrLiteral(e) => AST::StrLiteral(StrLiteral { _span: span, ..e }),
            AST::IntLiteral(e) => AST::IntLiteral(IntLiteral { _span: span, ..e }),
            AST::FloatLiteral(e) => AST::FloatLiteral(FloatLiteral { _span: span, ..e }),
            AST::ArrayExpr(e) => AST::ArrayExpr(ArrayExpr { _span: span, ..e }),
            AST::FunctionDefinition(e) => AST::FunctionDefinition(FunctionDefinition { _span: span, ..e }),
            AST::RecordDefinition(e) => AST::RecordDefinition(RecordDefinition { _span: span, ..e }),
            AST::UnaryExpr(e) => AST::UnaryExpr(UnaryExpr { _span: span, ..e }),
            AST::CondExpr(e) => AST::CondExpr(CondExpr { _span: span, ..e }),
            AST::BinExpr(e) => AST::BinExpr(BinExpr { _span: span, ..e }),
            AST::MemExpr(e) => AST::MemExpr(MemExpr { _span: span, ..e }),
            AST::CallExpr(e) => AST::CallExpr(CallExpr { _span: span, ..e }),
            AST::IfStatement(e) => AST::IfStatement(IfStatement { _span: span, ..e }),
            AST::WhileStatement(e) => AST::WhileStatement(WhileStatement { _span: span, ..e }),
            AST::ForStatement(e) => AST::ForStatement(ForStatement { _span: span, ..e }),
            AST::ForInStatement(e) => AST::ForInStatement(ForInStatement { _span: span, ..e }),
            AST::ContinueStatement(e) => AST::ContinueStatement(ContinueStatement { _span: span, ..e }),
            AST::BreakStatement(e) => AST::BreakStatement(BreakStatement { _span: span, ..e }),
            AST::FunctionStatement(e) => AST::FunctionStatement(FunctionStatement { _span: span, ..e }),
            AST::ReturnStatement(e) => AST::ReturnStatement(ReturnStatement { _span: span, ..e }),
            AST::RecordStatement(e) => AST::RecordStatement(RecordStatement { _span: span, ..e }),
            AST::TryStatement(e) => AST::TryStatement(TryStatement { _span: span, ..e }),
            AST::CaseStatement(e) => AST::CaseStatement(CaseStatement { _span: span, ..e }),
            AST::RaiseStatement(e) => AST::RaiseStatement(RaiseStatement { _span: span, ..e }),
            AST::ExprStatement(e) => AST::ExprStatement(ExprStatement { _span: span, ..e }),
            AST::UseStatement(e) => AST::UseStatement(UseStatement { _span: span, ..e }),
            AST::BlockStatement(e) => AST::BlockStatement(BlockStatement { _span: span, ..e }),
        }
    }
}

/// Declares a local if a scope is open (`Compiler::set_local`).
pub open spec fn set_local_spec(st: CompilerState, var: Seq<char>) -> CompilerState {
    if st.scopes.len() > 0 {
        st.add_local(var)
    } else {
        st
    }
}

/// Declares the parameters of a function, in order.
pub open spec fn add_locals(st: CompilerState, args: Seq<String>) -> CompilerState
    decreases args.len(),
{
    if args.len() == 0 {
        st
    } else {
        add_locals(set_local_spec(st, args[0]@), args.drop_first())
    }
}

/// The constant key of a member expression: the name `b` of `a.b` or the
/// string of `a['b']`.
pub open spec fn static_key(node: AST) -> Option<Seq<char>> {
    match node {
        AST::Identifier(id) => Some(id.val@),
        AST::StrLiteral(s) => Some(s.val@),
        _ => None,
    }
}

/// The opcode of an arithmetic or comparison operator.
pub open spec fn arith_opcode(op: BinOp) -> VmOpcode {
    match op {
        BinOp::Add => VmOpcode::OP_ADD,
        BinOp::Sub => VmOpcode::OP_SUB,
        BinOp::Mul => VmOpcode::OP_MUL,
        BinOp::Div => VmOpcode::OP_DIV,
        BinOp::Mod => VmOpcode::OP_MOD,
        BinOp::Eq => VmOpcode::OP_EQ,
        BinOp::Neq => VmOpcode::OP_NEQ,
        BinOp::Gt => VmOpcode::OP_GT,
        BinOp::Lt => VmOpcode::OP_LT,
        BinOp::Geq => VmOpcode::OP_GEQ,
        BinOp::Leq => VmOpcode::OP_LEQ,
        _ => VmOpcode::OP_OF,
    }
}

/// The opcode of a compound assignment (`+=` and the like).
pub open spec fn compound_opcode(op: BinOp) -> VmOpcode {
    match op {
        BinOp::Adds => VmOpcode::OP_IADD,
        BinOp::Subs => VmOpcode::OP_SUB,
        BinOp::Muls => VmOpcode::OP_IMUL,
        BinOp::Divs => VmOpcode::OP_DIV,
        _ => VmOpcode::OP_MOD,
    }
}

pub open spec fn is_compound(op: BinOp) -> bool {
    op == BinOp::Adds || op == BinOp::Subs || op == BinOp::Muls || op == BinOp::Divs
        || op == BinOp::Mods
}

/// `n + 1`, modulo 2^16.
pub open spec fn succ16(n: u16) -> u16 {
    if n == 0xffff {
        0
    } else {
        (n + 1) as u16
    }
}


/// Closes the source map entry opened at index `idx`.
pub open spec fn end_smap(r: EmitResult, idx: int) -> EmitResult {
    match r {
        Ok(st) => Ok(st.smap_end(idx)),
        Err(e) => Err(e),
    }
}

/// The code of a node.
pub open spec fn emit_spec(node: AST, st: CompilerState) -> EmitResult
    decreases node, 0nat,
{
    match node {
        AST::Identifier(e) => {
            let idx = st.smap.len() as int;
            Ok(st.smap_begin(e._span).get_var(e.val@).smap_end(idx))
        },
        AST::StrLiteral(e) => {
            let idx = st.smap.len() as int;
            Ok(st.smap_begin(e._span).push_op(VmOpcode::OP_PUSHSTR).push_str(e.val@).smap_end(idx))
        },
        AST::IntLiteral(e) => {
            let idx = st.smap.len() as int;
            Ok(int_literal_code(st.smap_begin(e._span), e.val).smap_end(idx))
        },
        AST::FloatLiteral(e) => {
            let idx = st.smap.len() as int;
            Ok(
                st.smap_begin(e._span).push_op(VmOpcode::OP_PUSHF64).push_bytes(compiler::be64(e.bits)).smap_end(
                    idx,
                ),
            )
        },
        AST::ArrayExpr(e) => {
            let idx = st.smap.len() as int;
            match emit_seq_spec(e.exprs@, st.smap_begin(e._span)) {
                Ok(s1) => Ok(
                    s1.push_op(VmOpcode::OP_PUSH64).push_bytes(compiler::be64(e.exprs@.len() as u64)).push_op(
                        VmOpcode::OP_ARRAY_LOAD,
                    ).smap_end(idx),
                ),
                Err(err) => Err(err),
            }
        },
        AST::FunctionDefinition(e) => emit_fndef_spec(e, st),
        AST::RecordDefinition(e) => emit_recdef_spec(e, st),
        AST::UnaryExpr(e) => {
            let idx = st.smap.len() as int;
            match emit_spec(*e.val, st.smap_begin(e._span)) {
                Ok(s1) => Ok(
                    s1.push_op(
                        if e.op == UnaryOp::Not {
                            VmOpcode::OP_NOT
                        } else {
                            VmOpcode::OP_NEGATE
                        },
                    ).smap_end(idx),
                ),
                Err(err) => Err(err),
            }
        },
        AST::CondExpr(e) => emit_cond_spec(e, st, false),
        AST::BinExpr(e) => emit_binexpr_spec(e, st),
        AST::MemExpr(e) => emit_mem_spec(e, st, false),
        AST::CallExpr(e) => emit_call_spec(e, st, false),
        AST::IfStatement(e) => emit_if_spec(e, st),
        AST::WhileStatement(e) => emit_while_spec(e, st),
        AST::ForStatement(e) => emit_for_spec(e, st),
        AST::ForInStatement(e) => emit_forin_spec(e, st),
        AST::ContinueStatement(e) => {
            let idx = st.smap.len() as int;
            let s1 = st.smap_begin(e._span).push_op(VmOpcode::OP_JMP);
            if s1.loops.len() == 0 {
                Err(CodeGenError::ContinueOutsideLoop)
            } else {
                Ok(s1.add_continue().smap_end(idx))
            }
        },
        AST::BreakStatement(e) => {
            let idx = st.smap.len() as int;
            let s1 = st.smap_begin(e._span).push_op(VmOpcode::OP_JMP);
            if s1.loops.len() == 0 {
                Err(CodeGenError::BreakOutsideLoop)
            } else {
                Ok(s1.add_break().smap_end(idx))
            }
        },
        AST::FunctionStatement(e) => match emit_fndef_spec(e.def, st) {
            Ok(s1) => match e.def.id {
                Some(id) => Ok(s1.set_var_fn(id@).push_op(VmOpcode::OP_POP)),
                None => Err(CodeGenError::UnnamedDefinition),
            },
            Err(err) => Err(err),
        },
        AST::ReturnStatement(e) => {
            let idx = st.smap.len() as int;
            let s1 = st.smap_begin(e._span);
            if s1.scopes.len() == 0 {
                Err(CodeGenError::ReturnOutsideFunction)
            } else {
                match e.expr {
                    Some(x) => match emit_tail_spec(*x, s1) {
                        Ok(s2) => Ok(s2.push_op(VmOpcode::OP_RET).smap_end(idx)),
                        Err(err) => Err(err),
                    },
                    None => Ok(
                        s1.push_op(VmOpcode::OP_PUSH_NIL).push_op(VmOpcode::OP_RET).smap_end(idx),
                    ),
                }
            }
        },
        AST::RecordStatement(e) => match emit_recdef_spec(e.def, st) {
            Ok(s1) => match e.def.id {
                Some(id) => Ok(s1.set_var(id@).push_op(VmOpcode::OP_POP)),
                None => Err(CodeGenError::UnnamedDefinition),
            },
            Err(err) => Err(err),
        },
        AST::TryStatement(e) => emit_try_spec(e, st),
        AST::CaseStatement(e) => Err(CodeGenError::UnexpectedCase),
        AST::RaiseStatement(e) => match emit_spec(*e.expr, st) {
            Ok(s1) => Ok(s1.push_op(VmOpcode::OP_RAISE)),
            Err(err) => Err(err),
        },
        AST::ExprStatement(e) => {
            let idx = st.smap.len() as int;
            match emit_spec(*e.expr, st.smap_begin(e._span)) {
                Ok(s1) => Ok(s1.push_op(VmOpcode::OP_POP).smap_end(idx)),
                Err(err) => Err(err),
            }
        },
        AST::UseStatement(e) => {
            let idx = st.smap.len() as int;
            Ok(st.smap_begin(e._span).push_op(VmOpcode::OP_USE).push_str(e.path@).smap_end(idx))
        },
        AST::BlockStatement(e) => {
            let idx = st.smap.len() as int;
            end_smap(emit_seq_spec(e.stmts@, st.smap_begin(e._span)), idx)
        },
    }
}

/// The code of an integer literal: the shortest push that holds its bits.
pub open spec fn int_literal_code(st: CompilerState, val: i64) -> CompilerState {
    let n = val as u64;
    if n <= 0xff {
        st.push_op(VmOpcode::OP_PUSH8).push_bytes(seq![n as u8])
    } else if n <= 0xffff {
        st.push_op(VmOpcode::OP_PUSH16).push_bytes(compiler::be16(n as u16))
    } else if n <= 0xffff_ffff {
        st.push_op(VmOpcode::OP_PUSH32).push_bytes(compiler::be32(n as u32))
    } else {
        st.push_op(VmOpcode::OP_PUSH64).push_bytes(compiler::be64(n))
    }
}

/// The code of a sequence of nodes, first to last.
pub open spec fn emit_seq_spec(nodes: Seq<AST>, st: CompilerState) -> EmitResult
    decreases nodes, 0nat,
{
    if nodes.len() == 0 {
        Ok(st)
    } else {
        match emit_spec(nodes[0], st) {
            Ok(s1) => emit_seq_spec(nodes.drop_first(), s1),
            Err(err) => Err(err),
        }
    }
}

/// The code of a sequence of nodes, last to first.
pub open spec fn emit_seq_rev_spec(nodes: Seq<AST>, st: CompilerState) -> EmitResult
    decreases nodes, 0nat,
{
    if nodes.len() == 0 {
        Ok(st)
    } else {
        match emit_spec(nodes.last(), st) {
            Ok(s1) => emit_seq_rev_spec(nodes.drop_last(), s1),
            Err(err) => Err(err),
        }
    }
}

/// The code of an expression in tail position: calls become tail calls.
pub open spec fn emit_tail_spec(node: AST, st: CompilerState) -> EmitResult
    decreases node, 1nat,
{
    match node {
        AST::CallExpr(e) => emit_call_spec(e, st, true),
        AST::CondExpr(e) => emit_cond_spec(e, st, true),
        _ => emit_spec(node, st),
    }
}

/// The code of a function definition.
pub open spec fn emit_fndef_spec(e: FunctionDefinition, st: CompilerState) -> EmitResult
    decreases e, 0nat,
{
    let idx = st.smap.len() as int;
    let s0 = st.smap_begin(e._span).push_op(VmOpcode::OP_DEF_FUNCTION_PUSH).push_bytes(
        compiler::be16(e.args@.len() as u16),
    );
    let function_end = s0.code.len() as int;
    let s1 = s0.push_bytes(compiler::be16(0));
    let s2 = match e.id {
        Some(id) => set_local_spec(s1, id@),
        None => s1,
    };
    let s3 = s2.open_scope().push_op(VmOpcode::OP_ENV_NEW);
    let nslot_label = s3.code.len() as int;
    let s4 = add_locals(s3.push_bytes(compiler::be16(0)), e.args@);
    match emit_spec(*e.stmt, s4) {
        Ok(s5) => {
            let s6 = match e.id {
                Some(id) => s5.add_symbol((s5.code.len() - 1) as usize, id),
                None => s5,
            };
            let s7 = s6.push_op(VmOpcode::OP_PUSH_NIL).push_op(VmOpcode::OP_RET);
            let nslots = s7.scopes.last().len() as u16;
            let s8 = s7.close_scope().fill16(nslot_label, nslots);
            Ok(s8.fill16(function_end, compiler::offset16(s8.code.len() as int, function_end)).smap_end(idx))
        },
        Err(err) => Err(err),
    }
}

/// The code of one statement of a record body: the value of the field
/// followed by its name.
pub open spec fn emit_record_field_spec(stmt: AST, st: CompilerState) -> EmitResult
    decreases stmt, 1nat,
{
    match stmt {
        AST::FunctionStatement(f) => match emit_fndef_spec(f.def, st) {
            Ok(s1) => match f.def.id {
                Some(id) => Ok(s1.push_op(VmOpcode::OP_PUSHSTR).push_str(id@)),
                None => Err(CodeGenError::UnnamedDefinition),
            },
            Err(err) => Err(err),
        },
        AST::RecordStatement(r) => match emit_recdef_spec(r.def, st) {
            Ok(s1) => match r.def.id {
                Some(id) => Ok(s1.push_op(VmOpcode::OP_PUSHSTR).push_str(id@)),
                None => Err(CodeGenError::UnnamedDefinition),
            },
            Err(err) => Err(err),
        },
        AST::ExprStatement(x) => match *x.expr {
            AST::BinExpr(b) => match *b.left {
                AST::Identifier(id) => match emit_spec(*b.right, st) {
                    Ok(s1) => Ok(s1.push_op(VmOpcode::OP_PUSHSTR).push_str(id.val@)),
                    Err(err) => Err(err),
                },
                _ => Err(CodeGenError::ExpectedIdentifier),
            },
            _ => Err(CodeGenError::ExpectedAssignment),
        },
        _ => Ok(st),
    }
}

/// The code of the body of a record: each field value followed by its name.
pub open spec fn emit_record_body_spec(stmts: Seq<AST>, st: CompilerState) -> EmitResult
    decreases stmts, 0nat,
{
    if stmts.len() == 0 {
        Ok(st)
    } else {
        match emit_record_field_spec(stmts[0], st) {
            Ok(s1) => emit_record_body_spec(stmts.drop_first(), s1),
            Err(err) => Err(err),
        }
    }
}

/// The code of a record definition.
pub open spec fn emit_recdef_spec(e: RecordDefinition, st: CompilerState) -> EmitResult
    decreases e, 0nat,
{
    let idx = st.smap.len() as int;
    match emit_record_body_spec(e.stmts@, st.smap_begin(e._span).push_op(VmOpcode::OP_PUSH_NIL)) {
        Ok(s1) => Ok(s1.push_op(VmOpcode::OP_DICT_LOAD).smap_end(idx)),
        Err(err) => Err(err),
    }
}

/// The code of a conditional expression.
pub open spec fn emit_cond_spec(e: CondExpr, st: CompilerState, is_tail: bool) -> EmitResult
    decreases e, 0nat,
{
    let idx = st.smap.len() as int;
    match emit_spec(*e.cond, st.smap_begin(e._span)) {
        Ok(s1) => {
            let s2 = s1.push_op(VmOpcode::OP_JNCOND);
            let else_label = s2.code.len() as int;
            let s3 = s2.push_bytes(compiler::be16(0));
            let then_r = if is_tail {
                emit_tail_spec(*e.then_, s3)
            } else {
                emit_spec(*e.then_, s3)
            };
            match then_r {
                Ok(s4) => {
                    let s5 = s4.push_op(VmOpcode::OP_JMP);
                    let done_label = s5.code.len() as int;
                    let s6 = s5.push_bytes(compiler::be16(0));
                    let s7 = s6.fill16(else_label, compiler::offset16(s6.code.len() as int, else_label));
                    let alt_r = if is_tail {
                        match *e.alt {
                            AST::CallExpr(c) => emit_call_spec(c, s7, true),
                            AST::CondExpr(c) => emit_cond_spec(c, s7, true),
                            _ => emit_spec(*e.alt, s7),
                        }
                    } else {
                        emit_spec(*e.alt, s7)
                    };
                    match alt_r {
                        Ok(s8) => Ok(
                            s8.fill16(done_label, compiler::offset16(s8.code.len() as int, done_label)).smap_end(
                                idx,
                            ),
                        ),
                        Err(err) => Err(err),
                    }
                },
                Err(err) => Err(err),
            }
        },
        Err(err) => Err(err),
    }
}

/// The code of a member expression; `is_method_call` keeps the object on
/// the stack under the value.
pub open spec fn emit_mem_spec(e: MemExpr, st: CompilerState, is_method_call: bool) -> EmitResult
    decreases e, 0nat,
{
    let idx = st.smap.len() as int;
    match emit_spec(*e.left, st.smap_begin(e._span)) {
        Ok(s1) => match static_key(*e.right) {
            Some(key) if !e.is_expr => Ok(
                s1.push_op(
                    if is_method_call {
                        VmOpcode::OP_MEMBER_GET_NO_POP
                    } else {
                        VmOpcode::OP_MEMBER_GET
                    },
                ).push_str(key).smap_end(idx),
            ),
            _ => match emit_spec(*e.right, s1) {
                Ok(s2) => Ok(
                    s2.push_op(
                        if is_method_call {
                            VmOpcode::OP_INDEX_GET_NO_POP
                        } else {
                            VmOpcode::OP_INDEX_GET
                        },
                    ).smap_end(idx),
                ),
                Err(err) => Err(err),
            },
        },
        Err(err) => Err(err),
    }
}

/// The code of a call; `is_tail` makes it a tail call.
pub open spec fn emit_call_spec(e: CallExpr, st: CompilerState, is_tail: bool) -> EmitResult
    decreases e, 0nat,
{
    let idx = st.smap.len() as int;
    let op = if is_tail {
        VmOpcode::OP_RETCALL
    } else {
        VmOpcode::OP_CALL
    };
    let nargs = e.args@.len() as u16;
    match emit_seq_rev_spec(e.args@, st.smap_begin(e._span)) {
        Ok(s1) => match *e.callee {
            AST::MemExpr(m) => if m.is_namespace {
                match emit_mem_spec(m, s1, false) {
                    Ok(s2) => Ok(s2.push_op(op).push_bytes(compiler::be16(nargs)).smap_end(idx)),
                    Err(err) => Err(err),
                }
            } else {
                match emit_mem_spec(m, s1, true) {
                    Ok(s2) => Ok(s2.push_op(op).push_bytes(compiler::be16(succ16(nargs))).smap_end(idx)),
                    Err(err) => Err(err),
                }
            },
            _ => match emit_spec(*e.callee, s1) {
                Ok(s2) => Ok(s2.push_op(op).push_bytes(compiler::be16(nargs)).smap_end(idx)),
                Err(err) => Err(err),
            },
        },
        Err(err) => Err(err),
    }
}

/// Declares the parameters of a function defined by `f(a, b) = ...`.
pub open spec fn bind_args_spec(args: Seq<AST>, st: CompilerState) -> EmitResult
    decreases args.len(),
{
    if args.len() == 0 {
        Ok(st)
    } else {
        match args[0] {
            AST::Identifier(id) => bind_args_spec(args.drop_first(), set_local_spec(st, id.val@)),
            _ => Err(CodeGenError::ExpectedIdentifier),
        }
    }
}

/// The code of the body of `f(args) = body`: the value of `body`, returned.
pub open spec fn emit_fn_body_spec(body: AST, st: CompilerState) -> EmitResult
    decreases body, 1nat,
{
    match body {
        AST::CallExpr(c) => emit_call_spec(c, st, true),
        AST::CondExpr(c) => match emit_cond_spec(c, st, true) {
            Ok(s1) => Ok(s1.push_op(VmOpcode::OP_RET)),
            Err(err) => Err(err),
        },
        _ => match emit_spec(body, st) {
            Ok(s1) => Ok(s1.push_op(VmOpcode::OP_RET)),
            Err(err) => Err(err),
        },
    }
}

/// The code of `f(args) = body`, which defines the function `f`.
pub open spec fn emit_fn_assign_spec(e: BinExpr, st: CompilerState) -> EmitResult
    decreases e, 0nat,
{
    match *e.left {
        AST::CallExpr(call) => match *call.callee {
            AST::Identifier(name) => emit_named_fn_spec(name.val@, call.args@, *e.right, st),
            _ => Err(CodeGenError::ExpectedIdentifier),
        },
        _ => Err(CodeGenError::InvalidLeftHandSide),
    }
}

/// The start of the code of a function named `name` with `nargs`
/// parameters, up to and including the label of its number of locals.
#[verifier::opaque]
pub open spec fn fn_prologue_spec(st: CompilerState, nargs: u16, name: Seq<char>) -> CompilerState {
    set_local_spec(
        st.push_op(VmOpcode::OP_DEF_FUNCTION_PUSH).push_bytes(compiler::be16(nargs)).push_bytes(
            compiler::be16(0),
        ),
        name,
    ).open_scope().push_op(VmOpcode::OP_ENV_NEW).push_bytes(compiler::be16(0))
}

/// The end of the code of a function named `name`: its number of locals and
/// its length filled in, then, unless the name is `_`, its assignment.
#[verifier::opaque]
pub open spec fn fn_epilogue_spec(st: CompilerState, name: Seq<char>, function_end: int, nslot_label: int) -> CompilerState {
    let s6 = st.close_scope().fill16(nslot_label, st.scopes.last().len() as u16);
    let s7 = s6.fill16(function_end, compiler::offset16(s6.code.len() as int, function_end));
    if name != seq!['_'] {
        s7.set_var_fn(name)
    } else {
        s7
    }
}

/// The code of the function `name(args) = body`: the function, then, unless
/// the name is `_`, its assignment to `name`.
pub open spec fn emit_named_fn_spec(name: Seq<char>, args: Seq<AST>, body: AST, st: CompilerState) -> EmitResult
    decreases body, 2nat,
{
    match bind_args_spec(args, fn_prologue_spec(st, args.len() as u16, name)) {
        Ok(s3) => match emit_fn_body_spec(body, s3) {
            Ok(s5) => Ok(fn_epilogue_spec(s5, name, st.code.len() + 3int, st.code.len() + 6int)),
            Err(err) => Err(err),
        },
        Err(err) => Err(err),
    }
}

/// The code of an assignment `left = right`, before its source map entry
/// is closed.
pub open spec fn emit_assign_spec(e: BinExpr, s0: CompilerState) -> EmitResult
    decreases e, 1nat,
{
    match *e.left {
        AST::Identifier(id) => match emit_spec(*e.right, s0) {
            Ok(s1) => Ok(s1.set_var(id.val@)),
            Err(err) => Err(err),
        },
        AST::MemExpr(m) => match emit_spec(*e.right, s0) {
            Ok(s1) => match emit_spec(*m.left, s1) {
                Ok(s2) => match static_key(*m.right) {
                    Some(key) if !m.is_expr => Ok(
                        s2.push_op(VmOpcode::OP_MEMBER_SET).push_str(key),
                    ),
                    _ => match emit_spec(*m.right, s2) {
                        Ok(s3) => Ok(s3.push_op(VmOpcode::OP_INDEX_SET)),
                        Err(err) => Err(err),
                    },
                },
                Err(err) => Err(err),
            },
            Err(err) => Err(err),
        },
        AST::CallExpr(c) => emit_fn_assign_spec(e, s0),
        _ => Err(CodeGenError::InvalidLeftHandSide),
    }
}

/// The code of a compound assignment such as `left += right`, with its
/// source map entry `idx` closed.
pub open spec fn emit_compound_spec(e: BinExpr, s0: CompilerState, idx: int) -> EmitResult
    decreases e, 1nat,
{
    let op = compound_opcode(e.op);
    let in_place = op == VmOpcode::OP_IADD || op == VmOpcode::OP_IMUL;
    match *e.left {
        AST::Identifier(id) => match emit_spec(*e.right, s0.get_var(id.val@)) {
            Ok(s1) => {
                let s2 = s1.push_op(op);
                let addr = s2.code.len() as int;
                let s3 = if in_place {
                    s2.push_bytes(seq![0u8])
                } else {
                    s2
                };
                let s4 = s3.set_var(id.val@);
                let s5 = if in_place {
                    s4.with_code(s4.code.update(addr, (s4.code.len() - addr) as u8))
                } else {
                    s4
                };
                Ok(s5.smap_end(idx))
            },
            Err(err) => Err(err),
        },
        AST::MemExpr(m) => match emit_spec(*m.left, s0) {
            Ok(s1) => {
                let key = static_key(*m.right);
                let is_static = key is Some && !m.is_expr;
                let s2r = if is_static {
                    Ok(s1.push_op(VmOpcode::OP_MEMBER_GET_NO_POP).push_str(key->0))
                } else {
                    match emit_spec(*m.right, s1) {
                        Ok(s) => Ok(s.push_op(VmOpcode::OP_INDEX_GET_NO_POP)),
                        Err(err) => Err(err),
                    }
                };
                match s2r {
                    Ok(s2) => match emit_spec(*e.right, s2) {
                        Ok(s3) => {
                            let s4 = s3.push_op(op);
                            let addr = s4.code.len() as int;
                            let s5 = if in_place {
                                s4.push_bytes(seq![0u8])
                            } else {
                                s4
                            };
                            let s6 = if in_place {
                                s5.with_code(
                                    s5.code.update(addr, (s5.code.len() - addr) as u8),
                                )
                            } else {
                                s5
                            };
                            if is_static {
                                Ok(
                                    s6.push_op(VmOpcode::OP_SWAP).push_op(
                                        VmOpcode::OP_MEMBER_SET,
                                    ).push_str(key->0).smap_end(idx),
                                )
                            } else {
                                match emit_spec(*m.right, s6.push_op(VmOpcode::OP_SWAP)) {
                                    Ok(s7) => Ok(
                                        s7.push_op(VmOpcode::OP_INDEX_SET).smap_end(idx),
                                    ),
                                    Err(err) => Err(err),
                                }
                            }
                        },
                        Err(err) => Err(err),
                    },
                    Err(err) => Err(err),
                }
            },
            Err(err) => Err(err),
        },
        _ => Err(CodeGenError::InvalidLeftHandSide),
    }
}

/// The code of `left and right` or `left or right`, with its source map
/// entry `idx` closed.
pub open spec fn emit_logic_spec(e: BinExpr, s0: CompilerState, idx: int) -> EmitResult
    decreases e, 1nat,
{
    match emit_spec(*e.left, s0) {
        Ok(s1) => {
            let s2 = s1.push_op(
                if e.op == BinOp::And {
                    VmOpcode::OP_JNCOND_NO_POP
                } else {
                    VmOpcode::OP_JCOND_NO_POP
                },
            );
            let label = s2.code.len() as int;
            let s3 = s2.push_bytes(compiler::be16(0));
            let s4 = if e.op == BinOp::And {
                s3.push_op(VmOpcode::OP_POP)
            } else {
                s3
            };
            match emit_spec(*e.right, s4) {
                Ok(s5) => Ok(
                    s5.fill16(label, compiler::offset16(s5.code.len() as int, label)).smap_end(idx),
                ),
                Err(err) => Err(err),
            }
        },
        Err(err) => Err(err),
    }
}

/// The code of a binary expression.
pub open spec fn emit_binexpr_spec(e: BinExpr, st: CompilerState) -> EmitResult
    decreases e, 2nat,
{
    let idx = st.smap.len() as int;
    let s0 = st.smap_begin(e._span);
    if e.op == BinOp::Assign {
        end_smap(emit_assign_spec(e, s0), idx)
    } else if is_compound(e.op) {
        emit_compound_spec(e, s0, idx)
    } else if e.op == BinOp::And || e.op == BinOp::Or {
        emit_logic_spec(e, s0, idx)
    } else {
        match emit_spec(*e.left, s0) {
            Ok(s1) => match emit_spec(*e.right, s1) {
                Ok(s2) => Ok(s2.push_op(arith_opcode(e.op)).smap_end(idx)),
                Err(err) => Err(err),
            },
            Err(err) => Err(err),
        }
    }
}

/// The code of an `if` statement.
pub open spec fn emit_if_spec(e: IfStatement, st: CompilerState) -> EmitResult
    decreases e, 0nat,
{
    let idx = st.smap.len() as int;
    match emit_spec(*e.expr, st.smap_begin(e._span)) {
        Ok(s1) => {
            let s2 = s1.push_op(VmOpcode::OP_JNCOND);
            let else_label = s2.code.len() as int;
            match emit_spec(*e.then_, s2.push_bytes(compiler::be16(0))) {
                Ok(s3) => match e.alt {
                    Some(alt) => {
                        let s4 = s3.push_op(VmOpcode::OP_JMP);
                        let done_label = s4.code.len() as int;
                        let s5 = s4.push_bytes(compiler::be16(0));
                        let s6 = s5.fill16(else_label, compiler::offset16(s5.code.len() as int, else_label));
                        match emit_spec(*alt, s6) {
                            Ok(s7) => Ok(
                                s7.fill16(done_label, compiler::offset16(s7.code.len() as int, done_label)).smap_end(
                                    idx,
                                ),
                            ),
                            Err(err) => Err(err),
                        }
                    },
                    None => Ok(
                        s3.fill16(else_label, compiler::offset16(s3.code.len() as int, else_label)).smap_end(
                            idx,
                        ),
                    ),
                },
                Err(err) => Err(err),
            }
        },
        Err(err) => Err(err),
    }
}

/// The code of a `while` statement.
pub open spec fn emit_while_spec(e: WhileStatement, st: CompilerState) -> EmitResult
    decreases e, 0nat,
{
    let idx = st.smap.len() as int;
    let s1 = st.smap_begin(e._span).push_op(VmOpcode::OP_JMP);
    let begin_label = s1.code.len() as int;
    let s2 = s1.push_bytes(compiler::be16(0));
    let then_label = s2.code.len() as int;
    match emit_spec(*e.then_, s2.open_loop()) {
        Ok(s3) => {
            let s4 = s3.fill16(begin_label, compiler::offset16(s3.code.len() as int, begin_label));
            let next_it = s4.code.len() as int;
            match emit_spec(*e.expr, s4) {
                Ok(s5) => {
                    let s6 = s5.push_op(VmOpcode::OP_JCOND);
                    let s7 = s6.push_bytes(compiler::be16(compiler::offset16(then_label as int, s6.code.len() as int)));
                    Ok(s7.close_loop(next_it as int, s7.code.len() as int).smap_end(idx))
                },
                Err(err) => Err(err),
            }
        },
        Err(err) => Err(err),
    }
}

/// The code of a `for` statement. The counter takes every value from
/// `from` up to (or down to) `to`, both included: after the body, the loop
/// ends if the counter has reached `to`, before it is stepped, so that it
/// keeps the last value the body saw. `continue` jumps to that test.
pub open spec fn emit_for_spec(e: ForStatement, st: CompilerState) -> EmitResult
    decreases e, 0nat,
{
    let idx = st.smap.len() as int;
    let (reached, within) = if e.is_up {
        (VmOpcode::OP_GEQ, VmOpcode::OP_LEQ)
    } else {
        (VmOpcode::OP_LEQ, VmOpcode::OP_GEQ)
    };
    match emit_spec(*e.from, st.smap_begin(e._span)) {
        Ok(s1) => {
            let s2 = s1.set_var(e.id@).push_op(VmOpcode::OP_POP).push_op(VmOpcode::OP_JMP);
            let begin_label = s2.code.len() as int;
            let s3 = s2.push_bytes(compiler::be16(0));
            let then_label = s3.code.len() as int;
            match emit_spec(*e.stmt, s3.open_loop()) {
                Ok(s4) => {
                    let next_it = s4.code.len() as int;
                    match emit_spec(*e.to, s4.get_var(e.id@)) {
                        Ok(s5) => {
                            let s6 = s5.push_op(reached).push_op(VmOpcode::OP_JCOND);
                            let exit_label = s6.code.len() as int;
                            let s7 = s6.push_bytes(compiler::be16(0));
                            match emit_spec(*e.step, s7.get_var(e.id@)) {
                                Ok(s8) => {
                                    let s9 = s8.push_op(
                                        if e.is_up {
                                            VmOpcode::OP_ADD
                                        } else {
                                            VmOpcode::OP_SUB
                                        },
                                    ).set_var(e.id@).push_op(VmOpcode::OP_POP);
                                    let s10 = s9.fill16(
                                        begin_label,
                                        compiler::offset16(s9.code.len() as int, begin_label),
                                    );
                                    match emit_spec(*e.to, s10.get_var(e.id@)) {
                                        Ok(s11) => {
                                            let s12 = s11.push_op(within).push_op(VmOpcode::OP_JCOND);
                                            let s13 = s12.push_bytes(
                                                compiler::be16(compiler::offset16(then_label, s12.code.len() as int)),
                                            );
                                            let s14 = s13.fill16(
                                                exit_label,
                                                compiler::offset16(s13.code.len() as int, exit_label),
                                            );
                                            Ok(s14.close_loop(next_it, s14.code.len() as int).smap_end(idx))
                                        },
                                        Err(err) => Err(err),
                                    }
                                },
                                Err(err) => Err(err),
                            }
                        },
                        Err(err) => Err(err),
                    }
                },
                Err(err) => Err(err),
            }
        },
        Err(err) => Err(err),
    }
}

/// The code of a `for ... in` statement.
pub open spec fn emit_forin_spec(e: ForInStatement, st: CompilerState) -> EmitResult
    decreases e, 0nat,
{
    let idx = st.smap.len() as int;
    match emit_spec(*e.expr, st.smap_begin(e._span)) {
        Ok(s1) => {
            let next_it = s1.code.len() as int;
            let s2 = s1.push_op(VmOpcode::OP_FOR_IN);
            let end_label = s2.code.len() as int;
            let s3 = s2.push_bytes(compiler::be16(0)).set_var(e.id@).push_op(VmOpcode::OP_POP);
            match emit_spec(*e.stmt, s3) {
                Ok(s4) => {
                    let s5 = s4.push_op(VmOpcode::OP_JMP);
                    let s6 = s5.push_bytes(compiler::be16(compiler::offset16(next_it as int, s5.code.len() as int)));
                    Ok(s6.fill16(end_label, compiler::offset16(s6.code.len() as int, end_label)).smap_end(idx))
                },
                Err(err) => Err(err),
            }
        },
        Err(err) => Err(err),
    }
}

/// The code of the handlers of a `try` statement; `holes` collects the
/// labels that jump past the guarded statements.
pub open spec fn emit_cases_spec(cases: Seq<CaseStatement>, st: CompilerState, holes: Seq<usize>) -> Result<
    (CompilerState, Seq<usize>),
    CodeGenError,
>
    decreases cases, 0nat,
{
    if cases.len() == 0 {
        Ok((st, holes))
    } else {
        let case = cases[0];
        let s0 = st.push_op(VmOpcode::OP_DEF_FUNCTION_PUSH).push_bytes(
            compiler::be16(
                if case.id is Some {
                    1u16
                } else {
                    0u16
                },
            ),
        );
        let body_start = s0.code.len() as int;
        let s1 = s0.push_bytes(compiler::be16(0));
        let s2r = match case.id {
            Some(id) => match *id {
                AST::Identifier(name) => Ok(s1.set_var(name.val@).push_op(VmOpcode::OP_POP)),
                _ => Err(CodeGenError::ExpectedIdentifier),
            },
            None => Ok(s1),
        };
        match s2r {
            Ok(s2) => match emit_seq_spec(case.stmts@, s2) {
                Ok(s3) => {
                    let s4 = s3.push_op(VmOpcode::OP_EXFRAME_RET);
                    let hole = s4.code.len() as usize;
                    let s5 = s4.push_bytes(compiler::be16(0));
                    let s6 = s5.fill16(body_start, compiler::offset16(s5.code.len() as int, body_start));
                    match emit_spec(*case.etype, s6) {
                        Ok(s7) => emit_cases_spec(cases.drop_first(), s7, holes.push(hole)),
                        Err(err) => Err(err),
                    }
                },
                Err(err) => Err(err),
            },
            Err(err) => Err(err),
        }
    }
}

/// The code of a `try` statement.
pub open spec fn emit_try_spec(e: TryStatement, st: CompilerState) -> EmitResult
    decreases e, 0nat,
{
    let idx = st.smap.len() as int;
    match emit_cases_spec(e.cases@, st.smap_begin(e._span).push_op(VmOpcode::OP_PUSH_NIL), Seq::empty()) {
        Ok((s1, holes)) => match emit_seq_spec(e.stmts@, s1.push_op(VmOpcode::OP_TRY)) {
            Ok(s2) => Ok(s2.with_code(compiler::fill_all(s2.code, holes, s2.code.len() as int)).smap_end(idx)),
            Err(err) => Err(err),
        },
        Err(err) => Err(err),
    }
}

/// Law: the code of an arithmetic or comparison expression `l op r` is
/// the code of `l`, then the code of `r`, then one byte, the opcode of the
/// operator: `+` 10 (OP_ADD), `-` 11 (OP_SUB), `*` 12 (OP_MUL), `/` 13
/// (OP_DIV), `mod` 14 (OP_MOD), `<` 22 (OP_LT), `<=` 23 (OP_LEQ), `>` 24
/// (OP_GT), `>=` 25 (OP_GEQ), `==` 26 (OP_EQ), `!=` 27 (OP_NEQ), `of` 28
/// (OP_OF). An error in either operand is the error of the expression.
pub proof fn law_arith_code(e: BinExpr, st: CompilerState)
    requires
        e.op == BinOp::Add || e.op == BinOp::Sub || e.op == BinOp::Mul || e.op == BinOp::Div || e.op
            == BinOp::Mod || e.op == BinOp::Lt || e.op == BinOp::Leq || e.op == BinOp::Gt || e.op == BinOp::Geq
            || e.op == BinOp::Eq || e.op == BinOp::Neq || e.op == BinOp::Of,
    ensures
        match emit_spec(*e.left, st.smap_begin(e._span)) {
            Ok(s1) => match emit_spec(*e.right, s1) {
                Ok(s2) => emit_spec(AST::BinExpr(e), st) matches Ok(s) && s.code == s2.code.push(
                    if e.op == BinOp::Add {
                        10u8
                    } else if e.op == BinOp::Sub {
                        11u8
                    } else if e.op == BinOp::Mul {
                        12u8
                    } else if e.op == BinOp::Div {
                        13u8
                    } else if e.op == BinOp::Mod {
                        14u8
                    } else if e.op == BinOp::Lt {
                        22u8
                    } else if e.op == BinOp::Leq {
                        23u8
                    } else if e.op == BinOp::Gt {
                        24u8
                    } else if e.op == BinOp::Geq {
                        25u8
                    } else if e.op == BinOp::Eq {
                        26u8
                    } else if e.op == BinOp::Neq {
                        27u8
                    } else {
                        28u8
                    },
                ),
                Err(err) => emit_spec(AST::BinExpr(e), st) == Err::<CompilerState, CodeGenError>(err),
            },
            Err(err) => emit_spec(AST::BinExpr(e), st) == Err::<CompilerState, CodeGenError>(err),
        },
{
    assert(emit_spec(AST::BinExpr(e), st) == emit_binexpr_spec(e, st));
}

/// Law: the code of `not x` is the code of `x` then OP_NOT (21); the code
/// of `-x` is the code of `x` then OP_NEGATE (20).
pub proof fn law_unary_code(e: UnaryExpr, st: CompilerState)
    ensures
        match emit_spec(*e.val, st.smap_begin(e._span)) {
            Ok(s1) => emit_spec(AST::UnaryExpr(e), st) matches Ok(s) && s.code == s1.code.push(
                if e.op == UnaryOp::Not {
                    21u8
                } else {
                    20u8
                },
            ),
            Err(err) => emit_spec(AST::UnaryExpr(e), st) == Err::<CompilerState, CodeGenError>(err),
        },
{
}

/// Lemma: storing into a variable only appends code.
proof fn lemma_set_var_appends(st: CompilerState, var: Seq<char>)
    ensures
        st.set_var(var).code.len() >= st.code.len(),
        forall|k: int| 0 <= k < st.code.len() ==> #[trigger] st.set_var(var).code[k] == st.code[k],
{
}

/// Law: the code of a compound assignment `x op= r` to a name is the code
/// that reads `x`, the code of `r`, then the opcode of the operator: `+=`
/// 15 (OP_IADD), `-=` 11 (OP_SUB), `*=` 16 (OP_IMUL), `/=` 13 (OP_DIV),
/// `mod=` 14 (OP_MOD), followed by the code that stores `x`.
pub proof fn law_compound_code(e: BinExpr, st: CompilerState)
    requires
        e.op == BinOp::Adds || e.op == BinOp::Subs || e.op == BinOp::Muls || e.op == BinOp::Divs || e.op
            == BinOp::Mods,
        *e.left is Identifier,
    ensures
        match emit_spec(*e.right, st.smap_begin(e._span).get_var((*e.left)->Identifier_0.val@)) {
            Ok(s1) => emit_spec(AST::BinExpr(e), st) matches Ok(s) && s.code.len() > s1.code.len() && s.code.take(
                s1.code.len() as int,
            ) == s1.code && s.code[s1.code.len() as int] == if e.op == BinOp::Adds {
                15u8
            } else if e.op == BinOp::Subs {
                11u8
            } else if e.op == BinOp::Muls {
                16u8
            } else if e.op == BinOp::Divs {
                13u8
            } else {
                14u8
            },
            Err(err) => emit_spec(AST::BinExpr(e), st) == Err::<CompilerState, CodeGenError>(err),
        },
{
    assert(emit_spec(AST::BinExpr(e), st) == emit_binexpr_spec(e, st));
    let idx = st.smap.len() as int;
    let s0 = st.smap_begin(e._span);
    let id = (*e.left)->Identifier_0;
    match emit_spec(*e.right, s0.get_var(id.val@)) {
        Ok(s1) => {
            let op = compound_opcode(e.op);
            let in_place = op == VmOpcode::OP_IADD || op == VmOpcode::OP_IMUL;
            let s2 = s1.push_op(op);
            let addr = s2.code.len() as int;
            let s3 = if in_place {
                s2.push_bytes(seq![0u8])
            } else {
                s2
            };
            lemma_set_var_appends(s3, id.val@);
            let s4 = s3.set_var(id.val@);
            assert(s4.code[s1.code.len() as int] == s3.code[s1.code.len() as int]);
            assert(s4.code.take(s1.code.len() as int) =~= s1.code);
        },
        Err(_) => {},
    }
}

/// Law: the code of literals and names. An integer from 0 to 255 is
/// PUSH8 (1) and its byte; from 256 to 65535, PUSH16 (2) and its two bytes,
/// high first. A string is PUSHSTR (6), its UTF-8 bytes and a zero byte. A
/// name read outside any function (not starting with `$`) is GET_GLOBAL
/// (35), the UTF-8 bytes of the name and a zero byte. Each is appended to
/// the code already there.
pub proof fn law_literal_code(node: AST, st: CompilerState)
    ensures
        match node {
            AST::IntLiteral(n) => {
                &&& 0 <= n.val <= 255 ==> (emit_spec(node, st) matches Ok(s) && s.code == st.code + seq![
                    1u8,
                    n.val as u8,
                ])
                &&& 256 <= n.val <= 65535 ==> (emit_spec(node, st) matches Ok(s) && s.code == st.code + seq![
                    2u8,
                    (n.val / 256) as u8,
                    (n.val % 256) as u8,
                ])
            },
            AST::StrLiteral(x) => emit_spec(node, st) matches Ok(s) && s.code == st.code + seq![6u8]
                + vstd::utf8::encode_utf8(x.val@) + seq![0u8],
            AST::Identifier(x) => st.scopes.len() == 0 && !(x.val@.len() > 0 && x.val@[0] == '$') ==> (
            emit_spec(node, st) matches Ok(s) && s.code == st.code + seq![35u8] + vstd::utf8::encode_utf8(
                x.val@,
            ) + seq![0u8]),
            _ => true,
        },
{
    match node {
        AST::IntLiteral(n) => {
            let v: i64 = n.val;
            if 0 <= v <= 65535 {
                assert((v as u64) as int == v) by (bit_vector)
                    requires
                        0 <= v <= 65535,
                ;
            }
            if 0 <= n.val <= 255 {
                assert(st.smap_begin(n._span).code + seq![1u8] + seq![(n.val as u64) as u8] =~= st.code
                    + seq![1u8, n.val as u8]);
            }
            if 256 <= n.val <= 65535 {
                assert(st.smap_begin(n._span).code + seq![2u8] + compiler::be16((n.val as u64) as u16)
                    =~= st.code + seq![2u8, (n.val / 256) as u8, (n.val % 256) as u8]);
            }
        },
        AST::StrLiteral(x) => {
            assert(st.smap_begin(x._span).code + seq![6u8] + (vstd::utf8::encode_utf8(x.val@) + seq![0u8])
                =~= st.code + seq![6u8] + vstd::utf8::encode_utf8(x.val@) + seq![0u8]);
        },
        AST::Identifier(x) => {
            if st.scopes.len() == 0 && !(x.val@.len() > 0 && x.val@[0] == '$') {
                assert(compiler::find_local(st.scopes, x.val@) is None);
                assert(st.smap_begin(x._span).code + seq![35u8] + (vstd::utf8::encode_utf8(x.val@) + seq![0u8])
                    =~= st.code + seq![35u8] + vstd::utf8::encode_utf8(x.val@) + seq![0u8]);
            }
        },
        _ => {},
    }
}

/// Law: the code of an expression statement is the code of its expression
/// followed by OP_POP (9), which drops the value.
pub proof fn law_expr_statement_code(e: ExprStatement, st: CompilerState)
    ensures
        match emit_spec(*e.expr, st.smap_begin(e._span)) {
            Ok(s1) => emit_spec(AST::ExprStatement(e), st) matches Ok(s) && s.code == s1.code.push(9u8),
            Err(err) => emit_spec(AST::ExprStatement(e), st) == Err::<CompilerState, CodeGenError>(err),
        },
{
}

/// Law: how the text of a string literal is read. A backslash followed by
/// `n`, `r` or `t` stands for a newline, a carriage return or a tab, and
/// followed by any other character for that character; any other character
/// stands for itself; a lone backslash at the end is refused.
pub proof fn law_unescape(c: char, d: char, rest: Seq<char>)
    ensures
        c != '\\' ==> unescape(seq![c] + rest) == match unescape(rest) {
            Some(r) => Some(seq![c] + r),
            None => None::<Seq<char>>,
        },
        unescape(seq!['\\', d] + rest) == match unescape(rest) {
            Some(r) => Some(
                seq![
                    if d == 'n' {
                        '\n'
                    } else if d == 'r' {
                        '\r'
                    } else if d == 't' {
                        '\t'
                    } else {
                        d
                    },
                ] + r,
            ),
            None => None::<Seq<char>>,
        },
        unescape(seq!['\\']) is None,
{
    assert((seq![c] + rest).drop_first() =~= rest);
    assert((seq!['\\', d] + rest).subrange(2, rest.len() as int + 2) =~= rest);
}

/// Law: the source map of a literal or a name. Emitting one adds one
/// source map entry, which ties the node's span in the source text to the
/// range of bytecode emitted for it, from where the code stood before to
/// where it ends.
pub proof fn law_leaf_source_map(node: AST, st: CompilerState)
    requires
        node is IntLiteral || node is StrLiteral || node is Identifier || node is FloatLiteral,
    ensures
        emit_spec(node, st) matches Ok(s) && s.smap.len() == st.smap.len() + 1 && s.smap.take(
            st.smap.len() as int,
        ) == st.smap && s.smap[st.smap.len() as int].file == node.spec_span()
            && s.smap[st.smap.len() as int].bytecode == (st.code.len() as usize, s.code.len() as usize),
{
    match node {
        AST::IntLiteral(n) => {
            let s0 = st.smap_begin(n._span);
            let s1 = int_literal_code(s0, n.val);
            assert(s1.smap == s0.smap);
            assert(s1.smap_end(st.smap.len() as int).smap.take(st.smap.len() as int) =~= st.smap);
        },
        AST::StrLiteral(x) => {
            let s1 = st.smap_begin(x._span).push_op(VmOpcode::OP_PUSHSTR).push_str(x.val@);
            assert(s1.smap_end(st.smap.len() as int).smap.take(st.smap.len() as int) =~= st.smap);
        },
        AST::FloatLiteral(x) => {
            let s1 = st.smap_begin(x._span).push_op(VmOpcode::OP_PUSHF64).push_bytes(compiler::be64(x.bits));
            assert(s1.smap_end(st.smap.len() as int).smap.take(st.smap.len() as int) =~= st.smap);
        },
        AST::Identifier(x) => {
            let s1 = st.smap_begin(x._span).get_var(x.val@);
            assert(s1.smap == st.smap_begin(x._span).smap);
            assert(s1.smap_end(st.smap.len() as int).smap.take(st.smap.len() as int) =~= st.smap);
        },
        _ => {},
    }
}

} // verus!
