//! Bytecode generation: every node of the tree emits its code into a
//! `Compiler`, exactly as `emit_spec` describes.

use vstd::prelude::*;

use crate::ast::ast::{
    AST, ArrayExpr, BinExpr, BinOp, BlockStatement, BreakStatement, CallExpr, CaseStatement,
    CodeGenError, CondExpr, ContinueStatement, EmitResult, ExprStatement, FloatLiteral,
    ForInStatement, ForStatement, FunctionDefinition, FunctionStatement, Identifier, IfStatement,
    IntLiteral, MemExpr, RaiseStatement, RecordDefinition, RecordStatement, ReturnStatement,
    StrLiteral, TryStatement, UnaryExpr, UnaryOp, UseStatement, WhileStatement,
};
use crate::ast::ast;
use crate::compiler::{self, Compiler, CompilerState, LoopLabels};
use crate::vmbindings::vm::VmOpcode;

verus! {

/// The outcome `r` of an emission, with the compiler left in `after`, is
/// the one that `expect` describes.
pub open spec fn emit_ok(r: Result<(), CodeGenError>, expect: EmitResult, after: CompilerState) -> bool {
    match expect {
        Ok(st) => r is Ok && after == st,
        Err(e) => r == Err::<(), CodeGenError>(e),
    }
}

/// The code `after` begins with the code `before`.
pub open spec fn keeps_code(before: Seq<u8>, after: Seq<u8>) -> bool {
    &&& before.len() <= after.len()
    &&& forall|k: int| 0 <= k < before.len() ==> #[trigger] after[k] == before[k]
}

/// The labels `b` are the labels `a` followed by labels at `start` or after.
pub open spec fn labels_extend(a: Seq<usize>, b: Seq<usize>, start: nat) -> bool {
    &&& a.len() <= b.len()
    &&& forall|j: int| 0 <= j < a.len() ==> #[trigger] b[j] == a[j]
    &&& forall|j: int| a.len() <= j < b.len() ==> #[trigger] b[j] >= start
}

/// Each loop of `after` holds the pending labels it held in `before`, and
/// only labels at `start` or after besides.
pub open spec fn keeps_labels(before: Seq<LoopLabels>, after: Seq<LoopLabels>, start: nat) -> bool {
    forall|i: int|
        0 <= i < before.len() ==> labels_extend(before[i].cont, #[trigger] after[i].cont, start)
            && labels_extend(before[i].brk, after[i].brk, start)
}

/// Every pending label of the loops that `after` has opened since `before`
/// lies in code emitted after `before`.
pub open spec fn new_loops_after(before: CompilerState, after: CompilerState) -> bool {
    &&& forall|i: int, j: int|
        before.loops.len() <= i < after.loops.len() && 0 <= j < after.loops[i].cont.len()
            ==> #[trigger] after.loops[i].cont[j] >= before.code.len()
    &&& forall|i: int, j: int|
        before.loops.len() <= i < after.loops.len() && 0 <= j < after.loops[i].brk.len()
            ==> #[trigger] after.loops[i].brk[j] >= before.code.len()
}

/// What code emitted after `before` keeps: the code of `before` stays as it
/// was, the source map only grows, no loop of `before` is closed, and the
/// loops gain only labels in the new code.
pub open spec fn extends(before: CompilerState, after: CompilerState) -> bool {
    &&& keeps_code(before.code, after.code)
    &&& after.smap.len() >= before.smap.len()
    &&& after.loops.len() >= before.loops.len()
    &&& keeps_labels(before.loops, after.loops, before.code.len())
    &&& new_loops_after(before, after)
}

/// What every successful emission keeps: it extends the code, and as many
/// scopes and loops are open after it as before.
pub open spec fn grows(before: CompilerState, after: CompilerState) -> bool {
    &&& extends(before, after)
    &&& after.scopes.len() == before.scopes.len()
    &&& after.loops.len() == before.loops.len()
}

/// Lemma: extending is transitive.
proof fn lemma_extends_trans(a: CompilerState, b: CompilerState, c: CompilerState)
    requires
        extends(a, b),
        extends(b, c),
    ensures
        extends(a, c),
{
    assert forall|i: int| 0 <= i < a.loops.len() implies labels_extend(a.loops[i].cont, #[trigger] c.loops[i].cont, a.code.len())
        && labels_extend(a.loops[i].brk, c.loops[i].brk, a.code.len()) by {
        assert(labels_extend(a.loops[i].cont, b.loops[i].cont, a.code.len()));
        assert(labels_extend(b.loops[i].cont, c.loops[i].cont, b.code.len()));
        assert(labels_extend(a.loops[i].brk, b.loops[i].brk, a.code.len()));
        assert(labels_extend(b.loops[i].brk, c.loops[i].brk, b.code.len()));
        assert forall|j: int| 0 <= j < a.loops[i].cont.len() implies #[trigger] c.loops[i].cont[j] == a.loops[i].cont[j] by {
            assert(b.loops[i].cont[j] == a.loops[i].cont[j]);
        }
        assert forall|j: int| a.loops[i].cont.len() <= j < c.loops[i].cont.len() implies #[trigger] c.loops[i].cont[j] >= a.code.len() by {
            if j < b.loops[i].cont.len() {
                assert(c.loops[i].cont[j] == b.loops[i].cont[j]);
            }
        }
        assert forall|j: int| 0 <= j < a.loops[i].brk.len() implies #[trigger] c.loops[i].brk[j] == a.loops[i].brk[j] by {
            assert(b.loops[i].brk[j] == a.loops[i].brk[j]);
        }
        assert forall|j: int| a.loops[i].brk.len() <= j < c.loops[i].brk.len() implies #[trigger] c.loops[i].brk[j] >= a.code.len() by {
            if j < b.loops[i].brk.len() {
                assert(c.loops[i].brk[j] == b.loops[i].brk[j]);
            }
        }
    }
    assert forall|k: int| 0 <= k < a.code.len() implies #[trigger] c.code[k] == a.code[k] by {
        assert(b.code[k] == a.code[k]);
    }
    assert forall|i: int, j: int|
        a.loops.len() <= i < c.loops.len() && 0 <= j < c.loops[i].cont.len() implies #[trigger] c.loops[i].cont[j] >= a.code.len() by {
        if i < b.loops.len() {
            assert(labels_extend(b.loops[i].cont, c.loops[i].cont, b.code.len()));
            if j < b.loops[i].cont.len() {
                assert(c.loops[i].cont[j] == b.loops[i].cont[j]);
            }
        }
    }
    assert forall|i: int, j: int|
        a.loops.len() <= i < c.loops.len() && 0 <= j < c.loops[i].brk.len() implies #[trigger] c.loops[i].brk[j] >= a.code.len() by {
        if i < b.loops.len() {
            assert(labels_extend(b.loops[i].cont, c.loops[i].cont, b.code.len()));
            assert(labels_extend(b.loops[i].brk, c.loops[i].brk, b.code.len()));
            if j < b.loops[i].brk.len() {
                assert(c.loops[i].brk[j] == b.loops[i].brk[j]);
            }
        }
    }
}

/// Lemma: growing is transitive.
pub(crate) proof fn lemma_grows_trans(a: CompilerState, b: CompilerState, c: CompilerState)
    requires
        grows(a, b),
        grows(b, c),
    ensures
        grows(a, c),
{
    lemma_extends_trans(a, b, c);
}

/// A state whose code agrees with `st` below the end of the code of `st0`,
/// with the same loops and at least the same source map, still extends `st0`.
proof fn lemma_extends_rewrite(st0: CompilerState, st: CompilerState, st2: CompilerState)
    requires
        extends(st0, st),
        st2.loops == st.loops,
        st2.smap.len() >= st.smap.len(),
        st2.code.len() >= st0.code.len(),
        forall|k: int| 0 <= k < st0.code.len() ==> #[trigger] st2.code[k] == st.code[k],
    ensures
        extends(st0, st2),
{
    assert forall|k: int| 0 <= k < st0.code.len() implies #[trigger] st2.code[k] == st0.code[k] by {
        assert(st.code[k] == st0.code[k]);
    }
}

/// Filling a label at or after the end of the code of `st0` keeps `st0` extended.
proof fn lemma_extends_fill(st0: CompilerState, st: CompilerState, pos: int, v: u16)
    requires
        extends(st0, st),
        st0.code.len() <= pos,
        pos + 2 <= st.code.len(),
    ensures
        extends(st0, st.fill16(pos, v)),
{
    lemma_extends_rewrite(st0, st, st.fill16(pos, v));
}

/// Reserving a label for `continue` or `break` extends the code.
proof fn lemma_extends_label(st: CompilerState)
    requires
        st.loops.len() > 0,
        st.code.len() <= usize::MAX,
    ensures
        grows(st, st.add_continue()),
        grows(st, st.add_break()),
{
    let n = st.loops.len() - 1;
    let a = st.add_continue();
    let b = st.add_break();
    assert(labels_extend(st.loops[n].cont, a.loops[n].cont, st.code.len()));
    assert(labels_extend(st.loops[n].brk, a.loops[n].brk, st.code.len()));
    assert(labels_extend(st.loops[n].cont, b.loops[n].cont, st.code.len()));
    assert(labels_extend(st.loops[n].brk, b.loops[n].brk, st.code.len()));
    assert forall|i: int| 0 <= i < n implies labels_extend(st.loops[i].cont, #[trigger] a.loops[i].cont, st.code.len())
        && labels_extend(st.loops[i].brk, a.loops[i].brk, st.code.len()) by {}
    assert forall|i: int| 0 <= i < n implies labels_extend(st.loops[i].cont, #[trigger] b.loops[i].cont, st.code.len())
        && labels_extend(st.loops[i].brk, b.loops[i].brk, st.code.len()) by {}
}

/// Filling labels that all lie at or after `start` keeps the code below `start`.
proof fn lemma_fill_all_keeps(code: Seq<u8>, labels: Seq<usize>, target: int, start: int)
    requires
        forall|j: int| 0 <= j < labels.len() ==> #[trigger] labels[j] + 2 <= code.len(),
        forall|j: int| 0 <= j < labels.len() ==> #[trigger] labels[j] >= start,
    ensures
        compiler::fill_all(code, labels, target).len() == code.len(),
        forall|k: int| 0 <= k < start ==> #[trigger] compiler::fill_all(code, labels, target)[k] == code[k],
    decreases labels.len(),
{
    if labels.len() > 0 {
        let c2 = compiler::patch16(code, labels[0] as int, compiler::offset16(target, labels[0] as int));
        let rest = labels.drop_first();
        assert forall|j: int| 0 <= j < rest.len() implies #[trigger] rest[j] + 2 <= c2.len() by {
            assert(rest[j] == labels[j + 1]);
        }
        assert forall|j: int| 0 <= j < rest.len() implies #[trigger] rest[j] >= start by {
            assert(rest[j] == labels[j + 1]);
        }
        lemma_fill_all_keeps(c2, rest, target, start);
        assert forall|k: int| 0 <= k < start implies #[trigger] compiler::fill_all(code, labels, target)[k] == code[k] by {
            assert(compiler::fill_all(code, labels, target)[k] == c2[k]);
        }
    }
}

/// Closing a loop opened after `st0` keeps `st0` extended.
proof fn lemma_extends_close_loop(st0: CompilerState, st: CompilerState, next: int, end: int)
    requires
        st.wf(),
        extends(st0, st),
        st.loops.len() == st0.loops.len() + 1,
    ensures
        extends(st0, st.close_loop(next, end)),
        st.close_loop(next, end).loops.len() == st0.loops.len(),
        st.close_loop(next, end).scopes == st.scopes,
{
    let n = st.loops.len() - 1;
    let l = st.loops.last();
    assert forall|j: int| 0 <= j < l.cont.len() implies #[trigger] l.cont[j] + 2 <= st.code.len() by {
        assert(st.loops[n].cont[j] + 4 <= st.code.len());
    }
    assert forall|j: int| 0 <= j < l.brk.len() implies #[trigger] l.brk[j] + 2 <= st.code.len() by {
        assert(st.loops[n].brk[j] + 4 <= st.code.len());
    }
    assert forall|j: int| 0 <= j < l.cont.len() implies #[trigger] l.cont[j] >= st0.code.len() by {
        assert(st.loops[n].cont[j] >= st0.code.len());
    }
    assert forall|j: int| 0 <= j < l.brk.len() implies #[trigger] l.brk[j] >= st0.code.len() by {
        assert(st.loops[n].brk[j] >= st0.code.len());
    }
    lemma_fill_all_keeps(st.code, l.cont, next, st0.code.len() as int);
    let c1 = compiler::fill_all(st.code, l.cont, next);
    assert forall|j: int| 0 <= j < l.brk.len() implies #[trigger] l.brk[j] + 2 <= c1.len() by {}
    lemma_fill_all_keeps(c1, l.brk, end, st0.code.len() as int);
    let st2 = st.close_loop(next, end);
    assert(st2.loops =~= st.loops.drop_last());
    assert forall|i: int| 0 <= i < st0.loops.len() implies labels_extend(st0.loops[i].cont, #[trigger] st2.loops[i].cont, st0.code.len())
        && labels_extend(st0.loops[i].brk, st2.loops[i].brk, st0.code.len()) by {
        assert(st2.loops[i] == st.loops[i]);
    }
    assert forall|k: int| 0 <= k < st0.code.len() implies #[trigger] st2.code[k] == st0.code[k] by {
        assert(st.code[k] == st0.code[k]);
    }
}

/// Emits each node of `nodes`, first to last.
#[verifier::loop_isolation(false)]
pub(crate) fn emit_all(nodes: &Vec<AST>, c: &mut Compiler) -> (r: Result<(), CodeGenError>)
    requires
        old(c)@.wf(),
    ensures
        final(c)@.wf(),
        emit_ok(r, ast::emit_seq_spec(nodes@, old(c)@), final(c)@),
        r is Ok ==> grows(old(c)@, final(c)@),
    decreases nodes, 0nat,
{
    let ghost st0 = c@;
    let n = nodes.len();
    let mut i: usize = 0;
    assert(nodes@.subrange(0, n as int) =~= nodes@);
    while i < n
        invariant
            n == nodes@.len(),
            i <= n,
            c@.wf(),
            grows(st0, c@),
            ast::emit_seq_spec(nodes@, st0) == ast::emit_seq_spec(
                nodes@.subrange(i as int, n as int),
                c@,
            ),
        decreases n - i,
    {
        let ghost before = c@;
        proof {
            let rest = nodes@.subrange(i as int, n as int);
            assert(rest[0] == nodes@[i as int]);
            assert(rest.drop_first() =~= nodes@.subrange(i + 1, n as int));
            assert(decreases_to!(nodes => nodes@[i as int]));
            assert(ast::emit_seq_spec(rest, c@) == match ast::emit_spec(nodes@[i as int], c@) {
                Ok(s1) => ast::emit_seq_spec(nodes@.subrange(i + 1, n as int), s1),
                Err(err) => Err(err),
            });
        }
        let r = nodes[i].emit(c);
        if r.is_err() {
            return r;
        }
        i += 1;
    }
    assert(nodes@.subrange(n as int, n as int) =~= Seq::<AST>::empty());
    Ok(())
}

/// Emits each node of `nodes`, last to first.
#[verifier::loop_isolation(false)]
fn emit_all_rev(nodes: &Vec<AST>, c: &mut Compiler) -> (r: Result<(), CodeGenError>)
    requires
        old(c)@.wf(),
    ensures
        final(c)@.wf(),
        emit_ok(r, ast::emit_seq_rev_spec(nodes@, old(c)@), final(c)@),
        r is Ok ==> grows(old(c)@, final(c)@),
    decreases nodes, 0nat,
{
    let ghost st0 = c@;
    let mut i: usize = nodes.len();
    assert(nodes@.take(i as int) =~= nodes@);
    while i > 0
        invariant
            i <= nodes@.len(),
            c@.wf(),
            grows(st0, c@),
            ast::emit_seq_rev_spec(nodes@, st0) == ast::emit_seq_rev_spec(nodes@.take(i as int), c@),
        decreases i,
    {
        proof {
            let rest = nodes@.take(i as int);
            assert(rest.last() == nodes@[i - 1]);
            assert(rest.drop_last() =~= nodes@.take(i - 1));
            assert(decreases_to!(nodes => nodes@[i - 1]));
            assert(ast::emit_seq_rev_spec(rest, c@) == match ast::emit_spec(nodes@[i - 1], c@) {
                Ok(s1) => ast::emit_seq_rev_spec(nodes@.take(i - 1), s1),
                Err(err) => Err(err),
            });
        }
        let r = nodes[i - 1].emit(c);
        if r.is_err() {
            return r;
        }
        i -= 1;
    }
    assert(nodes@.take(0) =~= Seq::<AST>::empty());
    Ok(())
}

impl AST {
    /// Emits the code of the node.
    pub fn emit(&self, c: &mut Compiler) -> (r: Result<(), CodeGenError>)
        requires
            old(c)@.wf(),
        ensures
            final(c)@.wf(),
            emit_ok(r, ast::emit_spec(*self, old(c)@), final(c)@),
            r is Ok ==> grows(old(c)@, final(c)@),
        decreases self, 0nat,
    {
        match self {
            AST::Identifier(e) => e.emit(c),
            AST::StrLiteral(e) => e.emit(c),
            AST::IntLiteral(e) => e.emit(c),
            AST::FloatLiteral(e) => e.emit(c),
            AST::ArrayExpr(e) => e.emit(c),
            AST::FunctionDefinition(e) => e.emit(c),
            AST::RecordDefinition(e) => e.emit(c),
            AST::UnaryExpr(e) => e.emit(c),
            AST::CondExpr(e) => e._emit(c, false),
            AST::BinExpr(e) => e.emit(c),
            AST::MemExpr(e) => e._emit(c, false),
            AST::CallExpr(e) => e._emit(c, false),
            AST::IfStatement(e) => e.emit(c),
            AST::WhileStatement(e) => e.emit(c),
            AST::ForStatement(e) => e.emit(c),
            AST::ForInStatement(e) => e.emit(c),
            AST::ContinueStatement(e) => e.emit(c),
            AST::BreakStatement(e) => e.emit(c),
            AST::FunctionStatement(e) => e.emit(c),
            AST::ReturnStatement(e) => e.emit(c),
            AST::RecordStatement(e) => e.emit(c),
            AST::TryStatement(e) => e.emit(c),
            AST::CaseStatement(_) => Err(CodeGenError::UnexpectedCase),
            AST::RaiseStatement(e) => e.emit(c),
            AST::ExprStatement(e) => e.emit(c),
            AST::UseStatement(e) => e.emit(c),
            AST::BlockStatement(e) => e.emit(c),
        }
    }

    /// Emits the code of the node in tail position: a call becomes a tail call.
    pub fn emit_tail(&self, c: &mut Compiler) -> (r: Result<(), CodeGenError>)
        requires
            old(c)@.wf(),
        ensures
            final(c)@.wf(),
            emit_ok(r, ast::emit_tail_spec(*self, old(c)@), final(c)@),
            r is Ok ==> grows(old(c)@, final(c)@),
        decreases self, 1nat,
    {
        match self {
            AST::CallExpr(e) => e._emit(c, true),
            AST::CondExpr(e) => e._emit(c, true),
            _ => self.emit(c),
        }
    }
}

impl AST {
    /// Emits the node as the body of `f(args) = body`: its value, returned.
    fn emit_fn_body(&self, c: &mut Compiler) -> (r: Result<(), CodeGenError>)
        requires
            old(c)@.wf(),
        ensures
            final(c)@.wf(),
            emit_ok(r, ast::emit_fn_body_spec(*self, old(c)@), final(c)@),
            r is Ok ==> grows(old(c)@, final(c)@),
        decreases self, 2nat,
    {
        match self {
            AST::CallExpr(ce) => ce._emit(c, true),
            AST::CondExpr(ce) => ce.emit_returned(c),
            _ => self.emit_returned(c),
        }
    }

    /// Emits the node followed by a return of its value.
    fn emit_returned(&self, c: &mut Compiler) -> (r: Result<(), CodeGenError>)
        requires
            old(c)@.wf(),
        ensures
            final(c)@.wf(),
            emit_ok(
                r,
                match ast::emit_spec(*self, old(c)@) {
                    Ok(s1) => Ok(s1.push_op(VmOpcode::OP_RET)),
                    Err(err) => Err(err),
                },
                final(c)@,
            ),
            r is Ok ==> grows(old(c)@, final(c)@),
        decreases self, 1nat,
    {
        let ghost st0 = c@;
        let r = self.emit(c);
        if r.is_err() {
            return r;
        }
        let ghost st1 = c@;
        c.cpushop(VmOpcode::OP_RET);
        proof {
            lemma_grows_trans(st0, st1, c@);
        }
        Ok(())
    }
}

impl CondExpr {
    /// Emits the conditional in tail position followed by a return of its value.
    fn emit_returned(&self, c: &mut Compiler) -> (r: Result<(), CodeGenError>)
        requires
            old(c)@.wf(),
        ensures
            final(c)@.wf(),
            emit_ok(
                r,
                match ast::emit_cond_spec(*self, old(c)@, true) {
                    Ok(s1) => Ok(s1.push_op(VmOpcode::OP_RET)),
                    Err(err) => Err(err),
                },
                final(c)@,
            ),
            r is Ok ==> grows(old(c)@, final(c)@),
        decreases self, 1nat,
    {
        let ghost st0 = c@;
        let r = self._emit(c, true);
        if r.is_err() {
            return r;
        }
        let ghost st1 = c@;
        c.cpushop(VmOpcode::OP_RET);
        proof {
            lemma_grows_trans(st0, st1, c@);
        }
        Ok(())
    }
}

impl Identifier {
    pub fn emit(&self, c: &mut Compiler) -> (r: Result<(), CodeGenError>)
        requires
            old(c)@.wf(),
        ensures
            final(c)@.wf(),
            emit_ok(r, ast::emit_spec(AST::Identifier(*self), old(c)@), final(c)@),
            r is Ok ==> grows(old(c)@, final(c)@),
    {
        let idx = c.smap_begin(self._span);
        c.emit_get_var(self.val.clone());
        c.smap_end(idx);
        Ok(())
    }
}

impl StrLiteral {
    pub fn emit(&self, c: &mut Compiler) -> (r: Result<(), CodeGenError>)
        requires
            old(c)@.wf(),
        ensures
            final(c)@.wf(),
            emit_ok(r, ast::emit_spec(AST::StrLiteral(*self), old(c)@), final(c)@),
            r is Ok ==> grows(old(c)@, final(c)@),
    {
        let idx = c.smap_begin(self._span);
        c.cpushop(VmOpcode::OP_PUSHSTR);
        c.cpushs(self.val.as_str());
        c.smap_end(idx);
        Ok(())
    }
}

impl IntLiteral {
    pub fn emit(&self, c: &mut Compiler) -> (r: Result<(), CodeGenError>)
        requires
            old(c)@.wf(),
        ensures
            final(c)@.wf(),
            emit_ok(r, ast::emit_spec(AST::IntLiteral(*self), old(c)@), final(c)@),
            r is Ok ==> grows(old(c)@, final(c)@),
    {
        let idx = c.smap_begin(self._span);
        let n = self.val as u64;
        if n <= 0xff {
            c.cpushop(VmOpcode::OP_PUSH8);
            c.cpush8(n as u8);
        } else if n <= 0xffff {
            c.cpushop(VmOpcode::OP_PUSH16);
            c.cpush16(n as u16);
        } else if n <= 0xffff_ffff {
            c.cpushop(VmOpcode::OP_PUSH32);
            c.cpush32(n as u32);
        } else {
            c.cpushop(VmOpcode::OP_PUSH64);
            c.cpush64(n);
        }
        c.smap_end(idx);
        Ok(())
    }
}

impl FloatLiteral {
    pub fn emit(&self, c: &mut Compiler) -> (r: Result<(), CodeGenError>)
        requires
            old(c)@.wf(),
        ensures
            final(c)@.wf(),
            emit_ok(r, ast::emit_spec(AST::FloatLiteral(*self), old(c)@), final(c)@),
            r is Ok ==> grows(old(c)@, final(c)@),
    {
        let idx = c.smap_begin(self._span);
        c.cpushop(VmOpcode::OP_PUSHF64);
        c.cpush64(self.bits);
        c.smap_end(idx);
        Ok(())
    }
}

impl ArrayExpr {
    pub fn emit(&self, c: &mut Compiler) -> (r: Result<(), CodeGenError>)
        requires
            old(c)@.wf(),
        ensures
            final(c)@.wf(),
            emit_ok(r, ast::emit_spec(AST::ArrayExpr(*self), old(c)@), final(c)@),
            r is Ok ==> grows(old(c)@, final(c)@),
        decreases self, 0nat,
    {
        let idx = c.smap_begin(self._span);
        let r = emit_all(&self.exprs, c);
        if r.is_err() {
            return r;
        }
        c.cpushop(VmOpcode::OP_PUSH64);
        c.cpush64(self.exprs.len() as u64);
        c.cpushop(VmOpcode::OP_ARRAY_LOAD);
        c.smap_end(idx);
        Ok(())
    }
}

impl UnaryExpr {
    pub fn emit(&self, c: &mut Compiler) -> (r: Result<(), CodeGenError>)
        requires
            old(c)@.wf(),
        ensures
            final(c)@.wf(),
            emit_ok(r, ast::emit_spec(AST::UnaryExpr(*self), old(c)@), final(c)@),
            r is Ok ==> grows(old(c)@, final(c)@),
        decreases self, 0nat,
    {
        let idx = c.smap_begin(self._span);
        let r = self.val.emit(c);
        if r.is_err() {
            return r;
        }
        match self.op {
            UnaryOp::Not => c.cpushop(VmOpcode::OP_NOT),
            UnaryOp::Neg => c.cpushop(VmOpcode::OP_NEGATE),
        }
        c.smap_end(idx);
        Ok(())
    }
}

impl ContinueStatement {
    pub fn emit(&self, c: &mut Compiler) -> (r: Result<(), CodeGenError>)
        requires
            old(c)@.wf(),
        ensures
            final(c)@.wf(),
            emit_ok(r, ast::emit_spec(AST::ContinueStatement(*self), old(c)@), final(c)@),
            r is Ok ==> grows(old(c)@, final(c)@),
    {
        let idx = c.smap_begin(self._span);
        c.cpushop(VmOpcode::OP_JMP);
        if !c.is_in_loop() {
            return Err(CodeGenError::ContinueOutsideLoop);
        }
        let ghost st2 = c@;
        proof {
            c.lemma_code_fits();
            lemma_extends_label(st2);
        }
        c.loop_continue();
        c.smap_end(idx);
        Ok(())
    }
}

impl BreakStatement {
    pub fn emit(&self, c: &mut Compiler) -> (r: Result<(), CodeGenError>)
        requires
            old(c)@.wf(),
        ensures
            final(c)@.wf(),
            emit_ok(r, ast::emit_spec(AST::BreakStatement(*self), old(c)@), final(c)@),
            r is Ok ==> grows(old(c)@, final(c)@),
    {
        let idx = c.smap_begin(self._span);
        c.cpushop(VmOpcode::OP_JMP);
        if !c.is_in_loop() {
            return Err(CodeGenError::BreakOutsideLoop);
        }
        let ghost st2 = c@;
        proof {
            c.lemma_code_fits();
            lemma_extends_label(st2);
        }
        c.loop_break();
        c.smap_end(idx);
        Ok(())
    }
}

impl RaiseStatement {
    pub fn emit(&self, c: &mut Compiler) -> (r: Result<(), CodeGenError>)
        requires
            old(c)@.wf(),
        ensures
            final(c)@.wf(),
            emit_ok(r, ast::emit_spec(AST::RaiseStatement(*self), old(c)@), final(c)@),
            r is Ok ==> grows(old(c)@, final(c)@),
        decreases self, 0nat,
    {
        let r = self.expr.emit(c);
        if r.is_err() {
            return r;
        }
        c.cpushop(VmOpcode::OP_RAISE);
        Ok(())
    }
}

impl ExprStatement {
    pub fn emit(&self, c: &mut Compiler) -> (r: Result<(), CodeGenError>)
        requires
            old(c)@.wf(),
        ensures
            final(c)@.wf(),
            emit_ok(r, ast::emit_spec(AST::ExprStatement(*self), old(c)@), final(c)@),
            r is Ok ==> grows(old(c)@, final(c)@),
        decreases self, 0nat,
    {
        let idx = c.smap_begin(self._span);
        let r = self.expr.emit(c);
        if r.is_err() {
            return r;
        }
        c.cpushop(VmOpcode::OP_POP);
        c.smap_end(idx);
        Ok(())
    }
}

impl UseStatement {
    pub fn emit(&self, c: &mut Compiler) -> (r: Result<(), CodeGenError>)
        requires
            old(c)@.wf(),
        ensures
            final(c)@.wf(),
            emit_ok(r, ast::emit_spec(AST::UseStatement(*self), old(c)@), final(c)@),
            r is Ok ==> grows(old(c)@, final(c)@),
    {
        let idx = c.smap_begin(self._span);
        c.cpushop(VmOpcode::OP_USE);
        c.cpushs(self.path.as_str());
        c.smap_end(idx);
        Ok(())
    }
}

impl BlockStatement {
    pub fn emit(&self, c: &mut Compiler) -> (r: Result<(), CodeGenError>)
        requires
            old(c)@.wf(),
        ensures
            final(c)@.wf(),
            emit_ok(r, ast::emit_spec(AST::BlockStatement(*self), old(c)@), final(c)@),
            r is Ok ==> grows(old(c)@, final(c)@),
        decreases self, 0nat,
    {
        let idx = c.smap_begin(self._span);
        let r = emit_all(&self.stmts, c);
        if r.is_err() {
            return r;
        }
        c.smap_end(idx);
        Ok(())
    }
}

impl ReturnStatement {
    pub fn emit(&self, c: &mut Compiler) -> (r: Result<(), CodeGenError>)
        requires
            old(c)@.wf(),
        ensures
            final(c)@.wf(),
            emit_ok(r, ast::emit_spec(AST::ReturnStatement(*self), old(c)@), final(c)@),
            r is Ok ==> grows(old(c)@, final(c)@),
        decreases self, 0nat,
    {
        let idx = c.smap_begin(self._span);
        if !c.is_in_function() {
            return Err(CodeGenError::ReturnOutsideFunction);
        }
        match &self.expr {
            Some(x) => {
                let r = x.emit_tail(c);
                if r.is_err() {
                    return r;
                }
            },
            None => c.cpushop(VmOpcode::OP_PUSH_NIL),
        }
        c.cpushop(VmOpcode::OP_RET);
        c.smap_end(idx);
        Ok(())
    }
}

/// The constant key of a member expression, as `ast::static_key` describes it.
fn static_key_of(node: &AST) -> (r: Option<&String>)
    ensures
        match r {
            Some(k) => ast::static_key(*node) == Some(k@),
            None => ast::static_key(*node) is None,
        },
{
    match node {
        AST::Identifier(id) => Some(&id.val),
        AST::StrLiteral(s) => Some(&s.val),
        _ => None,
    }
}

/// The opcode of an arithmetic or comparison operator.
fn arith_op(op: BinOp) -> (r: VmOpcode)
    ensures
        r == ast::arith_opcode(op),
{
    match op {
        BinOp::Add => VmOpcode::OP_ADD,
        BinOp::Sub => VmOpcode::OP_SUB,
        BinOp::Mul => VmOpcode::OP_MUL,
        BinOp::Div => VmOpcode::OP_DIV,
        BinOp::Mod => VmOpcode::OP_MOD,
        BinOp::Eq => VmOpcode::OP_EQ,
        BinOp::Neq => VmOpcode::OP_NEQ,
        BinOp::Gt => VmOpcode::OP_GT,
        BinOp::Lt => VmOpcode::OP_LT,
        BinOp::Geq => VmOpcode::OP_GEQ,
        BinOp::Leq => VmOpcode::OP_LEQ,
        _ => VmOpcode::OP_OF,
    }
}

/// Declares the parameters `args` of a function as locals, in order.
fn declare_args(args: &Vec<String>, c: &mut Compiler)
    requires
        old(c)@.wf(),
        old(c)@.scopes.len() > 0,
    ensures
        final(c)@.wf(),
        final(c)@ == ast::add_locals(old(c)@, args@),
        grows(old(c)@, final(c)@),
{
    let ghost s0 = c@;
    let n = args.len();
    let mut i: usize = 0;
    assert(args@.subrange(0, n as int) =~= args@);
    while i < n
        invariant
            n == args@.len(),
            i <= n,
            c@.wf(),
            c@.code == s0.code,
            c@.smap == s0.smap,
            c@.loops == s0.loops,
            c@.scopes.len() == s0.scopes.len(),
            s0.scopes.len() > 0,
            ast::add_locals(s0, args@) == ast::add_locals(c@, args@.subrange(i as int, n as int)),
        decreases n - i,
    {
        proof {
            let rest = args@.subrange(i as int, n as int);
            assert(rest[0] == args@[i as int]);
            assert(rest.drop_first() =~= args@.subrange(i + 1, n as int));
        }
        c.set_local(args[i].clone());
        i += 1;
    }
    assert(args@.subrange(n as int, n as int) =~= Seq::<String>::empty());
}

/// Declares the parameters of `f(args) = ...`, each of which must be a name.
#[verifier::loop_isolation(false)]
fn bind_args(args: &Vec<AST>, c: &mut Compiler) -> (r: Result<(), CodeGenError>)
    requires
        old(c)@.wf(),
        old(c)@.scopes.len() > 0,
    ensures
        final(c)@.wf(),
        emit_ok(r, ast::bind_args_spec(args@, old(c)@), final(c)@),
        r is Ok ==> grows(old(c)@, final(c)@),
{
    let ghost s0 = c@;
    let n = args.len();
    let mut i: usize = 0;
    assert(args@.subrange(0, n as int) =~= args@);
    while i < n
        invariant
            n == args@.len(),
            i <= n,
            c@.wf(),
            c@.code == s0.code,
            c@.smap == s0.smap,
            c@.loops == s0.loops,
            c@.scopes.len() == s0.scopes.len(),
            s0.scopes.len() > 0,
            ast::bind_args_spec(args@, s0) == ast::bind_args_spec(args@.subrange(i as int, n as int), c@),
        decreases n - i,
    {
        proof {
            let rest = args@.subrange(i as int, n as int);
            assert(rest[0] == args@[i as int]);
            assert(rest.drop_first() =~= args@.subrange(i + 1, n as int));
            assert(ast::bind_args_spec(rest, c@) == match args@[i as int] {
                AST::Identifier(id) => ast::bind_args_spec(
                    args@.subrange(i + 1, n as int),
                    ast::set_local_spec(c@, id.val@),
                ),
                _ => Err(CodeGenError::ExpectedIdentifier),
            });
        }
        match &args[i] {
            AST::Identifier(a) => {
                c.set_local(a.val.clone());
            },
            _ => {
                return Err(CodeGenError::ExpectedIdentifier);
            },
        }
        i += 1;
    }
    assert(args@.subrange(n as int, n as int) =~= Seq::<AST>::empty());
    Ok(())
}

impl FunctionDefinition {
    pub fn emit(&self, c: &mut Compiler) -> (r: Result<(), CodeGenError>)
        requires
            old(c)@.wf(),
        ensures
            final(c)@.wf(),
            emit_ok(r, ast::emit_fndef_spec(*self, old(c)@), final(c)@),
            r is Ok ==> grows(old(c)@, final(c)@),
        decreases self, 0nat,
    {
        let ghost st0 = c@;
        let idx = c.smap_begin(self._span);
        c.cpushop(VmOpcode::OP_DEF_FUNCTION_PUSH);
        c.cpush16(self.args.len() as u16);
        let function_end = c.reserve_label16();
        match &self.id {
            Some(id) => {
                c.set_local(id.clone());
            },
            None => {},
        }
        c.scope();
        c.cpushop(VmOpcode::OP_ENV_NEW);
        let nslot_label = c.reserve_label16();
        declare_args(&self.args, c);
        let ghost a1 = c@;
        assert(extends(st0, a1));
        let r = self.stmt.emit(c);
        if r.is_err() {
            return r;
        }
        let ghost a2 = c@;
        proof {
            lemma_extends_trans(st0, a1, a2);
        }
        match &self.id {
            Some(id) => {
                let top = c.clen() - 1;
                c.add_symbol(top, id.clone());
            },
            None => {},
        }
        c.cpushop(VmOpcode::OP_PUSH_NIL);
        c.cpushop(VmOpcode::OP_RET);
        let nslots = c.unscope();
        let ghost a3 = c@;
        proof {
            lemma_extends_trans(st0, a2, a3);
        }
        c.fill_label16(nslot_label, nslots);
        proof {
            lemma_extends_fill(st0, a3, nslot_label as int, nslots);
        }
        let ghost a4 = c@;
        let off = compiler::jump_offset(c.clen(), function_end);
        c.fill_label16(function_end, off);
        proof {
            lemma_extends_fill(st0, a4, function_end as int, off);
        }
        let ghost a5 = c@;
        c.smap_end(idx);
        proof {
            lemma_extends_trans(st0, a5, c@);
        }
        Ok(())
    }
}

/// Emits one statement of a record body: the value of the field, then its name.
fn emit_record_field(stmt: &AST, c: &mut Compiler) -> (r: Result<(), CodeGenError>)
    requires
        old(c)@.wf(),
    ensures
        final(c)@.wf(),
        emit_ok(r, ast::emit_record_field_spec(*stmt, old(c)@), final(c)@),
        r is Ok ==> grows(old(c)@, final(c)@),
    decreases stmt, 1nat,
{
    match stmt {
        AST::FunctionStatement(f) => {
            let r = f.def.emit(c);
            if r.is_err() {
                return r;
            }
            match &f.def.id {
                Some(id) => {
                    c.cpushop(VmOpcode::OP_PUSHSTR);
                    c.cpushs(id.as_str());
                    Ok(())
                },
                None => Err(CodeGenError::UnnamedDefinition),
            }
        },
        AST::RecordStatement(rs) => {
            let r = rs.def.emit(c);
            if r.is_err() {
                return r;
            }
            match &rs.def.id {
                Some(id) => {
                    c.cpushop(VmOpcode::OP_PUSHSTR);
                    c.cpushs(id.as_str());
                    Ok(())
                },
                None => Err(CodeGenError::UnnamedDefinition),
            }
        },
        AST::ExprStatement(x) => match &*x.expr {
            AST::BinExpr(b) => match &*b.left {
                AST::Identifier(id) => {
                    let r = b.right.emit(c);
                    if r.is_err() {
                        return r;
                    }
                    c.cpushop(VmOpcode::OP_PUSHSTR);
                    c.cpushs(id.val.as_str());
                    Ok(())
                },
                _ => Err(CodeGenError::ExpectedIdentifier),
            },
            _ => Err(CodeGenError::ExpectedAssignment),
        },
        _ => Ok(()),
    }
}

impl RecordDefinition {
    #[verifier::loop_isolation(false)]
    pub fn emit(&self, c: &mut Compiler) -> (r: Result<(), CodeGenError>)
        requires
            old(c)@.wf(),
        ensures
            final(c)@.wf(),
            emit_ok(r, ast::emit_recdef_spec(*self, old(c)@), final(c)@),
            r is Ok ==> grows(old(c)@, final(c)@),
        decreases self, 0nat,
    {
        let ghost st_init = c@;
        let idx = c.smap_begin(self._span);
        c.cpushop(VmOpcode::OP_PUSH_NIL);
        let ghost s0 = c@;
        let n = self.stmts.len();
        let mut i: usize = 0;
        assert(self.stmts@.subrange(0, n as int) =~= self.stmts@);
        while i < n
            invariant
                n == self.stmts@.len(),
                i <= n,
                c@.wf(),
                grows(s0, c@),
                ast::emit_record_body_spec(self.stmts@, s0) == ast::emit_record_body_spec(
                    self.stmts@.subrange(i as int, n as int),
                    c@,
                ),
            decreases n - i,
        {
            proof {
                let rest = self.stmts@.subrange(i as int, n as int);
                assert(rest[0] == self.stmts@[i as int]);
                assert(rest.drop_first() =~= self.stmts@.subrange(i + 1, n as int));
                assert(decreases_to!(self => self.stmts@[i as int]));
                assert(ast::emit_record_body_spec(rest, c@) == match ast::emit_record_field_spec(
                    self.stmts@[i as int],
                    c@,
                ) {
                    Ok(s1) => ast::emit_record_body_spec(self.stmts@.subrange(i + 1, n as int), s1),
                    Err(err) => Err(err),
                });
            }
            let ghost before = c@;
            let r = emit_record_field(&self.stmts[i], c);
            if r.is_err() {
                return r;
            }
            proof {
                lemma_grows_trans(s0, before, c@);
            }
            i += 1;
        }
        assert(self.stmts@.subrange(n as int, n as int) =~= Seq::<AST>::empty());
        let ghost s1 = c@;
        c.cpushop(VmOpcode::OP_DICT_LOAD);
        c.smap_end(idx);
        proof {
            lemma_grows_trans(st_init, s0, s1);
            lemma_grows_trans(st_init, s1, c@);
        }
        Ok(())
    }
}

impl CondExpr {
    /// Emits the conditional expression; `is_tail` puts its branches in
    /// tail position.
    fn _emit(&self, c: &mut Compiler, is_tail: bool) -> (r: Result<(), CodeGenError>)
        requires
            old(c)@.wf(),
        ensures
            final(c)@.wf(),
            emit_ok(r, ast::emit_cond_spec(*self, old(c)@, is_tail), final(c)@),
            r is Ok ==> grows(old(c)@, final(c)@),
        decreases self, 0nat,
    {
        let ghost st0 = c@;
        let idx = c.smap_begin(self._span);
        let r = self.cond.emit(c);
        if r.is_err() {
            return r;
        }
        let ghost a1 = c@;
        c.cpushop(VmOpcode::OP_JNCOND);
        let else_label = c.reserve_label16();
        let r = if is_tail {
            self.then_.emit_tail(c)
        } else {
            self.then_.emit(c)
        };
        if r.is_err() {
            return r;
        }
        let ghost a2 = c@;
        c.cpushop(VmOpcode::OP_JMP);
        let done_label = c.reserve_label16();
        let ghost a3 = c@;
        proof {
            lemma_extends_trans(st0, a1, a2);
            lemma_extends_trans(st0, a2, a3);
        }
        let off = compiler::jump_offset(c.clen(), else_label);
        c.fill_label16(else_label, off);
        proof {
            lemma_extends_fill(st0, a3, else_label as int, off);
        }
        let ghost a4 = c@;
        let r = if is_tail {
            match &*self.alt {
                AST::CallExpr(ce) => ce._emit(c, true),
                AST::CondExpr(cc) => cc._emit(c, true),
                _ => self.alt.emit(c),
            }
        } else {
            self.alt.emit(c)
        };
        if r.is_err() {
            return r;
        }
        let ghost a5 = c@;
        proof {
            lemma_extends_trans(st0, a4, a5);
        }
        let off = compiler::jump_offset(c.clen(), done_label);
        c.fill_label16(done_label, off);
        proof {
            lemma_extends_fill(st0, a5, done_label as int, off);
        }
        let ghost a6 = c@;
        c.smap_end(idx);
        proof {
            lemma_extends_trans(st0, a6, c@);
        }
        Ok(())
    }
}

impl MemExpr {
    /// Emits the member access; `is_method_call` keeps the object on the
    /// stack under the value.
    fn _emit(&self, c: &mut Compiler, is_method_call: bool) -> (r: Result<(), CodeGenError>)
        requires
            old(c)@.wf(),
        ensures
            final(c)@.wf(),
            emit_ok(r, ast::emit_mem_spec(*self, old(c)@, is_method_call), final(c)@),
            r is Ok ==> grows(old(c)@, final(c)@),
        decreases self, 0nat,
    {
        let idx = c.smap_begin(self._span);
        let r = self.left.emit(c);
        if r.is_err() {
            return r;
        }
        let key = if self.is_expr {
            None
        } else {
            static_key_of(&self.right)
        };
        match key {
            Some(k) => {
                c.cpushop(
                    if is_method_call {
                        VmOpcode::OP_MEMBER_GET_NO_POP
                    } else {
                        VmOpcode::OP_MEMBER_GET
                    },
                );
                c.cpushs(k.as_str());
            },
            None => {
                let r = self.right.emit(c);
                if r.is_err() {
                    return r;
                }
                c.cpushop(
                    if is_method_call {
                        VmOpcode::OP_INDEX_GET_NO_POP
                    } else {
                        VmOpcode::OP_INDEX_GET
                    },
                );
            },
        }
        c.smap_end(idx);
        Ok(())
    }
}

impl CallExpr {
    /// Emits the call; `is_tail` makes it a tail call.
    fn _emit(&self, c: &mut Compiler, is_tail: bool) -> (r: Result<(), CodeGenError>)
        requires
            old(c)@.wf(),
        ensures
            final(c)@.wf(),
            emit_ok(r, ast::emit_call_spec(*self, old(c)@, is_tail), final(c)@),
            r is Ok ==> grows(old(c)@, final(c)@),
        decreases self, 0nat,
    {
        let idx = c.smap_begin(self._span);
        let op = if is_tail {
            VmOpcode::OP_RETCALL
        } else {
            VmOpcode::OP_CALL
        };
        let nargs = self.args.len() as u16;
        let r = emit_all_rev(&self.args, c);
        if r.is_err() {
            return r;
        }
        match &*self.callee {
            AST::MemExpr(m) => {
                if m.is_namespace {
                    let r = m._emit(c, false);
                    if r.is_err() {
                        return r;
                    }
                    c.cpushop(op);
                    c.cpush16(nargs);
                } else {
                    let r = m._emit(c, true);
                    if r.is_err() {
                        return r;
                    }
                    c.cpushop(op);
                    let n1: u16 = if nargs == 0xffff {
                        0
                    } else {
                        nargs + 1
                    };
                    c.cpush16(n1);
                }
            },
            _ => {
                let r = self.callee.emit(c);
                if r.is_err() {
                    return r;
                }
                c.cpushop(op);
                c.cpush16(nargs);
            },
        }
        c.smap_end(idx);
        Ok(())
    }
}

impl BinExpr {
    pub fn emit(&self, c: &mut Compiler) -> (r: Result<(), CodeGenError>)
        requires
            old(c)@.wf(),
        ensures
            final(c)@.wf(),
            emit_ok(r, ast::emit_binexpr_spec(*self, old(c)@), final(c)@),
            r is Ok ==> grows(old(c)@, final(c)@),
        decreases self, 2nat,
    {
        let ghost st0 = c@;
        let idx = c.smap_begin(self._span);
        let ghost s0 = c@;
        match self.op {
            BinOp::Assign => {
                let r = self.emit_assign(c);
                if r.is_err() {
                    return r;
                }
                let ghost s1 = c@;
                c.smap_end(idx);
                proof {
                    lemma_grows_trans(st0, s0, s1);
                    lemma_grows_trans(st0, s1, c@);
                }
                Ok(())
            },
            BinOp::Adds | BinOp::Subs | BinOp::Muls | BinOp::Divs | BinOp::Mods => {
                let r = self.emit_compound(c, idx);
                proof {
                    if r is Ok {
                        lemma_grows_trans(st0, s0, c@);
                    }
                }
                r
            },
            BinOp::And | BinOp::Or => {
                let r = self.emit_logic(c, idx);
                proof {
                    if r is Ok {
                        lemma_grows_trans(st0, s0, c@);
                    }
                }
                r
            },
            _ => {
                let r = self.left.emit(c);
                if r.is_err() {
                    return r;
                }
                let r = self.right.emit(c);
                if r.is_err() {
                    return r;
                }
                c.cpushop(arith_op(self.op));
                c.smap_end(idx);
                Ok(())
            },
        }
    }

    /// Emits `left = right` (see `emit_assign_spec`).
    fn emit_assign(&self, c: &mut Compiler) -> (r: Result<(), CodeGenError>)
        requires
            old(c)@.wf(),
        ensures
            final(c)@.wf(),
            emit_ok(r, ast::emit_assign_spec(*self, old(c)@), final(c)@),
            r is Ok ==> grows(old(c)@, final(c)@),
        decreases self, 1nat,
    {
        match &*self.left {
            AST::Identifier(id) => {
                let r = self.right.emit(c);
                if r.is_err() {
                    return r;
                }
                c.emit_set_var(id.val.clone());
            },
            AST::MemExpr(m) => {
                let r = self.right.emit(c);
                if r.is_err() {
                    return r;
                }
                let r = m.left.emit(c);
                if r.is_err() {
                    return r;
                }
                let key = if m.is_expr {
                    None
                } else {
                    static_key_of(&m.right)
                };
                match key {
                    Some(k) => {
                        c.cpushop(VmOpcode::OP_MEMBER_SET);
                        c.cpushs(k.as_str());
                    },
                    None => {
                        let r = m.right.emit(c);
                        if r.is_err() {
                            return r;
                        }
                        c.cpushop(VmOpcode::OP_INDEX_SET);
                    },
                }
            },
            AST::CallExpr(_) => {
                let r = self.emit_fn_assign(c);
                if r.is_err() {
                    return r;
                }
            },
            _ => {
                return Err(CodeGenError::InvalidLeftHandSide);
            },
        }
        Ok(())
    }

    /// Emits a compound assignment such as `left += right` (see
    /// `emit_compound_spec`), closing the source map entry `idx`.
    #[verifier::rlimit(100)]
    #[verifier::spinoff_prover]
    fn emit_compound(&self, c: &mut Compiler, idx: usize) -> (r: Result<(), CodeGenError>)
        requires
        old(c)@.wf(),
        ast::is_compound(self.op),
        idx < old(c)@.smap.len(),
        ensures
        final(c)@.wf(),
        emit_ok(r, ast::emit_compound_spec(*self, old(c)@, idx as int), final(c)@),
        r is Ok ==> grows(old(c)@, final(c)@),
        decreases self, 1nat,
    {
        let ghost st0 = c@;
        let op = match self.op {
            BinOp::Adds => VmOpcode::OP_IADD,
            BinOp::Subs => VmOpcode::OP_SUB,
            BinOp::Muls => VmOpcode::OP_IMUL,
            BinOp::Divs => VmOpcode::OP_DIV,
            _ => VmOpcode::OP_MOD,
        };
        let in_place = match op {
            VmOpcode::OP_IADD | VmOpcode::OP_IMUL => true,
            _ => false,
        };
        match &*self.left {
            AST::Identifier(id) => {
                c.emit_get_var(id.val.clone());
                let ghost p1 = c@;
                let r = self.right.emit(c);
                if r.is_err() {
                    return r;
                }
                let ghost p2 = c@;
                c.cpushop(op);
                let addr = c.clen();
                if in_place {
                    c.cpush8(0);
                }
                c.emit_set_var(id.val.clone());
                let ghost p3 = c@;
                proof {
                    lemma_extends_trans(st0, p1, p2);
                    lemma_extends_trans(st0, p2, p3);
                }
                if in_place {
                    let v = (c.clen() - addr) as u8;
                    c.fill_label8(addr, v);
                    proof {
                        lemma_extends_rewrite(st0, p3, c@);
                    }
                }
                c.smap_end(idx);
                Ok(())
            },
            AST::MemExpr(m) => {
                let r = m.left.emit(c);
                if r.is_err() {
                    return r;
                }
                let ghost q1 = c@;
                let key = if m.is_expr {
                    None
                } else {
                    static_key_of(&m.right)
                };
                match key {
                    Some(k) => {
                        c.cpushop(VmOpcode::OP_MEMBER_GET_NO_POP);
                        c.cpushs(k.as_str());
                    },
                    None => {
                        let r = m.right.emit(c);
                        if r.is_err() {
                            return r;
                        }
                        c.cpushop(VmOpcode::OP_INDEX_GET_NO_POP);
                    },
                }
                let ghost q2 = c@;
                proof {
                    lemma_extends_trans(st0, q1, q2);
                }
                let r = self.right.emit(c);
                if r.is_err() {
                    return r;
                }
                let ghost q3 = c@;
                c.cpushop(op);
                let addr = c.clen();
                if in_place {
                    c.cpush8(0);
                    let ghost q4 = c@;
                    proof {
                        lemma_extends_trans(st0, q2, q3);
                        lemma_extends_trans(st0, q3, q4);
                    }
                    let v = (c.clen() - addr) as u8;
                    c.fill_label8(addr, v);
                    proof {
                        lemma_extends_rewrite(st0, q4, c@);
                    }
                } else {
                    proof {
                        lemma_extends_trans(st0, q2, q3);
                        lemma_extends_trans(st0, q3, c@);
                    }
                }
                let ghost q5 = c@;
                match key {
                    Some(k) => {
                        c.cpushop(VmOpcode::OP_SWAP);
                        c.cpushop(VmOpcode::OP_MEMBER_SET);
                        c.cpushs(k.as_str());
                    },
                    None => {
                        c.cpushop(VmOpcode::OP_SWAP);
                        let r = m.right.emit(c);
                        if r.is_err() {
                            return r;
                        }
                        c.cpushop(VmOpcode::OP_INDEX_SET);
                    },
                }
                let ghost q6 = c@;
                c.smap_end(idx);
                proof {
                    lemma_extends_trans(st0, q5, q6);
                    lemma_extends_trans(st0, q6, c@);
                }
                Ok(())
            },
            _ => Err(CodeGenError::InvalidLeftHandSide),
        }
        
    }

    /// Emits `left and right` or `left or right` (see `emit_logic_spec`),
    /// closing the source map entry `idx`.
    #[verifier::rlimit(100)]
    #[verifier::spinoff_prover]
    fn emit_logic(&self, c: &mut Compiler, idx: usize) -> (r: Result<(), CodeGenError>)
        requires
        old(c)@.wf(),
        self.op == BinOp::And || self.op == BinOp::Or,
        idx < old(c)@.smap.len(),
        ensures
        final(c)@.wf(),
        emit_ok(r, ast::emit_logic_spec(*self, old(c)@, idx as int), final(c)@),
        r is Ok ==> grows(old(c)@, final(c)@),
        decreases self, 1nat,
    {
        let ghost st0 = c@;
        let r = self.left.emit(c);
        if r.is_err() {
            return r;
        }
        let ghost s1 = c@;
        let is_and = match self.op {
            BinOp::And => true,
            _ => false,
        };
        c.cpushop(
            if is_and {
                VmOpcode::OP_JNCOND_NO_POP
            } else {
                VmOpcode::OP_JCOND_NO_POP
            },
        );
        let label = c.reserve_label16();
        if is_and {
            c.cpushop(VmOpcode::OP_POP);
        }
        let ghost s2 = c@;
        let r = self.right.emit(c);
        if r.is_err() {
            return r;
        }
        let ghost s3 = c@;
        proof {
            lemma_extends_trans(st0, s1, s2);
            lemma_extends_trans(st0, s2, s3);
        }
        let off = compiler::jump_offset(c.clen(), label);
        c.fill_label16(label, off);
        proof {
            lemma_extends_fill(st0, s3, label as int, off);
        }
        let ghost s4 = c@;
        c.smap_end(idx);
        proof {
            lemma_extends_trans(st0, s4, c@);
        }
        Ok(())
    }

    /// Emits `f(args) = body`, the definition of the function `f`.
    fn emit_fn_assign(&self, c: &mut Compiler) -> (r: Result<(), CodeGenError>)
        requires
            old(c)@.wf(),
        ensures
            final(c)@.wf(),
            emit_ok(r, ast::emit_fn_assign_spec(*self, old(c)@), final(c)@),
            r is Ok ==> grows(old(c)@, final(c)@),
        decreases self, 0nat,
    {
        match &*self.left {
            AST::CallExpr(call) => match &*call.callee {
                AST::Identifier(name) => emit_named_fn(&name.val, &call.args, &self.right, c),
                _ => Err(CodeGenError::ExpectedIdentifier),
            },
            _ => Err(CodeGenError::InvalidLeftHandSide),
        }
    }
}

/// Starts the code of a function named `name` with `nargs` parameters:
/// returns the labels of its length and of its number of locals.
fn fn_prologue(name: &String, nargs: u16, c: &mut Compiler) -> (labels: (usize, usize))
    requires
        old(c)@.wf(),
    ensures
        final(c)@.wf(),
        labels.0 == old(c)@.code.len() + 3,
        labels.1 == old(c)@.code.len() + 6,
        final(c)@ == ast::fn_prologue_spec(old(c)@, nargs, name@),
        final(c)@.code.len() == old(c)@.code.len() + 8,
        final(c)@.scopes.len() == old(c)@.scopes.len() + 1,
        final(c)@.smap == old(c)@.smap,
        final(c)@.loops == old(c)@.loops,
        extends(old(c)@, final(c)@),
{
    c.cpushop(VmOpcode::OP_DEF_FUNCTION_PUSH);
    c.cpush16(nargs);
    let function_end = c.reserve_label16();
    c.set_local(name.clone());
    c.scope();
    c.cpushop(VmOpcode::OP_ENV_NEW);
    let nslot_label = c.reserve_label16();
    proof {
        reveal(ast::fn_prologue_spec);
    }
    (function_end, nslot_label)
}

/// Ends the code of a function named `name`: fills in its number of locals
/// and its length, then assigns it to `name` unless the name is `_`.
fn fn_epilogue(name: &String, function_end: usize, nslot_label: usize, c: &mut Compiler)
    requires
        old(c)@.wf(),
        old(c)@.scopes.len() > 0,
        function_end + 2 <= old(c)@.code.len(),
        nslot_label + 2 <= old(c)@.code.len(),
    ensures
        final(c)@.wf(),
        final(c)@ == ast::fn_epilogue_spec(old(c)@, name@, function_end as int, nslot_label as int),
        final(c)@.scopes.len() == old(c)@.scopes.len() - 1,
        final(c)@.loops == old(c)@.loops,
        final(c)@.smap == old(c)@.smap,
        final(c)@.code.len() >= old(c)@.code.len(),
        forall|k: int|
            0 <= k < function_end && k < nslot_label ==> #[trigger] final(c)@.code[k] == old(c)@.code[k],
{
    let nslots = c.unscope();
    c.fill_label16(nslot_label, nslots);
    let off = compiler::jump_offset(c.clen(), function_end);
    c.fill_label16(function_end, off);
    if !crate::text::is_underscore(name) {
        c.emit_set_var_fn(name.clone());
    }
    proof {
        reveal(ast::fn_epilogue_spec);
    }
}

/// Emits the function `name(args) = body` and, unless the name is `_`,
/// assigns it to `name`.
#[verifier::rlimit(100)]
#[verifier::spinoff_prover]
fn emit_named_fn(name: &String, args: &Vec<AST>, body: &AST, c: &mut Compiler) -> (r: Result<(), CodeGenError>)
    requires
        old(c)@.wf(),
    ensures
        final(c)@.wf(),
        emit_ok(r, ast::emit_named_fn_spec(name@, args@, *body, old(c)@), final(c)@),
        r is Ok ==> grows(old(c)@, final(c)@),
    decreases body, 3nat,
{
    let ghost st0 = c@;
    let labels = fn_prologue(name, args.len() as u16, c);
    let ghost st1 = c@;
    let r = bind_args(args, c);
    if r.is_err() {
        return r;
    }
    let ghost st2 = c@;
    let r = body.emit_fn_body(c);
    if r.is_err() {
        return r;
    }
    let ghost st3 = c@;
    proof {
        lemma_extends_trans(st0, st1, st2);
        lemma_extends_trans(st0, st2, st3);
    }
    fn_epilogue(name, labels.0, labels.1, c);
    proof {
        lemma_extends_rewrite(st0, st3, c@);
    }
    Ok(())
}

impl IfStatement {
    pub fn emit(&self, c: &mut Compiler) -> (r: Result<(), CodeGenError>)
        requires
            old(c)@.wf(),
        ensures
            final(c)@.wf(),
            emit_ok(r, ast::emit_if_spec(*self, old(c)@), final(c)@),
            r is Ok ==> grows(old(c)@, final(c)@),
        decreases self, 0nat,
    {
        let ghost st0 = c@;
        let idx = c.smap_begin(self._span);
        let r = self.expr.emit(c);
        if r.is_err() {
            return r;
        }
        let ghost a1 = c@;
        c.cpushop(VmOpcode::OP_JNCOND);
        let else_label = c.reserve_label16();
        let ghost a1b = c@;
        let r = self.then_.emit(c);
        if r.is_err() {
            return r;
        }
        let ghost a2 = c@;
        proof {
            lemma_extends_trans(st0, a1, a1b);
            lemma_extends_trans(st0, a1b, a2);
        }
        match &self.alt {
            Some(alt) => {
                c.cpushop(VmOpcode::OP_JMP);
                let done_label = c.reserve_label16();
                let ghost a3 = c@;
                proof {
                    lemma_extends_trans(st0, a2, a3);
                }
                let off = compiler::jump_offset(c.clen(), else_label);
                c.fill_label16(else_label, off);
                proof {
                    lemma_extends_fill(st0, a3, else_label as int, off);
                }
                let ghost a4 = c@;
                let r = alt.emit(c);
                if r.is_err() {
                    return r;
                }
                let ghost a5 = c@;
                proof {
                    lemma_extends_trans(st0, a4, a5);
                }
                let off = compiler::jump_offset(c.clen(), done_label);
                c.fill_label16(done_label, off);
                proof {
                    lemma_extends_fill(st0, a5, done_label as int, off);
                }
            },
            None => {
                let off = compiler::jump_offset(c.clen(), else_label);
                c.fill_label16(else_label, off);
                proof {
                    lemma_extends_fill(st0, a2, else_label as int, off);
                }
            },
        }
        let ghost a6 = c@;
        c.smap_end(idx);
        proof {
            lemma_extends_trans(st0, a6, c@);
        }
        Ok(())
    }
}

impl WhileStatement {
    pub fn emit(&self, c: &mut Compiler) -> (r: Result<(), CodeGenError>)
        requires
            old(c)@.wf(),
        ensures
            final(c)@.wf(),
            emit_ok(r, ast::emit_while_spec(*self, old(c)@), final(c)@),
            r is Ok ==> grows(old(c)@, final(c)@),
        decreases self, 0nat,
    {
        let ghost st0 = c@;
        let idx = c.smap_begin(self._span);
        c.cpushop(VmOpcode::OP_JMP);
        let begin_label = c.reserve_label16();
        let then_label = c.clen();
        c.loop_start();
        let ghost st1 = c@;
        let r = self.then_.emit(c);
        if r.is_err() {
            return r;
        }
        let ghost st2 = c@;
        let off = compiler::jump_offset(c.clen(), begin_label);
        c.fill_label16(begin_label, off);
        proof {
            lemma_extends_trans(st0, st1, st2);
            lemma_extends_fill(st0, st2, begin_label as int, off);
        }
        let ghost st3 = c@;
        let next_it = c.clen();
        let r = self.expr.emit(c);
        if r.is_err() {
            return r;
        }
        c.cpushop(VmOpcode::OP_JCOND);
        let off = compiler::jump_offset(then_label, c.clen());
        c.cpush16(off);
        let ghost st4 = c@;
        proof {
            lemma_extends_trans(st0, st3, st4);
            lemma_extends_close_loop(st0, st4, next_it as int, c@.code.len() as int);
        }
        let end = c.clen();
        c.loop_end(next_it, end);
        c.smap_end(idx);
        Ok(())
    }
}

impl ForStatement {
    #[verifier::rlimit(50)]
    pub fn emit(&self, c: &mut Compiler) -> (r: Result<(), CodeGenError>)
        requires
            old(c)@.wf(),
        ensures
            final(c)@.wf(),
            emit_ok(r, ast::emit_for_spec(*self, old(c)@), final(c)@),
            r is Ok ==> grows(old(c)@, final(c)@),
        decreases self, 0nat,
    {
        let ghost st0 = c@;
        let (reached, within) = if self.is_up {
            (VmOpcode::OP_GEQ, VmOpcode::OP_LEQ)
        } else {
            (VmOpcode::OP_LEQ, VmOpcode::OP_GEQ)
        };
        let idx = c.smap_begin(self._span);
        let r = self.from.emit(c);
        if r.is_err() {
            return r;
        }
        let ghost st1 = c@;
        c.emit_set_var(self.id.clone());
        c.cpushop(VmOpcode::OP_POP);
        c.cpushop(VmOpcode::OP_JMP);
        let begin_label = c.reserve_label16();
        let then_label = c.clen();
        c.loop_start();
        let ghost st2 = c@;
        proof {
            lemma_extends_trans(st0, st1, st2);
        }
        let r = self.stmt.emit(c);
        if r.is_err() {
            return r;
        }
        let ghost st3 = c@;
        let next_it = c.clen();
        c.emit_get_var(self.id.clone());
        let ghost st4 = c@;
        proof {
            lemma_extends_trans(st0, st2, st3);
            lemma_extends_trans(st0, st3, st4);
        }
        let r = self.to.emit(c);
        if r.is_err() {
            return r;
        }
        let ghost st5 = c@;
        c.cpushop(reached);
        c.cpushop(VmOpcode::OP_JCOND);
        let exit_label = c.reserve_label16();
        c.emit_get_var(self.id.clone());
        let ghost st6 = c@;
        proof {
            lemma_extends_trans(st0, st4, st5);
            lemma_extends_trans(st0, st5, st6);
        }
        let r = self.step.emit(c);
        if r.is_err() {
            return r;
        }
        let ghost st7 = c@;
        c.cpushop(
            if self.is_up {
                VmOpcode::OP_ADD
            } else {
                VmOpcode::OP_SUB
            },
        );
        c.emit_set_var(self.id.clone());
        c.cpushop(VmOpcode::OP_POP);
        let ghost st8 = c@;
        proof {
            lemma_extends_trans(st0, st6, st7);
            lemma_extends_trans(st0, st7, st8);
        }
        let off = compiler::jump_offset(c.clen(), begin_label);
        c.fill_label16(begin_label, off);
        proof {
            lemma_extends_fill(st0, st8, begin_label as int, off);
        }
        let ghost st9 = c@;
        c.emit_get_var(self.id.clone());
        let ghost st10 = c@;
        proof {
            lemma_extends_trans(st0, st9, st10);
        }
        let r = self.to.emit(c);
        if r.is_err() {
            return r;
        }
        let ghost st11 = c@;
        c.cpushop(within);
        c.cpushop(VmOpcode::OP_JCOND);
        let off = compiler::jump_offset(then_label, c.clen());
        c.cpush16(off);
        let ghost st12 = c@;
        proof {
            lemma_extends_trans(st0, st10, st11);
            lemma_extends_trans(st0, st11, st12);
        }
        let off = compiler::jump_offset(c.clen(), exit_label);
        c.fill_label16(exit_label, off);
        proof {
            lemma_extends_fill(st0, st12, exit_label as int, off);
            lemma_extends_close_loop(st0, c@, next_it as int, c@.code.len() as int);
        }
        let end = c.clen();
        c.loop_end(next_it, end);
        c.smap_end(idx);
        Ok(())
    }
}

impl ForInStatement {
    pub fn emit(&self, c: &mut Compiler) -> (r: Result<(), CodeGenError>)
        requires
            old(c)@.wf(),
        ensures
            final(c)@.wf(),
            emit_ok(r, ast::emit_forin_spec(*self, old(c)@), final(c)@),
            r is Ok ==> grows(old(c)@, final(c)@),
        decreases self, 0nat,
    {
        let ghost st0 = c@;
        let idx = c.smap_begin(self._span);
        let r = self.expr.emit(c);
        if r.is_err() {
            return r;
        }
        let next_it = c.clen();
        c.cpushop(VmOpcode::OP_FOR_IN);
        let end_label = c.reserve_label16();
        c.emit_set_var(self.id.clone());
        c.cpushop(VmOpcode::OP_POP);
        let ghost a1 = c@;
        let r = self.stmt.emit(c);
        if r.is_err() {
            return r;
        }
        let ghost a2 = c@;
        c.cpushop(VmOpcode::OP_JMP);
        let off = compiler::jump_offset(next_it, c.clen());
        c.cpush16(off);
        let ghost a3 = c@;
        proof {
            lemma_extends_trans(st0, a1, a2);
            lemma_extends_trans(st0, a2, a3);
        }
        let off = compiler::jump_offset(c.clen(), end_label);
        c.fill_label16(end_label, off);
        proof {
            lemma_extends_fill(st0, a3, end_label as int, off);
        }
        let ghost a4 = c@;
        c.smap_end(idx);
        proof {
            lemma_extends_trans(st0, a4, c@);
        }
        Ok(())
    }
}

impl FunctionStatement {
    pub fn emit(&self, c: &mut Compiler) -> (r: Result<(), CodeGenError>)
        requires
            old(c)@.wf(),
        ensures
            final(c)@.wf(),
            emit_ok(r, ast::emit_spec(AST::FunctionStatement(*self), old(c)@), final(c)@),
            r is Ok ==> grows(old(c)@, final(c)@),
        decreases self, 0nat,
    {
        let r = self.def.emit(c);
        if r.is_err() {
            return r;
        }
        match &self.def.id {
            Some(id) => {
                c.emit_set_var_fn(id.clone());
                c.cpushop(VmOpcode::OP_POP);
                Ok(())
            },
            None => Err(CodeGenError::UnnamedDefinition),
        }
    }
}

impl RecordStatement {
    pub fn emit(&self, c: &mut Compiler) -> (r: Result<(), CodeGenError>)
        requires
            old(c)@.wf(),
        ensures
            final(c)@.wf(),
            emit_ok(r, ast::emit_spec(AST::RecordStatement(*self), old(c)@), final(c)@),
            r is Ok ==> grows(old(c)@, final(c)@),
        decreases self, 0nat,
    {
        let r = self.def.emit(c);
        if r.is_err() {
            return r;
        }
        match &self.def.id {
            Some(id) => {
                c.emit_set_var(id.clone());
                c.cpushop(VmOpcode::OP_POP);
                Ok(())
            },
            None => Err(CodeGenError::UnnamedDefinition),
        }
    }
}

impl TryStatement {
    #[verifier::loop_isolation(false)]
    pub fn emit(&self, c: &mut Compiler) -> (r: Result<(), CodeGenError>)
        requires
            old(c)@.wf(),
        ensures
            final(c)@.wf(),
            emit_ok(r, ast::emit_try_spec(*self, old(c)@), final(c)@),
            r is Ok ==> grows(old(c)@, final(c)@),
        decreases self, 0nat,
    {
        let ghost st_init = c@;
        let idx = c.smap_begin(self._span);
        c.cpushop(VmOpcode::OP_PUSH_NIL);
        let ghost s0 = c@;
        let mut holes: Vec<usize> = Vec::new();
        let n = self.cases.len();
        let mut i: usize = 0;
        assert(self.cases@.subrange(0, n as int) =~= self.cases@);
        while i < n
            invariant
                n == self.cases@.len(),
                i <= n,
                c@.wf(),
                grows(s0, c@),
                forall|j: int| 0 <= j < holes@.len() ==> #[trigger] holes@[j] + 2 <= c@.code.len(),
                forall|j: int| 0 <= j < holes@.len() ==> #[trigger] holes@[j] >= s0.code.len(),
                ast::emit_cases_spec(self.cases@, s0, Seq::empty()) == ast::emit_cases_spec(
                    self.cases@.subrange(i as int, n as int),
                    c@,
                    holes@,
                ),
            decreases n - i,
        {
            proof {
                let rest = self.cases@.subrange(i as int, n as int);
                assert(rest[0] == self.cases@[i as int]);
                assert(rest.drop_first() =~= self.cases@.subrange(i + 1, n as int));
                assert(decreases_to!(self => self.cases@[i as int]));
            }
            let case = &self.cases[i];
            let ghost si = c@;
            c.cpushop(VmOpcode::OP_DEF_FUNCTION_PUSH);
            c.cpush16(
                if case.id.is_some() {
                    1
                } else {
                    0
                },
            );
            let body_start = c.reserve_label16();
            match &case.id {
                Some(id) => match &**id {
                    AST::Identifier(name) => {
                        c.emit_set_var(name.val.clone());
                        c.cpushop(VmOpcode::OP_POP);
                    },
                    _ => {
                        return Err(CodeGenError::ExpectedIdentifier);
                    },
                },
                None => {},
            }
            let ghost sa = c@;
            let r = emit_all(&case.stmts, c);
            if r.is_err() {
                return r;
            }
            let ghost sb = c@;
            c.cpushop(VmOpcode::OP_EXFRAME_RET);
            let hole = c.reserve_label16();
            holes.push(hole);
            let ghost sc = c@;
            proof {
                lemma_extends_trans(si, sa, sb);
                lemma_extends_trans(si, sb, sc);
            }
            let off = compiler::jump_offset(c.clen(), body_start);
            c.fill_label16(body_start, off);
            proof {
                lemma_extends_fill(si, sc, body_start as int, off);
            }
            let ghost sd = c@;
            let r = case.etype.emit(c);
            if r.is_err() {
                return r;
            }
            proof {
                lemma_extends_trans(si, sd, c@);
                lemma_extends_trans(s0, si, c@);
            }
            i += 1;
        }
        assert(self.cases@.subrange(n as int, n as int) =~= Seq::<CaseStatement>::empty());
        let ghost s1 = c@;
        c.cpushop(VmOpcode::OP_TRY);
        let ghost s1b = c@;
        let r = emit_all(&self.stmts, c);
        if r.is_err() {
            return r;
        }
        let ghost s2 = c@;
        proof {
            lemma_extends_trans(s0, s1, s1b);
            lemma_extends_trans(s0, s1b, s2);
            lemma_extends_trans(st_init, s0, s2);
        }
        let target = c.clen();
        let mut k: usize = 0;
        while k < holes.len()
            invariant
                k <= holes@.len(),
                target == s2.code.len(),
                s2.wf(),
                forall|j: int| 0 <= j < holes@.len() ==> #[trigger] holes@[j] + 2 <= s2.code.len(),
                c@ == s2.with_code(compiler::fill_all(s2.code, holes@.take(k as int), target as int)),
                c@.wf(),
            decreases holes.len() - k,
        {
            let hole = holes[k];
            proof {
                assert forall|j: int| 0 <= j < holes@.take(k as int).len() implies #[trigger] holes@.take(
                    k as int,
                )[j] + 2 <= s2.code.len() by {
                    assert(holes@.take(k as int)[j] == holes@[j]);
                }
                compiler::lemma_fill_all_len(s2.code, holes@.take(k as int), target as int);
            }
            let off = compiler::jump_offset(target, hole);
            c.fill_label16(hole, off);
            proof {
                assert(holes@.take(k + 1) =~= holes@.take(k as int).push(hole));
                compiler::lemma_fill_all_push(s2.code, holes@.take(k as int), hole, target as int);
            }
            k += 1;
        }
        assert(holes@.take(holes.len() as int) =~= holes@);
        proof {
            compiler::lemma_fill_all_len(s2.code, holes@, target as int);
            lemma_fill_all_keeps(s2.code, holes@, target as int, s0.code.len() as int);
            lemma_extends_rewrite(st_init, s2, c@);
        }
        c.smap_end(idx);
        Ok(())
    }
}

/// The code of a whole program: its statements, then `OP_HALT`.
pub open spec fn program_spec(prog: Seq<AST>, st: CompilerState) -> EmitResult {
    match ast::emit_seq_spec(prog, st) {
        Ok(s1) => Ok(s1.push_op(VmOpcode::OP_HALT)),
        Err(e) => Err(e),
    }
}

/// Law: the code of a program is the code of its statements, one after
/// the other, followed by OP_HALT (0).
pub proof fn law_program_code(prog: Seq<AST>, st: CompilerState)
    ensures
        match ast::emit_seq_spec(prog, st) {
            Ok(s1) => program_spec(prog, st) matches Ok(s) && s.code == s1.code.push(0u8),
            Err(err) => program_spec(prog, st) == Err::<CompilerState, CodeGenError>(err),
        },
{
}

/// The code of a line typed at the prompt: its statements, except that of
/// a last expression statement only the expression is emitted, so that its
/// value stays on the stack to be shown; the flag says whether it was so.
pub open spec fn repl_spec(prog: Seq<AST>, st: CompilerState) -> Result<(CompilerState, bool), CodeGenError> {
    if prog.len() == 0 {
        Ok((st, false))
    } else {
        match ast::emit_seq_spec(prog.drop_last(), st) {
            Ok(s1) => match prog.last() {
                AST::ExprStatement(e) => match ast::emit_spec(*e.expr, s1) {
                    Ok(s2) => Ok((s2, true)),
                    Err(err) => Err(err),
                },
                last => match ast::emit_spec(last, s1) {
                    Ok(s2) => Ok((s2, false)),
                    Err(err) => Err(err),
                },
            },
            Err(err) => Err(err),
        }
    }
}

/// Emits a whole program: its statements, then `OP_HALT`.
pub fn compile_program(prog: &Vec<AST>, c: &mut Compiler) -> (r: Result<(), CodeGenError>)
    requires
        old(c)@.wf(),
    ensures
        final(c)@.wf(),
        emit_ok(r, program_spec(prog@, old(c)@), final(c)@),
        r is Ok ==> grows(old(c)@, final(c)@),
{
    let ghost st0 = c@;
    let r = emit_all(prog, c);
    if r.is_err() {
        return r;
    }
    let ghost st1 = c@;
    c.cpushop(VmOpcode::OP_HALT);
    proof {
        lemma_grows_trans(st0, st1, c@);
    }
    Ok(())
}

/// Emits a line typed at the prompt (see `repl_spec`).
#[verifier::loop_isolation(false)]
pub fn compile_repl_input(prog: &Vec<AST>, c: &mut Compiler) -> (r: Result<bool, CodeGenError>)
    requires
        old(c)@.wf(),
    ensures
        final(c)@.wf(),
        match repl_spec(prog@, old(c)@) {
            Ok((st, shown)) => r == Ok::<bool, CodeGenError>(shown) && final(c)@ == st,
            Err(e) => r == Err::<bool, CodeGenError>(e),
        },
        r is Ok ==> grows(old(c)@, final(c)@),
{
    let n = prog.len();
    if n == 0 {
        return Ok(false);
    }
    let ghost st0 = c@;
    let ghost init = prog@.drop_last();
    let mut i: usize = 0;
    assert(init.subrange(0, (n - 1) as int) =~= init);
    while i < n - 1
        invariant
            n == prog@.len(),
            n > 0,
            init == prog@.drop_last(),
            i <= n - 1,
            c@.wf(),
            grows(st0, c@),
            ast::emit_seq_spec(init, st0) == ast::emit_seq_spec(init.subrange(i as int, (n - 1) as int), c@),
        decreases n - 1 - i,
    {
        proof {
            let rest = init.subrange(i as int, (n - 1) as int);
            assert(rest[0] == prog@[i as int]);
            assert(rest.drop_first() =~= init.subrange(i + 1, (n - 1) as int));
            assert(ast::emit_seq_spec(rest, c@) == match ast::emit_spec(prog@[i as int], c@) {
                Ok(s1) => ast::emit_seq_spec(init.subrange(i + 1, (n - 1) as int), s1),
                Err(err) => Err(err),
            });
        }
        let ghost before = c@;
        let r = prog[i].emit(c);
        if let Err(e) = r {
            return Err(e);
        }
        proof {
            lemma_grows_trans(st0, before, c@);
        }
        i += 1;
    }
    assert(init.subrange((n - 1) as int, (n - 1) as int) =~= Seq::<AST>::empty());
    assert(prog@.last() == prog@[n - 1]);
    let ghost before = c@;
    match &prog[n - 1] {
        AST::ExprStatement(e) => {
            match e.expr.emit(c) {
                Ok(()) => {
                    proof {
                        lemma_grows_trans(st0, before, c@);
                    }
                    Ok(true)
                },
                Err(err) => Err(err),
            }
        },
        last => {
            match last.emit(c) {
                Ok(()) => {
                    proof {
                        lemma_grows_trans(st0, before, c@);
                    }
                    Ok(false)
                },
                Err(err) => Err(err),
            }
        },
    }
}

} // verus!
