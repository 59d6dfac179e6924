//! Bytecode buffer and compile-time bookkeeping (scopes, loops, source maps).

use std::collections::HashMap;
use vstd::prelude::*;

use crate::vmbindings::vm::VmOpcode;

verus! {

broadcast use vstd::std_specs::hash::group_hash_axioms;

/// A range of indices (start, end).
pub type ArrayIndexRange = (usize, usize);

/// Maps a range of the source text to the range of bytecode generated from it.
#[derive(Debug, Clone, Copy)]
pub struct SourceMap {
    /// Range of the source text (character positions).
    pub file: ArrayIndexRange,
    /// Range of bytecode generated from that text.
    pub bytecode: ArrayIndexRange,
    /// Index of the source file in `Compiler::files`.
    pub fileno: usize,
}

/// The local variables declared in one function scope, in slot order.
pub struct Scope {
    pub vars: Vec<String>,
}

impl Scope {
    pub fn new() -> (s: Scope)
        ensures
            s.vars@.len() == 0,
    {
        Scope { vars: Vec::new() }
    }
}

/// Jump labels of one loop that still wait for their targets.
pub struct LoopStatement {
    pub fill_continue: Vec<usize>,
    pub fill_break: Vec<usize>,
}

/// Pending jump labels of one loop, as a mathematical value.
pub struct LoopLabels {
    pub cont: Seq<usize>,
    pub brk: Seq<usize>,
}

/// The abstract state of a compiler.
pub struct CompilerState {
    /// The bytecode generated so far.
    pub code: Seq<u8>,
    /// Local variable names of each open scope, innermost last.
    pub scopes: Seq<Seq<Seq<char>>>,
    /// Pending labels of each open loop, innermost last.
    pub loops: Seq<LoopLabels>,
    /// Source map entries, in the order they were opened.
    pub smap: Seq<SourceMap>,
    /// Names of the source files registered, in order.
    pub files: Seq<Seq<char>>,
    /// Texts of the source files registered, in order.
    pub sources: Seq<Seq<char>>,
    /// Names of functions, by the index of the last instruction of their body.
    pub symbol: Map<usize, String>,
}

/// Big-endian encoding of a 16-bit number.
pub open spec fn be16(n: u16) -> Seq<u8> {
    seq![(n / 256) as u8, (n % 256) as u8]
}

/// Big-endian encoding of a 32-bit number.
pub open spec fn be32(n: u32) -> Seq<u8> {
    seq![
        (n / 0x100_0000) as u8,
        ((n / 0x1_0000) % 256) as u8,
        ((n / 256) % 256) as u8,
        (n % 256) as u8,
    ]
}

/// Big-endian encoding of a 64-bit number.
pub open spec fn be64(n: u64) -> Seq<u8> {
    be32((n / 0x1_0000_0000) as u32) + be32((n % 0x1_0000_0000) as u32)
}

/// Does the variable name refer to the global scope (it starts with `$`)?
pub open spec fn is_global_name(var: Seq<char>) -> bool {
    var.len() > 0 && var[0] == '$'
}

/// The name under which a variable is stored in the global environment.
pub open spec fn global_name(var: Seq<char>) -> Seq<char> {
    if is_global_name(var) {
        var.drop_first()
    } else {
        var
    }
}

/// Index of the first occurrence of `x` in `s`, or `s.len()` if there is none.
pub open spec fn first_index(s: Seq<Seq<char>>, x: Seq<char>) -> int
    decreases s.len(),
{
    if s.len() == 0 {
        0
    } else if s[0] == x {
        0
    } else {
        1 + first_index(s.drop_first(), x)
    }
}

/// Looks up a variable in the open scopes, innermost first: its slot in the
/// scope that declares it and how many scopes up that scope is.
pub open spec fn find_local(scopes: Seq<Seq<Seq<char>>>, var: Seq<char>) -> Option<(int, int)>
    decreases scopes.len(),
{
    if scopes.len() == 0 {
        None
    } else if scopes.last().contains(var) {
        Some((first_index(scopes.last(), var), 0))
    } else {
        match find_local(scopes.drop_last(), var) {
            Some((slot, up)) => Some((slot, up + 1)),
            None => None,
        }
    }
}

/// Offset of a jump from `from` to `to` (forward or back), modulo 2^16.
pub open spec fn offset16(to: int, from: int) -> u16 {
    ((to - from) % 0x10000) as u16
}

/// Writes the labels `labels`, each with the distance from it to `target`.
pub open spec fn fill_all(code: Seq<u8>, labels: Seq<usize>, target: int) -> Seq<u8>
    decreases labels.len(),
{
    if labels.len() == 0 {
        code
    } else {
        fill_all(
            patch16(code, labels[0] as int, offset16(target, labels[0] as int)),
            labels.drop_first(),
            target,
        )
    }
}

/// Overwrites two bytes at `pos` with the big-endian encoding of `v`.
pub open spec fn patch16(code: Seq<u8>, pos: int, v: u16) -> Seq<u8> {
    code.update(pos, be16(v)[0]).update(pos + 1, be16(v)[1])
}

/// Adds `d` to the scope distance of a lookup result.
pub open spec fn shift_up(o: Option<(int, int)>, d: int) -> Option<(int, int)> {
    match o {
        Some((slot, up)) => Some((slot, up + d)),
        None => None,
    }
}

/// Index of the last source map entry whose bytecode range holds `idx`.
pub open spec fn last_containing(smap: Seq<SourceMap>, idx: usize) -> Option<int>
    decreases smap.len(),
{
    if smap.len() == 0 {
        None
    } else if smap.last().bytecode.0 <= idx <= smap.last().bytecode.1 {
        Some(smap.len() - 1)
    } else {
        last_containing(smap.drop_last(), idx)
    }
}

/// Law: the entry that `last_containing` picks holds `idx` in its bytecode
/// range (both ends included), and no entry opened after it does; when it
/// picks none, no entry holds `idx`.
pub proof fn law_last_containing(smap: Seq<SourceMap>, idx: usize)
    ensures
        match last_containing(smap, idx) {
            Some(i) => {
                &&& 0 <= i < smap.len()
                &&& smap[i].bytecode.0 <= idx <= smap[i].bytecode.1
                &&& forall|j: int|
                    i < j < smap.len() ==> !(#[trigger] smap[j].bytecode.0 <= idx <= smap[j].bytecode.1)
            },
            None => forall|j: int|
                0 <= j < smap.len() ==> !(#[trigger] smap[j].bytecode.0 <= idx <= smap[j].bytecode.1),
        },
    decreases smap.len(),
{
    if smap.len() > 0 {
        law_last_containing(smap.drop_last(), idx);
        assert forall|j: int| 0 <= j < smap.len() - 1 implies #[trigger] smap[j] == smap.drop_last()[j] by {}
    }
}

/// Lemma: the first index of an element found at `j` with nothing equal before it is `j`.
pub proof fn lemma_first_index(s: Seq<Seq<char>>, x: Seq<char>, j: int)
    requires
        0 <= j <= s.len(),
        forall|k: int| 0 <= k < j ==> s[k] != x,
        j < s.len() ==> s[j] == x,
    ensures
        first_index(s, x) == j,
    decreases j,
{
    if j > 0 {
        lemma_first_index(s.drop_first(), x, j - 1);
    }
}

/// Lemma: filling the labels of `s` then `x` is filling the labels of `s.push(x)`.
pub proof fn lemma_fill_all_push(code: Seq<u8>, s: Seq<usize>, x: usize, target: int)
    requires
        forall|j: int| 0 <= j < s.len() ==> #[trigger] s[j] + 2 <= code.len(),
    ensures
        fill_all(code, s.push(x), target) == patch16(fill_all(code, s, target), x as int, offset16(target, x as int)),
    decreases s.len(),
{
    if s.len() == 0 {
        assert(s.push(x).drop_first() =~= Seq::<usize>::empty());
        assert(s.push(x)[0] == x);
        let c1 = patch16(code, x as int, offset16(target, x as int));
        assert(fill_all(c1, Seq::<usize>::empty(), target) == c1);
    } else {
        assert(s.push(x).drop_first() =~= s.drop_first().push(x));
        assert(s.push(x)[0] == s[0]);
        let c2 = patch16(code, s[0] as int, offset16(target, s[0] as int));
        assert(c2.len() == code.len());
        assert forall|j: int| 0 <= j < s.drop_first().len() implies #[trigger] s.drop_first()[j] + 2 <= c2.len() by {
            assert(s.drop_first()[j] == s[j + 1]);
        }
        lemma_fill_all_push(patch16(code, s[0] as int, offset16(target, s[0] as int)), s.drop_first(), x, target);
    }
}

/// Lemma: filling labels keeps the length of the code.
pub proof fn lemma_fill_all_len(code: Seq<u8>, s: Seq<usize>, target: int)
    requires
        forall|j: int| 0 <= j < s.len() ==> #[trigger] s[j] + 2 <= code.len(),
    ensures
        fill_all(code, s, target).len() == code.len(),
    decreases s.len(),
{
    if s.len() > 0 {
        let c2 = patch16(code, s[0] as int, offset16(target, s[0] as int));
        assert forall|j: int| 0 <= j < s.drop_first().len() implies #[trigger] s.drop_first()[j] + 2 <= c2.len() by {
            assert(s.drop_first()[j] == s[j + 1]);
        }
        lemma_fill_all_len(patch16(code, s[0] as int, offset16(target, s[0] as int)), s.drop_first(), target);
    }
}

/// Lemma: the UTF-8 encoding of a string that starts with `$` is the byte 36
/// followed by the encoding of the rest.
pub proof fn lemma_encode_dollar(s: Seq<char>)
    requires
        is_global_name(s),
    ensures
        vstd::utf8::encode_utf8(s) == seq![36u8] + vstd::utf8::encode_utf8(s.drop_first()),
{
    assert(s[0] as u32 == 36);
    assert((36u32 & 0x7Fu32) as u8 == 36u8) by (bit_vector);
    assert(vstd::utf8::encode_scalar(36) =~= seq![36u8]);
}

/// The offset of a jump from `from` to `to`, as `offset16` defines it.
pub fn jump_offset(to: usize, from: usize) -> (r: u16)
    ensures
        r == offset16(to as int, from as int),
{
    if to >= from {
        ((to - from) % 0x10000) as u16
    } else {
        let d: usize = (from - to) % 0x10000;
        proof {
            let dd = (from - to) as int;
            assert((to - from) % 0x10000 == (if d == 0 { 0 } else { 0x10000 - d })) by (nonlinear_arith)
                requires
                    dd > 0,
                    d == dd % 0x10000,
                    to - from == -dd,
            ;
        }
        if d == 0 {
            0
        } else {
            (0x10000 - d) as u16
        }
    }
}

impl CompilerState {
    pub open spec fn with_code(self, code: Seq<u8>) -> CompilerState {
        CompilerState {
            code: code,
            scopes: self.scopes,
            loops: self.loops,
            smap: self.smap,
            files: self.files,
            sources: self.sources,
            symbol: self.symbol,
        }
    }

    /// The state with one more source file, named `name`, whose text is `text`.
    pub open spec fn add_file(self, name: Seq<char>, text: Seq<char>) -> CompilerState {
        CompilerState {
            code: self.code,
            scopes: self.scopes,
            loops: self.loops,
            smap: self.smap,
            files: self.files.push(name),
            sources: self.sources.push(text),
            symbol: self.symbol,
        }
    }

    pub open spec fn push_bytes(self, b: Seq<u8>) -> CompilerState {
        self.with_code(self.code + b)
    }

    pub open spec fn push_op(self, op: VmOpcode) -> CompilerState {
        self.push_bytes(seq![op.spec_byte()])
    }

    /// Pushes a string: its UTF-8 bytes followed by a zero byte.
    pub open spec fn push_str(self, s: Seq<char>) -> CompilerState {
        self.push_bytes(vstd::utf8::encode_utf8(s) + seq![0u8])
    }

    pub open spec fn fill16(self, pos: int, v: u16) -> CompilerState {
        self.with_code(patch16(self.code, pos, v))
    }

    pub open spec fn local_of(self, var: Seq<char>) -> Option<(u16, u16)> {
        match find_local(self.scopes, var) {
            Some((slot, up)) => Some((slot as u16, up as u16)),
            None => None,
        }
    }

    /// Declares a new local variable in the innermost scope.
    pub open spec fn add_local(self, var: Seq<char>) -> CompilerState {
        CompilerState {
            code: self.code,
            scopes: self.scopes.update(self.scopes.len() - 1, self.scopes.last().push(var)),
            loops: self.loops,
            smap: self.smap,
            files: self.files,
            sources: self.sources,
            symbol: self.symbol,
        }
    }

    /// The slot that `add_local` gives to the new variable.
    pub open spec fn new_slot(self) -> u16 {
        self.scopes.last().len() as u16
    }

    /// Effect of setting a variable, with `op` the instruction for a local.
    pub open spec fn set_var_with(self, var: Seq<char>, op: VmOpcode) -> CompilerState {
        if is_global_name(var) || self.scopes.len() == 0 {
            self.push_op(VmOpcode::OP_SET_GLOBAL).push_str(global_name(var))
        } else {
            match self.local_of(var) {
                Some((slot, up)) => if up != 0 {
                    self.add_local(var).push_op(op).push_bytes(be16(self.new_slot()))
                } else {
                    self.push_op(op).push_bytes(be16(slot))
                },
                None => self.add_local(var).push_op(op).push_bytes(be16(self.new_slot())),
            }
        }
    }

    pub open spec fn set_var(self, var: Seq<char>) -> CompilerState {
        self.set_var_with(var, VmOpcode::OP_SET_LOCAL)
    }

    pub open spec fn set_var_fn(self, var: Seq<char>) -> CompilerState {
        self.set_var_with(var, VmOpcode::OP_SET_LOCAL_FUNCTION_DEF)
    }

    pub open spec fn get_var(self, var: Seq<char>) -> CompilerState {
        match self.local_of(var) {
            Some((slot, up)) => if is_global_name(var) {
                self.push_op(VmOpcode::OP_GET_GLOBAL).push_str(global_name(var))
            } else if up == 0 {
                self.push_op(VmOpcode::OP_GET_LOCAL).push_bytes(be16(slot))
            } else {
                self.push_op(VmOpcode::OP_GET_LOCAL_UP).push_bytes(be16(slot)).push_bytes(be16(up))
            },
            None => self.push_op(VmOpcode::OP_GET_GLOBAL).push_str(global_name(var)),
        }
    }

    pub open spec fn open_scope(self) -> CompilerState {
        CompilerState {
            code: self.code,
            scopes: self.scopes.push(Seq::empty()),
            loops: self.loops,
            smap: self.smap,
            files: self.files,
            sources: self.sources,
            symbol: self.symbol,
        }
    }

    pub open spec fn close_scope(self) -> CompilerState {
        CompilerState {
            code: self.code,
            scopes: self.scopes.drop_last(),
            loops: self.loops,
            smap: self.smap,
            files: self.files,
            sources: self.sources,
            symbol: self.symbol,
        }
    }

    pub open spec fn with_loops(self, loops: Seq<LoopLabels>) -> CompilerState {
        CompilerState {
            code: self.code,
            scopes: self.scopes,
            loops: loops,
            smap: self.smap,
            files: self.files,
            sources: self.sources,
            symbol: self.symbol,
        }
    }

    pub open spec fn open_loop(self) -> CompilerState {
        self.with_loops(self.loops.push(LoopLabels { cont: Seq::empty(), brk: Seq::empty() }))
    }

    /// Reserves a 32-bit label for a `continue` of the innermost loop.
    pub open spec fn add_continue(self) -> CompilerState {
        let l = self.loops.last();
        let st = self.push_bytes(be32(0xdeadbeef));
        st.with_loops(
            self.loops.update(
                self.loops.len() - 1,
                LoopLabels { cont: l.cont.push(self.code.len() as usize), brk: l.brk },
            ),
        )
    }

    /// Reserves a 32-bit label for a `break` of the innermost loop.
    pub open spec fn add_break(self) -> CompilerState {
        let l = self.loops.last();
        let st = self.push_bytes(be32(0xdeadbeef));
        st.with_loops(
            self.loops.update(
                self.loops.len() - 1,
                LoopLabels { cont: l.cont, brk: l.brk.push(self.code.len() as usize) },
            ),
        )
    }

    /// Closes the innermost loop: its `continue` labels jump to `next_it`,
    /// its `break` labels to `end`.
    pub open spec fn close_loop(self, next_it: int, end: int) -> CompilerState {
        let l = self.loops.last();
        let code = fill_all(fill_all(self.code, l.cont, next_it), l.brk, end);
        self.with_code(code).with_loops(self.loops.drop_last())
    }

    pub open spec fn with_smap(self, smap: Seq<SourceMap>) -> CompilerState {
        CompilerState {
            code: self.code,
            scopes: self.scopes,
            loops: self.loops,
            smap: smap,
            files: self.files,
            sources: self.sources,
            symbol: self.symbol,
        }
    }

    /// Opens a source map entry for a node spanning `span`.
    pub open spec fn smap_begin(self, span: (usize, usize)) -> CompilerState {
        self.with_smap(
            self.smap.push(
                SourceMap {
                    file: span,
                    bytecode: (self.code.len() as usize, 0),
                    fileno: if self.files.len() == 0 {
                        0
                    } else {
                        (self.files.len() - 1) as usize
                    },
                },
            ),
        )
    }

    /// Closes the source map entry `idx` at the current end of the code.
    pub open spec fn smap_end(self, idx: int) -> CompilerState {
        let e = self.smap[idx];
        self.with_smap(
            self.smap.update(
                idx,
                SourceMap {
                    file: e.file,
                    bytecode: (e.bytecode.0, self.code.len() as usize),
                    fileno: e.fileno,
                },
            ),
        )
    }

    pub open spec fn add_symbol(self, k: usize, name: String) -> CompilerState {
        CompilerState {
            code: self.code,
            scopes: self.scopes,
            loops: self.loops,
            smap: self.smap,
            files: self.files,
            sources: self.sources,
            symbol: self.symbol.insert(k, name),
        }
    }

    /// Every pending loop label lies inside the code.
    pub open spec fn labels_in_code(self) -> bool {
        forall|i: int, j: int|
            #![trigger self.loops[i].cont[j]]
            0 <= i < self.loops.len() && 0 <= j < self.loops[i].cont.len() ==> self.loops[i].cont[j]
                + 4 <= self.code.len()
    }

    pub open spec fn break_labels_in_code(self) -> bool {
        forall|i: int, j: int|
            #![trigger self.loops[i].brk[j]]
            0 <= i < self.loops.len() && 0 <= j < self.loops[i].brk.len() ==> self.loops[i].brk[j]
                + 4 <= self.code.len()
    }

    /// The invariant that the compiler keeps between operations.
    pub open spec fn wf(self) -> bool {
        &&& self.labels_in_code()
        &&& self.break_labels_in_code()
        &&& forall|i: int|
            0 <= i < self.smap.len() ==> (#[trigger] self.smap[i]).bytecode.0 <= self.code.len()
    }
}

impl CompilerState {
    /// The invariant survives any change that only keeps or lengthens the code.
    pub proof fn lemma_wf_longer_code(st: CompilerState, st2: CompilerState)
        requires
            st.wf(),
            st2.loops == st.loops,
            st2.smap == st.smap,
            st2.code.len() >= st.code.len(),
        ensures
            st2.wf(),
    {
        assert forall|k: int| 0 <= k < st2.smap.len() implies (#[trigger] st2.smap[k]).bytecode.0
            <= st2.code.len() by {
            assert(st.smap[k] == st2.smap[k]);
        }
        assert forall|i: int, j: int|
            0 <= i < st2.loops.len() && 0 <= j < st2.loops[i].cont.len() implies #[trigger] st2.loops[i].cont[j]
            + 4 <= st2.code.len() by {
            assert(st.loops[i].cont[j] == st2.loops[i].cont[j]);
        }
        assert forall|i: int, j: int|
            0 <= i < st2.loops.len() && 0 <= j < st2.loops[i].brk.len() implies #[trigger] st2.loops[i].brk[j]
            + 4 <= st2.code.len() by {
            assert(st.loops[i].brk[j] == st2.loops[i].brk[j]);
        }
    }
}

/// Bytecode compiler: holds the code being generated and what the code
/// generation needs to know about the program around it.
pub struct Compiler {
    scopes: Vec<Scope>,
    loop_stmts: Vec<LoopStatement>,
    pub smap: Vec<SourceMap>,
    pub files: Vec<String>,
    pub symbol: HashMap<usize, String>,
    pub sources: Vec<String>,
    pub code: Vec<u8>,
}

impl View for Compiler {
    type V = CompilerState;

    closed spec fn view(&self) -> CompilerState {
        CompilerState {
            code: self.code@,
            scopes: Seq::new(
                self.scopes@.len(),
                |i: int| self.scopes@[i].vars@.map_values(|s: String| s@),
            ),
            loops: Seq::new(
                self.loop_stmts@.len(),
                |i: int|
                    LoopLabels {
                        cont: self.loop_stmts@[i].fill_continue@,
                        brk: self.loop_stmts@[i].fill_break@,
                    },
            ),
            smap: self.smap@,
            files: self.files@.map_values(|s: String| s@),
            sources: self.sources@.map_values(|s: String| s@),
            symbol: self.symbol@,
        }
    }
}


impl Compiler {
    /// A compiler with no code and no open scope.
    pub fn new() -> (c: Compiler)
        ensures
            c@.code.len() == 0,
            c@.scopes.len() == 0,
            c@.loops.len() == 0,
            c@.smap.len() == 0,
            c@.files.len() == 0,
            c@.sources.len() == 0,
            c@.symbol == Map::<usize, String>::empty(),
            c@.wf(),
    {
        Compiler {
            scopes: Vec::new(),
            loop_stmts: Vec::new(),
            smap: Vec::new(),
            files: Vec::new(),
            symbol: HashMap::new(),
            sources: Vec::new(),
            code: Vec::new(),
        }
    }

    /// A compiler that appends to existing code.
    pub fn new_append(code: Vec<u8>) -> (c: Compiler)
        ensures
            c@.code == code@,
            c@.scopes.len() == 0,
            c@.loops.len() == 0,
            c@.smap.len() == 0,
            c@.files.len() == 0,
            c@.sources.len() == 0,
            c@.symbol == Map::<usize, String>::empty(),
            c@.wf(),
    {
        Compiler {
            scopes: Vec::new(),
            loop_stmts: Vec::new(),
            smap: Vec::new(),
            files: Vec::new(),
            symbol: HashMap::new(),
            sources: Vec::new(),
            code: code,
        }
    }

    /// The code of a compiler fits in memory.
    pub proof fn lemma_code_fits(&self)
        ensures
            self@.code.len() <= usize::MAX,
    {
        assert(self.code.len() == self.code@.len());
    }

    /// Registers a source file: its name and its text.
    pub fn add_file(&mut self, name: &str, text: &str)
        requires
            old(self)@.wf(),
        ensures
            final(self)@ == old(self)@.add_file(name@, text@),
            final(self)@.wf(),
    {
        let ghost st0 = self@;
        self.files.push(name.to_owned());
        self.sources.push(text.to_owned());
        assert(self@.files =~= st0.files.push(name@));
        assert(self@.sources =~= st0.sources.push(text@));
        assert(self@.scopes =~= st0.scopes);
        assert(self@.loops =~= st0.loops);
    }

    /// Length of the code generated so far.
    pub fn clen(&self) -> (n: usize)
        ensures
            n == self@.code.len(),
    {
        self.code.len()
    }

    /// Takes the generated code out of the compiler, leaving it empty.
    pub fn take_code(&mut self) -> (code: Vec<u8>)
        ensures
            code@ == old(self)@.code,
            final(self)@ == old(self)@.with_code(Seq::empty()),
    {
        let mut code = Vec::new();
        std::mem::swap(&mut code, &mut self.code);
        code
    }

    /// Gives the compiler code to append to.
    pub fn receive_code(&mut self, code: Vec<u8>)
        ensures
            final(self)@ == old(self)@.with_code(code@),
    {
        self.code = code;
    }

    /// Consumes the compiler, returning the generated code.
    pub fn into_code(self) -> (code: Vec<u8>)
        ensures
            code@ == self@.code,
    {
        self.code
    }

    /// Is code being generated inside a function body?
    pub fn is_in_function(&self) -> (b: bool)
        ensures
            b == (self@.scopes.len() > 0),
    {
        self.scopes.len() > 0
    }

    /// Is code being generated inside a loop body?
    pub fn is_in_loop(&self) -> (b: bool)
        ensures
            b == (self@.loops.len() > 0),
    {
        self.loop_stmts.len() > 0
    }

    /// The last byte of the code, if any.
    pub fn code_top(&self) -> (b: Option<u8>)
        ensures
            self@.code.len() == 0 ==> b is None,
            self@.code.len() > 0 ==> b == Some(self@.code.last()),
    {
        if self.code.len() == 0 {
            None
        } else {
            Some(self.code[self.code.len() - 1])
        }
    }

    // code pushes

    /// Appends raw bytes.
    pub fn cpush_bytes(&mut self, b: &[u8])
        requires
            old(self)@.wf(),
        ensures
            final(self)@ == old(self)@.push_bytes(b@),
            final(self)@.wf(),
    {
        let ghost st0 = self@;
        let mut i: usize = 0;
        while i < b.len()
            invariant
                i <= b.len(),
                self@ == st0.push_bytes(b@.take(i as int)),
                st0.wf(),
            decreases b.len() - i,
        {
            self.code.push(b[i]);
            assert(b@.take(i + 1) =~= b@.take(i as int).push(b@[i as int]));
            assert(self@.code =~= st0.code + b@.take(i + 1));
            i += 1;
        }
        assert(b@.take(b.len() as int) =~= b@);
        proof {
            CompilerState::lemma_wf_longer_code(st0, self@);
        }
    }

    /// Appends an opcode.
    pub fn cpushop(&mut self, op: VmOpcode)
        requires
            old(self)@.wf(),
        ensures
            final(self)@ == old(self)@.push_op(op),
            final(self)@.wf(),
    {
        let b = [op.to_byte()];
        self.cpush_bytes(&b);
        assert(b@ =~= seq![op.spec_byte()]);
    }

    /// Appends a byte.
    pub fn cpush8(&mut self, n: u8)
        requires
            old(self)@.wf(),
        ensures
            final(self)@ == old(self)@.push_bytes(seq![n]),
            final(self)@.wf(),
    {
        let b = [n];
        self.cpush_bytes(&b);
        assert(b@ =~= seq![n]);
    }

    /// Appends a 16-bit number, big-endian.
    pub fn cpush16(&mut self, n: u16)
        requires
            old(self)@.wf(),
        ensures
            final(self)@ == old(self)@.push_bytes(be16(n)),
            final(self)@.wf(),
    {
        let b = [(n / 256) as u8, (n % 256) as u8];
        self.cpush_bytes(&b);
        assert(b@ =~= be16(n));
    }

    /// Appends a 32-bit number, big-endian.
    pub fn cpush32(&mut self, n: u32)
        requires
            old(self)@.wf(),
        ensures
            final(self)@ == old(self)@.push_bytes(be32(n)),
            final(self)@.wf(),
    {
        let b = [
            (n / 0x100_0000) as u8,
            ((n / 0x1_0000) % 256) as u8,
            ((n / 256) % 256) as u8,
            (n % 256) as u8,
        ];
        self.cpush_bytes(&b);
        assert(b@ =~= be32(n));
    }

    /// Appends a 64-bit number, big-endian.
    pub fn cpush64(&mut self, n: u64)
        requires
            old(self)@.wf(),
        ensures
            final(self)@ == old(self)@.push_bytes(be64(n)),
            final(self)@.wf(),
    {
        let ghost st0 = self@;
        self.cpush32((n / 0x1_0000_0000) as u32);
        self.cpush32((n % 0x1_0000_0000) as u32);
        assert(self@.code =~= st0.code + be64(n));
    }

    /// Appends a string: its UTF-8 bytes followed by a zero byte.
    pub fn cpushs(&mut self, s: &str)
        requires
            old(self)@.wf(),
        ensures
            final(self)@ == old(self)@.push_str(s@),
            final(self)@.wf(),
    {
        let ghost st0 = self@;
        let bytes = s.as_bytes();
        self.cpush_bytes(bytes);
        self.cpush8(0);
        assert(self@.code =~= st0.code + (vstd::utf8::encode_utf8(s@) + seq![0u8]));
    }

    /// Overwrites the two bytes at `pos` with `label`, big-endian.
    pub fn fill_label16(&mut self, pos: usize, label: u16)
        requires
            old(self)@.wf(),
            pos + 2 <= old(self)@.code.len(),
        ensures
            final(self)@ == old(self)@.fill16(pos as int, label),
            final(self)@.wf(),
    {
        let len = self.code.len();
        assert(pos + 1 < len);
        self.code.set(pos, (label / 256) as u8);
        self.code.set(pos + 1, (label % 256) as u8);
        assert(self@.code =~= patch16(old(self)@.code, pos as int, label));
        proof {
            CompilerState::lemma_wf_longer_code(old(self)@, self@);
        }
    }

    /// Overwrites the byte at `pos` with `v`.
    pub fn fill_label8(&mut self, pos: usize, v: u8)
        requires
            old(self)@.wf(),
            pos < old(self)@.code.len(),
        ensures
            final(self)@ == old(self)@.with_code(old(self)@.code.update(pos as int, v)),
            final(self)@.wf(),
    {
        self.code.set(pos, v);
        proof {
            CompilerState::lemma_wf_longer_code(old(self)@, self@);
        }
    }

    // labels

    /// Reserves a 32-bit label, returning its position.
    pub fn reserve_label(&mut self) -> (pos: usize)
        requires
            old(self)@.wf(),
        ensures
            pos == old(self)@.code.len(),
            final(self)@ == old(self)@.push_bytes(be32(0xdeadbeef)),
            final(self)@.wf(),
    {
        let pos = self.code.len();
        self.cpush32(0xdeadbeef);
        pos
    }

    /// Reserves a 16-bit label, returning its position.
    pub fn reserve_label16(&mut self) -> (pos: usize)
        requires
            old(self)@.wf(),
        ensures
            pos == old(self)@.code.len(),
            final(self)@ == old(self)@.push_bytes(be16(0)),
            final(self)@.wf(),
    {
        let pos = self.code.len();
        self.cpush16(0);
        pos
    }
    // scopes and variables

    /// Looks up a local variable: its slot and how many scopes up it lives.
    fn get_local(&self, var: &String) -> (r: Option<(u16, u16)>)
        ensures
            r == self@.local_of(var@),
    {
        let ghost scopes = self@.scopes;
        let n = self.scopes.len();
        let mut i = n;
        let mut relascope: usize = 0;
        assert(scopes.take(n as int) =~= scopes);
        while i > 0
            invariant
                i <= n,
                n == scopes.len(),
                scopes == self@.scopes,
                relascope == n - i,
                find_local(scopes, var@) == shift_up(find_local(scopes.take(i as int), var@), relascope as int),
            decreases i,
        {
            let scope = &self.scopes[i - 1];
            let ghost vars = scopes[i - 1];
            assert(vars == scope.vars@.map_values(|s: String| s@));
            let mut j: usize = 0;
            while j < scope.vars.len()
                invariant
                    0 < i <= n,
                    n == scopes.len(),
                    scopes == self@.scopes,
                    relascope == n - i,
                    find_local(scopes, var@) == shift_up(find_local(scopes.take(i as int), var@), relascope as int),
                    vars == scopes[i - 1],
                    j <= scope.vars@.len(),
                    vars == scope.vars@.map_values(|s: String| s@),
                    forall|k: int| 0 <= k < j ==> vars[k] != var@,
                decreases scope.vars.len() - j,
            {
                if scope.vars[j] == *var {
                    proof {
                        lemma_first_index(vars, var@, j as int);
                        assert(scopes.take(i as int).last() == vars);
                        assert(vars[j as int] == var@);
                        assert(vars.contains(var@));
                    }
                    return Some((j as u16, relascope as u16));
                }
                j += 1;
            }
            proof {
                assert(scopes.take(i as int).last() == vars);
                assert(!vars.contains(var@));
                assert(scopes.take(i as int).drop_last() =~= scopes.take(i - 1));
            }
            i -= 1;
            relascope += 1;
        }
        assert(scopes.take(0) =~= Seq::<Seq<Seq<char>>>::empty());
        None
    }

    /// Declares a local variable in the innermost scope, returning its slot.
    pub fn set_local(&mut self, var: String) -> (r: Option<(u16, u16)>)
        requires
            old(self)@.wf(),
        ensures
            final(self)@.wf(),
            old(self)@.scopes.len() == 0 ==> r is None && final(self)@ == old(self)@,
            old(self)@.scopes.len() > 0 ==> r == Some((old(self)@.new_slot(), 0u16)) && final(self)@
                == old(self)@.add_local(var@),
    {
        let n = self.scopes.len();
        if n == 0 {
            return None;
        }
        let ghost old_scopes = self.scopes@;
        let mut last = self.scopes.pop().unwrap();
        let ghost old_vars = last.vars@;
        last.vars.push(var);
        let idx = last.vars.len() - 1;
        self.scopes.push(last);
        proof {
            let st0 = old(self)@;
            assert(self.scopes@ =~= old_scopes.update(n - 1, self.scopes@[n - 1]));
            assert(self.scopes@[n - 1].vars@.map_values(|s: String| s@) =~= old_vars.map_values(
                |s: String| s@,
            ).push(var@));
            assert(self@.scopes =~= st0.scopes.update(st0.scopes.len() - 1, st0.scopes.last().push(var@)));
            CompilerState::lemma_wf_longer_code(st0, self@);
        }
        Some((idx as u16, 0))
    }

    /// Does the name start with `$`?
    fn is_global_var(var: &String) -> (b: bool)
        ensures
            b == is_global_name(var@),
    {
        let mut it = var.as_str().chars();
        match it.next() {
            Some(c) => c == '$',
            None => false,
        }
    }

    /// Appends the name under which a variable lives in the global environment.
    fn cpush_global_name(&mut self, var: &String, global: bool)
        requires
            old(self)@.wf(),
            global == is_global_name(var@),
        ensures
            final(self)@ == old(self)@.push_str(global_name(var@)),
            final(self)@.wf(),
    {
        if global {
            let ghost st0 = self@;
            let bytes = var.as_str().as_bytes();
            proof {
                lemma_encode_dollar(var@);
            }
            let mut i: usize = 1;
            while i < bytes.len()
                invariant
                    1 <= i <= bytes@.len(),
                    bytes@ == vstd::utf8::encode_utf8(var@),
                    bytes@ == seq![36u8] + vstd::utf8::encode_utf8(var@.drop_first()),
                    self@ == st0.push_bytes(bytes@.subrange(1, i as int)),
                    self@.wf(),
                decreases bytes.len() - i,
            {
                self.cpush8(bytes[i]);
                assert(bytes@.subrange(1, i + 1) =~= bytes@.subrange(1, i as int).push(bytes@[i as int]));
                assert(self@.code =~= st0.code + bytes@.subrange(1, i + 1));
                i += 1;
            }
            self.cpush8(0);
            assert(bytes@.subrange(1, bytes@.len() as int) =~= vstd::utf8::encode_utf8(var@.drop_first()));
            assert(self@.code =~= st0.code + (vstd::utf8::encode_utf8(var@.drop_first()) + seq![0u8]));
        } else {
            self.cpushs(var.as_str());
        }
    }

    fn emit_set_var_with(&mut self, var: String, op: VmOpcode)
        requires
            old(self)@.wf(),
        ensures
            final(self)@ == old(self)@.set_var_with(var@, op),
            final(self)@.wf(),
    {
        let global = Self::is_global_var(&var);
        if global || self.scopes.len() == 0 {
            self.cpushop(VmOpcode::OP_SET_GLOBAL);
            self.cpush_global_name(&var, global);
        } else if let Some(local) = self.get_local(&var) {
            let mut slot = local.0;
            let relascope = local.1;
            if relascope != 0 {
                let local = self.set_local(var).unwrap();
                slot = local.0;
            }
            self.cpushop(op);
            self.cpush16(slot);
        } else {
            let local = self.set_local(var).unwrap();
            let slot = local.0;
            self.cpushop(op);
            self.cpush16(slot);
        }
    }

    /// Emits the code that stores the top of the stack into a variable.
    pub fn emit_set_var(&mut self, var: String)
        requires
            old(self)@.wf(),
        ensures
            final(self)@ == old(self)@.set_var(var@),
            final(self)@.wf(),
    {
        self.emit_set_var_with(var, VmOpcode::OP_SET_LOCAL)
    }

    /// Emits the code that stores a function being defined into a variable.
    pub fn emit_set_var_fn(&mut self, var: String)
        requires
            old(self)@.wf(),
        ensures
            final(self)@ == old(self)@.set_var_fn(var@),
            final(self)@.wf(),
    {
        self.emit_set_var_with(var, VmOpcode::OP_SET_LOCAL_FUNCTION_DEF)
    }

    /// Emits the code that pushes the value of a variable.
    pub fn emit_get_var(&mut self, var: String)
        requires
            old(self)@.wf(),
        ensures
            final(self)@ == old(self)@.get_var(var@),
            final(self)@.wf(),
    {
        let local = self.get_local(&var);
        let global = Self::is_global_var(&var);
        if global || local.is_none() {
            self.cpushop(VmOpcode::OP_GET_GLOBAL);
            self.cpush_global_name(&var, global);
        } else {
            let local = local.unwrap();
            let slot = local.0;
            let relascope = local.1;
            if relascope == 0 {
                self.cpushop(VmOpcode::OP_GET_LOCAL);
                self.cpush16(slot);
            } else {
                self.cpushop(VmOpcode::OP_GET_LOCAL_UP);
                self.cpush16(slot);
                self.cpush16(relascope);
            }
        }
    }

    /// Opens a function scope.
    pub fn scope(&mut self)
        requires
            old(self)@.wf(),
        ensures
            final(self)@ == old(self)@.open_scope(),
            final(self)@.wf(),
    {
        self.scopes.push(Scope::new());
        proof {
            assert(self@.scopes.last() =~= Seq::<Seq<char>>::empty());
            assert(self@.scopes =~= old(self)@.scopes.push(Seq::empty()));
            CompilerState::lemma_wf_longer_code(old(self)@, self@);
        }
    }

    /// Closes the innermost scope, returning its number of variables.
    pub fn unscope(&mut self) -> (n: u16)
        requires
            old(self)@.wf(),
            old(self)@.scopes.len() > 0,
        ensures
            n == old(self)@.scopes.last().len() as u16,
            final(self)@ == old(self)@.close_scope(),
            final(self)@.wf(),
    {
        let size = self.scopes.pop().unwrap().vars.len();
        proof {
            assert(self@.scopes =~= old(self)@.scopes.drop_last());
            CompilerState::lemma_wf_longer_code(old(self)@, self@);
        }
        size as u16
    }

    // loops

    /// Opens a loop.
    pub fn loop_start(&mut self)
        requires
            old(self)@.wf(),
        ensures
            final(self)@ == old(self)@.open_loop(),
            final(self)@.wf(),
    {
        self.loop_stmts.push(LoopStatement { fill_continue: Vec::new(), fill_break: Vec::new() });
        proof {
            let st0 = old(self)@;
            assert(self@.loops =~= st0.loops.push(LoopLabels { cont: Seq::empty(), brk: Seq::empty() }));
            assert forall|i: int, j: int|
                0 <= i < self@.loops.len() && 0 <= j < self@.loops[i].cont.len() implies #[trigger] self@.loops[i].cont[j]
                + 4 <= self@.code.len() by {
                assert(st0.loops[i].cont[j] == self@.loops[i].cont[j]);
            }
            assert forall|i: int, j: int|
                0 <= i < self@.loops.len() && 0 <= j < self@.loops[i].brk.len() implies #[trigger] self@.loops[i].brk[j]
                + 4 <= self@.code.len() by {
                assert(st0.loops[i].brk[j] == self@.loops[i].brk[j]);
            }
        }
    }

    /// Emits the label of a `continue` of the innermost loop.
    pub fn loop_continue(&mut self)
        requires
            old(self)@.wf(),
            old(self)@.loops.len() > 0,
        ensures
            final(self)@ == old(self)@.add_continue(),
            final(self)@.wf(),
    {
        let ghost st0 = self@;
        let label = self.reserve_label();
        let n = self.loop_stmts.len();
        let ghost old_loops = self.loop_stmts@;
        let mut ls = self.loop_stmts.pop().unwrap();
        ls.fill_continue.push(label);
        self.loop_stmts.push(ls);
        proof {
            let l = st0.loops.last();
            assert(self.loop_stmts@ =~= old_loops.update(n - 1, self.loop_stmts@[n - 1]));
            assert(self@.loops =~= st0.loops.update(
                st0.loops.len() - 1,
                LoopLabels { cont: l.cont.push(st0.code.len() as usize), brk: l.brk },
            ));
            assert(self@.code == st0.code + be32(0xdeadbeef));
            assert forall|i: int, j: int|
                0 <= i < self@.loops.len() && 0 <= j < self@.loops[i].cont.len() implies #[trigger] self@.loops[i].cont[j]
                + 4 <= self@.code.len() by {
                if i < n - 1 || j < l.cont.len() {
                    assert(st0.loops[i].cont[j] == self@.loops[i].cont[j]);
                }
            }
            assert forall|i: int, j: int|
                0 <= i < self@.loops.len() && 0 <= j < self@.loops[i].brk.len() implies #[trigger] self@.loops[i].brk[j]
                + 4 <= self@.code.len() by {
                assert(st0.loops[i].brk[j] == self@.loops[i].brk[j]);
            }
            assert forall|k: int| 0 <= k < self@.smap.len() implies (#[trigger] self@.smap[k]).bytecode.0
                <= self@.code.len() by {
                assert(st0.smap[k] == self@.smap[k]);
            }
        }
    }

    /// Emits the label of a `break` of the innermost loop.
    pub fn loop_break(&mut self)
        requires
            old(self)@.wf(),
            old(self)@.loops.len() > 0,
        ensures
            final(self)@ == old(self)@.add_break(),
            final(self)@.wf(),
    {
        let ghost st0 = self@;
        let label = self.reserve_label();
        let n = self.loop_stmts.len();
        let ghost old_loops = self.loop_stmts@;
        let mut ls = self.loop_stmts.pop().unwrap();
        ls.fill_break.push(label);
        self.loop_stmts.push(ls);
        proof {
            let l = st0.loops.last();
            assert(self.loop_stmts@ =~= old_loops.update(n - 1, self.loop_stmts@[n - 1]));
            assert(self@.loops =~= st0.loops.update(
                st0.loops.len() - 1,
                LoopLabels { cont: l.cont, brk: l.brk.push(st0.code.len() as usize) },
            ));
            assert(self@.code == st0.code + be32(0xdeadbeef));
            assert forall|i: int, j: int|
                0 <= i < self@.loops.len() && 0 <= j < self@.loops[i].brk.len() implies #[trigger] self@.loops[i].brk[j]
                + 4 <= self@.code.len() by {
                if i < n - 1 || j < l.brk.len() {
                    assert(st0.loops[i].brk[j] == self@.loops[i].brk[j]);
                }
            }
            assert forall|i: int, j: int|
                0 <= i < self@.loops.len() && 0 <= j < self@.loops[i].cont.len() implies #[trigger] self@.loops[i].cont[j]
                + 4 <= self@.code.len() by {
                assert(st0.loops[i].cont[j] == self@.loops[i].cont[j]);
            }
            assert forall|k: int| 0 <= k < self@.smap.len() implies (#[trigger] self@.smap[k]).bytecode.0
                <= self@.code.len() by {
                assert(st0.smap[k] == self@.smap[k]);
            }
        }
    }

    /// Fills every label in `labels` with its distance to `target`.
    fn fill_labels(&mut self, labels: &Vec<usize>, target: usize)
        requires
            old(self)@.wf(),
            forall|j: int| 0 <= j < labels@.len() ==> #[trigger] labels@[j] + 4 <= old(self)@.code.len(),
        ensures
            final(self)@ == old(self)@.with_code(fill_all(old(self)@.code, labels@, target as int)),
            final(self)@.wf(),
    {
        let ghost st0 = self@;
        let mut i: usize = 0;
        while i < labels.len()
            invariant
                i <= labels@.len(),
                st0.wf(),
                forall|j: int| 0 <= j < labels@.len() ==> #[trigger] labels@[j] + 4 <= st0.code.len(),
                self@ == st0.with_code(fill_all(st0.code, labels@.take(i as int), target as int)),
                self@.wf(),
            decreases labels.len() - i,
        {
            let label = labels[i];
            proof {
                assert forall|j: int| 0 <= j < labels@.take(i as int).len() implies #[trigger] labels@.take(i as int)[j] + 2 <= st0.code.len() by {
                    assert(labels@.take(i as int)[j] == labels@[j]);
                }
                lemma_fill_all_len(st0.code, labels@.take(i as int), target as int);
            }
            let off = jump_offset(target, label);
            self.fill_label16(label, off);
            proof {
                assert(labels@.take(i + 1) =~= labels@.take(i as int).push(label));
                lemma_fill_all_push(st0.code, labels@.take(i as int), label, target as int);
            }
            i += 1;
        }
        assert(labels@.take(labels.len() as int) =~= labels@);
    }

    /// Closes the innermost loop: `continue` jumps to `next_it_pos`, `break`
    /// jumps to `end_pos`.
    pub fn loop_end(&mut self, next_it_pos: usize, end_pos: usize)
        requires
            old(self)@.wf(),
            old(self)@.loops.len() > 0,
        ensures
            final(self)@ == old(self)@.close_loop(next_it_pos as int, end_pos as int),
            final(self)@.code.len() == old(self)@.code.len(),
            final(self)@.wf(),
    {
        let ghost st0 = self@;
        let n = self.loop_stmts.len();
        let ls = self.loop_stmts.pop().unwrap();
        proof {
            assert(self@.loops =~= st0.loops.drop_last());
            assert(ls.fill_continue@ == st0.loops[n - 1].cont);
            assert(ls.fill_break@ == st0.loops[n - 1].brk);
            assert forall|i: int, j: int|
                0 <= i < self@.loops.len() && 0 <= j < self@.loops[i].cont.len() implies #[trigger] self@.loops[i].cont[j]
                + 4 <= self@.code.len() by {
                assert(st0.loops[i].cont[j] == self@.loops[i].cont[j]);
            }
            assert forall|i: int, j: int|
                0 <= i < self@.loops.len() && 0 <= j < self@.loops[i].brk.len() implies #[trigger] self@.loops[i].brk[j]
                + 4 <= self@.code.len() by {
                assert(st0.loops[i].brk[j] == self@.loops[i].brk[j]);
            }
            assert forall|k: int| 0 <= k < self@.smap.len() implies (#[trigger] self@.smap[k]).bytecode.0
                <= self@.code.len() by {
                assert(st0.smap[k] == self@.smap[k]);
            }
            assert(st0.loops.last() == st0.loops[n - 1]);
            assert forall|j: int| 0 <= j < ls.fill_continue@.len() implies #[trigger] ls.fill_continue@[j] + 4
                <= self@.code.len() by {
                assert(st0.loops[n - 1].cont[j] == ls.fill_continue@[j]);
            }
            assert forall|j: int| 0 <= j < ls.fill_break@.len() implies #[trigger] ls.fill_break@[j] + 4
                <= self@.code.len() by {
                assert(st0.loops[n - 1].brk[j] == ls.fill_break@[j]);
            }
        }
        self.fill_labels(&ls.fill_continue, next_it_pos);
        proof {
            assert forall|j: int| 0 <= j < ls.fill_continue@.len() implies #[trigger] ls.fill_continue@[j] + 2 <= st0.code.len() by {
                assert(st0.loops[n - 1].cont[j] == ls.fill_continue@[j]);
            }
            lemma_fill_all_len(st0.code, ls.fill_continue@, next_it_pos as int);
        }
        let ghost st1 = self@;
        self.fill_labels(&ls.fill_break, end_pos);
        proof {
            assert forall|j: int| 0 <= j < ls.fill_break@.len() implies #[trigger] ls.fill_break@[j] + 2 <= st1.code.len() by {
                assert(st0.loops[n - 1].brk[j] == ls.fill_break@[j]);
            }
            lemma_fill_all_len(st1.code, ls.fill_break@, end_pos as int);
        }
    }

    // source maps and symbols

    /// Opens a source map entry for a node spanning `span`, returning its index.
    pub fn smap_begin(&mut self, span: (usize, usize)) -> (idx: usize)
        requires
            old(self)@.wf(),
        ensures
            idx == old(self)@.smap.len(),
            final(self)@ == old(self)@.smap_begin(span),
            final(self)@.wf(),
    {
        let nfiles = self.files.len();
        let fileno = if nfiles == 0 { 0 } else { nfiles - 1 };
        let start = self.code.len();
        self.smap.push(SourceMap { file: span, bytecode: (start, 0), fileno: fileno });
        proof {
            let st0 = old(self)@;
            assert(self@.smap =~= st0.smap_begin(span).smap);
            assert forall|k: int| 0 <= k < self@.smap.len() implies (#[trigger] self@.smap[k]).bytecode.0
                <= self@.code.len() by {
                if k < st0.smap.len() {
                    assert(st0.smap[k] == self@.smap[k]);
                }
            }
            assert forall|i: int, j: int|
                0 <= i < self@.loops.len() && 0 <= j < self@.loops[i].cont.len() implies #[trigger] self@.loops[i].cont[j]
                + 4 <= self@.code.len() by {
                assert(st0.loops[i].cont[j] == self@.loops[i].cont[j]);
            }
            assert forall|i: int, j: int|
                0 <= i < self@.loops.len() && 0 <= j < self@.loops[i].brk.len() implies #[trigger] self@.loops[i].brk[j]
                + 4 <= self@.code.len() by {
                assert(st0.loops[i].brk[j] == self@.loops[i].brk[j]);
            }
        }
        self.smap.len() - 1
    }

    /// Closes the source map entry `idx` at the current end of the code.
    pub fn smap_end(&mut self, idx: usize)
        requires
            old(self)@.wf(),
            idx < old(self)@.smap.len(),
        ensures
            final(self)@ == old(self)@.smap_end(idx as int),
            final(self)@.wf(),
    {
        let end = self.code.len();
        let e = self.smap[idx];
        self.smap.set(idx, SourceMap { file: e.file, bytecode: (e.bytecode.0, end), fileno: e.fileno });
        proof {
            let st0 = old(self)@;
            assert(self@.smap =~= st0.smap_end(idx as int).smap);
            assert forall|k: int| 0 <= k < self@.smap.len() implies (#[trigger] self@.smap[k]).bytecode.0
                <= self@.code.len() by {
                assert(st0.smap[k].bytecode.0 == self@.smap[k].bytecode.0);
            }
            assert forall|i: int, j: int|
                0 <= i < self@.loops.len() && 0 <= j < self@.loops[i].cont.len() implies #[trigger] self@.loops[i].cont[j]
                + 4 <= self@.code.len() by {
                assert(st0.loops[i].cont[j] == self@.loops[i].cont[j]);
            }
            assert forall|i: int, j: int|
                0 <= i < self@.loops.len() && 0 <= j < self@.loops[i].brk.len() implies #[trigger] self@.loops[i].brk[j]
                + 4 <= self@.code.len() by {
                assert(st0.loops[i].brk[j] == self@.loops[i].brk[j]);
            }
        }
    }

    /// Records the name of a function whose body ends at bytecode index `k`.
    pub fn add_symbol(&mut self, k: usize, name: String)
        requires
            old(self)@.wf(),
        ensures
            final(self)@ == old(self)@.add_symbol(k, name),
            final(self)@.wf(),
    {
        self.symbol.insert(k, name);
        proof {
            CompilerState::lemma_wf_longer_code(old(self)@, self@);
        }
    }

    /// The most specific source map entry (the last one opened) whose bytecode
    /// range holds the bytecode index `bc_idx`.
    pub fn lookup_smap(&self, bc_idx: usize) -> (r: Option<&SourceMap>)
        ensures
            match last_containing(self@.smap, bc_idx) {
                Some(i) => r matches Some(m) && *m == self@.smap[i],
                None => r is None,
            },
            r matches Some(m) ==> m.bytecode.0 <= bc_idx <= m.bytecode.1,
            r matches Some(m) ==> exists|i: int|
                0 <= i < self@.smap.len() && self@.smap[i] == *m && forall|j: int|
                    i < j < self@.smap.len() ==> !(#[trigger] self@.smap[j].bytecode.0 <= bc_idx
                        <= self@.smap[j].bytecode.1),
            r is None ==> forall|j: int|
                0 <= j < self@.smap.len() ==> !(#[trigger] self@.smap[j].bytecode.0 <= bc_idx
                    <= self@.smap[j].bytecode.1),
    {
        proof {
            law_last_containing(self@.smap, bc_idx);
        }
        let mut i = self.smap.len();
        assert(self@.smap.take(i as int) =~= self@.smap);
        while i > 0
            invariant
                i <= self@.smap.len(),
                last_containing(self@.smap, bc_idx) == last_containing(self@.smap.take(i as int), bc_idx),
            decreases i,
        {
            let m = &self.smap[i - 1];
            if m.bytecode.0 <= bc_idx && bc_idx <= m.bytecode.1 {
                proof {
                    law_last_containing(self@.smap, bc_idx);
                    assert(self@.smap.take(i as int).last() == self@.smap[i - 1]);
                    assert(last_containing(self@.smap, bc_idx) == Some(i - 1));
                    assert(0 <= i - 1 < self@.smap.len() && self@.smap[i - 1] == *m);
                }
                return Some(m);
            }
            assert(self@.smap.take(i as int).drop_last() =~= self@.smap.take(i - 1));
            i -= 1;
        }
        None
    }
}

} // verus!
