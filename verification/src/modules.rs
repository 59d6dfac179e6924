//! Loading the modules named by `use` statements: where a module is
//! looked for, which modules are already loaded, and how a module's code is
//! appended to the running program.

use vstd::prelude::*;

use crate::ast::ast::{AST, CodeGenError};
use crate::ast::ast;
use crate::ast::emit::{emit_ok, grows};
use crate::compiler::{self, Compiler, CompilerState};
use crate::vmbindings::vm::VmOpcode;

verus! {

/// Where `s[..e]` ends once the slashes at its end are left out.
pub open spec fn strip_end(s: Seq<char>, e: int) -> int
    decreases e,
{
    if 0 < e <= s.len() && s[e - 1] == '/' {
        strip_end(s, e - 1)
    } else {
        e
    }
}

/// Just after the last `/` of `s[..e]`, or 0 if it has none.
pub open spec fn after_slash(s: Seq<char>, e: int) -> int
    decreases e,
{
    if e <= 0 || e > s.len() {
        0
    } else if s[e - 1] == '/' {
        e
    } else {
        after_slash(s, e - 1)
    }
}

/// Where the module named `path` is looked for when `importer` (the file
/// that holds the `use`) names it, as `Path::parent` and `Path::join`
/// make it. A name starting with `./` is joined to the directory of the
/// importer: the importer without its last component and the slashes
/// before it (`/` if nothing but the root is left); it stands alone if the
/// importer has no directory. A name starting with `/` stands as it is.
/// Other names are looked up along the search path (`None` here).
pub open spec fn candidate_spec(path: Seq<char>, importer: Seq<char>) -> Option<Seq<char>> {
    if path.len() >= 2 && path[0] == '.' && path[1] == '/' {
        let e1 = strip_end(importer, importer.len() as int);
        let k = after_slash(importer, e1);
        if e1 == 0 || k == 0 {
            Some(path)
        } else {
            let e2 = strip_end(importer, k - 1);
            if e2 == 0 {
                Some(seq!['/'] + path)
            } else {
                Some(importer.take(e2) + seq!['/'] + path)
            }
        }
    } else if path.len() >= 1 && path[0] == '/' {
        Some(path)
    } else {
        None
    }
}

/// Where the slashes at the end of `cs[..e]` begin.
fn strip_slashes(cs: &Vec<char>, e: usize) -> (r: usize)
    requires
        e <= cs@.len(),
    ensures
        r == strip_end(cs@, e as int),
        r <= e,
{
    let mut k = e;
    while k > 0 && cs[k - 1] == '/'
        invariant
            k <= e <= cs@.len(),
            strip_end(cs@, k as int) == strip_end(cs@, e as int),
        decreases k,
    {
        k -= 1;
    }
    k
}

/// Where the module named `path` is looked for (see `candidate_spec`).
pub fn module_candidate(path: &str, importer: &str) -> (r: Option<String>)
    ensures
        match candidate_spec(path@, importer@) {
            Some(c) => r matches Some(s) && s@ == c,
            None => r is None,
        },
{
    let p = crate::text::chars_of(path);
    if p.len() >= 2 && p[0] == '.' && p[1] == '/' {
        let imp = crate::text::chars_of(importer);
        let e1 = strip_slashes(&imp, imp.len());
        let mut k: usize = e1;
        while k > 0 && imp[k - 1] != '/'
            invariant
                k <= e1 <= imp@.len(),
                after_slash(imp@, k as int) == after_slash(imp@, e1 as int),
            decreases k,
        {
            k -= 1;
        }
        if e1 == 0 || k == 0 {
            return Some(crate::text::string_from_chars(p.as_slice()));
        }
        let e2 = strip_slashes(&imp, k - 1);
        let mut s = if e2 == 0 {
            String::new()
        } else {
            crate::text::string_from_chars(&imp.as_slice()[0..e2])
        };
        crate::text::push_char(&mut s, '/');
        crate::text::push_str(&mut s, path);
        proof {
            assert(imp@.subrange(0, e2 as int) =~= importer@.take(e2 as int));
            if e2 == 0 {
                assert(seq!['/'] + path@ =~= Seq::<char>::empty().push('/') + path@);
            }
        }
        Some(s)
    } else if p.len() >= 1 && p[0] == '/' {
        Some(crate::text::string_from_chars(p.as_slice()))
    } else {
        None
    }
}

/// Records that the module `p` is loaded; true if it was not loaded before.
pub fn mark_loaded(loaded: &mut Vec<String>, p: &str) -> (r: bool)
    ensures
        r == !old(loaded)@.map_values(|s: String| s@).contains(p@),
        final(loaded)@.map_values(|s: String| s@) == if r {
            old(loaded)@.map_values(|s: String| s@).push(p@)
        } else {
            old(loaded)@.map_values(|s: String| s@)
        },
{
    let ghost names = loaded@.map_values(|s: String| s@);
    let mut i: usize = 0;
    while i < loaded.len()
        invariant
            i <= loaded@.len(),
            names == loaded@.map_values(|s: String| s@),
            forall|k: int| 0 <= k < i ==> names[k] != p@,
        decreases loaded.len() - i,
    {
        if crate::text::str_equal(loaded[i].as_str(), p) {
            assert(names[i as int] == p@);
            return false;
        }
        i += 1;
    }
    loaded.push(p.to_owned());
    assert(loaded@.map_values(|s: String| s@) =~= names.push(p@));
    true
}

/// The code that a module adds to the program: its statements, then a
/// long jump back to `importer_ip`, just after the importing `use`.
pub open spec fn module_spec(prog: Seq<AST>, st: CompilerState, importer_ip: u32) -> ast::EmitResult {
    match ast::emit_seq_spec(prog, st) {
        Ok(s1) => Ok(s1.push_op(VmOpcode::OP_JMP_LONG).push_bytes(compiler::be32(importer_ip))),
        Err(e) => Err(e),
    }
}

/// Appends the code of a module to the program (see `module_spec`).
pub fn append_module(prog: &Vec<AST>, c: &mut Compiler, importer_ip: u32) -> (r: Result<(), CodeGenError>)
    requires
        old(c)@.wf(),
    ensures
        final(c)@.wf(),
        emit_ok(r, module_spec(prog@, old(c)@, importer_ip), final(c)@),
        r is Ok ==> grows(old(c)@, final(c)@),
{
    let ghost st0 = c@;
    let r = crate::ast::emit::emit_all(prog, c);
    if r.is_err() {
        return r;
    }
    let ghost st1 = c@;
    c.cpushop(VmOpcode::OP_JMP_LONG);
    c.cpush32(importer_ip);
    proof {
        crate::ast::emit::lemma_grows_trans(st0, st1, c@);
    }
    Ok(())
}

/// What loading a module does to the list of loaded modules, the compiler
/// and the result (see `load_module_code`).
pub open spec fn load_spec(
    loaded: Seq<Seq<char>>,
    candidate: Seq<char>,
    path: Seq<char>,
    source: Seq<char>,
    prog: Seq<AST>,
    st: CompilerState,
    importer_ip: u32,
    loaded_after: Seq<Seq<char>>,
    st_after: CompilerState,
    r: Result<bool, CodeGenError>,
) -> bool {
    if loaded.contains(candidate) {
        r == Ok::<bool, CodeGenError>(false) && loaded_after == loaded && st_after == st
    } else {
        &&& loaded_after == loaded.push(candidate)
        &&& match module_spec(prog, st.add_file(path, source), importer_ip) {
            Ok(st1) => r == Ok::<bool, CodeGenError>(true) && st_after == st1,
            Err(e) => r == Err::<bool, CodeGenError>(e),
        }
    }
}

/// Loads a module found at `candidate` (named `path` by its `use`), whose
/// text is `source` and whose statements are `prog`. A module that is
/// already loaded adds nothing and gives `Ok(false)`. Otherwise it is marked
/// as loaded, its file is registered, and its code is appended with a jump
/// back to `importer_ip`: `Ok(true)`, or the error that its code gives.
pub fn load_module_code(
    loaded: &mut Vec<String>,
    candidate: &str,
    path: &str,
    source: &str,
    prog: &Vec<AST>,
    c: &mut Compiler,
    importer_ip: u32,
) -> (r: Result<bool, CodeGenError>)
    requires
        old(c)@.wf(),
    ensures
        final(c)@.wf(),
        load_spec(
            old(loaded)@.map_values(|s: String| s@),
            candidate@,
            path@,
            source@,
            prog@,
            old(c)@,
            importer_ip,
            final(loaded)@.map_values(|s: String| s@),
            final(c)@,
            r,
        ),
{
    if !mark_loaded(loaded, candidate) {
        return Ok(false);
    }
    c.add_file(path, source);
    match append_module(prog, c, importer_ip) {
        Ok(()) => Ok(true),
        Err(e) => Err(e),
    }
}

} // verus!
