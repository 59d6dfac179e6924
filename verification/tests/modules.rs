use haru::ast::ast::AST;
use haru::ast::grammar;
use haru::compiler::Compiler;
use haru::hanayo::cmd::{command_of, CmdArg, CmdArgError, CmdItem};
use haru::modules::{append_module, load_module_code, mark_loaded, module_candidate};
use haru::vmbindings::internedstringmap::InternedStringMap;

#[test]
fn cmd_from_string_runs_a_shell() {
    let (prog, args) = command_of(&CmdArg::Str("echo Hello World".to_string())).unwrap();
    assert_eq!(prog, "sh");
    assert_eq!(args, vec!["-c", "echo Hello World"]);
}

#[test]
fn cmd_from_array() {
    let arg = CmdArg::Array(vec![
        CmdItem::Str("echo".to_string()),
        CmdItem::Str("Hello World".to_string()),
    ]);
    let (prog, args) = command_of(&arg).unwrap();
    assert_eq!(prog, "echo");
    assert_eq!(args, vec!["Hello World"]);
}

#[test]
fn cmd_errors() {
    assert_eq!(command_of(&CmdArg::Array(vec![])).err(), Some(CmdArgError::EmptyArray));
    assert_eq!(
        command_of(&CmdArg::Array(vec![CmdItem::Other])).err(),
        Some(CmdArgError::CommandNotString)
    );
    assert_eq!(
        command_of(&CmdArg::Array(vec![CmdItem::Str("ls".to_string()), CmdItem::Other])).err(),
        Some(CmdArgError::ArgumentNotString)
    );
    assert_eq!(command_of(&CmdArg::Other).err(), Some(CmdArgError::NotStringOrArray));
    assert_eq!(CmdArgError::EmptyArray.why(), "Expected argument array to have at least 1 member");
}

#[test]
fn module_candidates() {
    assert_eq!(module_candidate("./b", "dir/a.hana"), Some("dir/./b".to_string()));
    assert_eq!(module_candidate("./b", "a.hana"), Some("./b".to_string()));
    assert_eq!(module_candidate("./b", "/a.hana"), Some("/./b".to_string()));
    assert_eq!(module_candidate("/lib/x", "a.hana"), Some("/lib/x".to_string()));
    assert_eq!(module_candidate("std", "a.hana"), None);
}

#[test]
fn module_candidate_ignores_trailing_slashes() {
    assert_eq!(module_candidate("./m", "/tmp/x/"), Some("/tmp/./m".to_string()));
    assert_eq!(module_candidate("./m", "/tmp//x"), Some("/tmp/./m".to_string()));
    assert_eq!(module_candidate("./m", "d/"), Some("./m".to_string()));
    assert_eq!(module_candidate("./m", ""), Some("./m".to_string()));
}

#[test]
fn loading_a_module_twice_adds_its_code_once() {
    let prog: Vec<AST> = grammar::start("1").unwrap();
    let mut loaded: Vec<String> = Vec::new();
    let mut c = Compiler::new();
    assert_eq!(load_module_code(&mut loaded, "/m.hana", "/m", "1", &prog, &mut c, 7), Ok(true));
    assert_eq!(c.files, vec!["/m"]);
    assert_eq!(c.sources, vec!["1"]);
    assert_eq!(c.code, vec![1, 1, 9, 38, 0, 0, 0, 7]);
    assert_eq!(load_module_code(&mut loaded, "/m.hana", "/m", "1", &prog, &mut c, 9), Ok(false));
    assert_eq!(c.files, vec!["/m"]);
    assert_eq!(c.code, vec![1, 1, 9, 38, 0, 0, 0, 7]);
    assert_eq!(loaded, vec!["/m.hana"]);
}

#[test]
fn interned_indices_stay_put() {
    let mut m = InternedStringMap::new();
    let long_a = "a".repeat(25);
    let long_b = "b".repeat(25);
    let i1 = m.get_or_insert(&long_a).unwrap();
    let i2 = m.get_or_insert("x").unwrap();
    let i3 = m.get_or_insert(&long_b).unwrap();
    assert_eq!(m.get_or_insert(&long_a), Some(i1));
    assert_ne!(i1, i2);
    assert_ne!(i1, i3);
    assert_ne!(i2, i3);
    assert_eq!(m.get_or_insert("x"), Some(i2));
    assert_eq!(m.get(i3), &long_b);
}

#[test]
fn modules_load_once() {
    let mut loaded: Vec<String> = Vec::new();
    assert!(mark_loaded(&mut loaded, "a.hana"));
    assert!(mark_loaded(&mut loaded, "b.hana"));
    assert!(!mark_loaded(&mut loaded, "a.hana"));
    assert_eq!(loaded, vec!["a.hana", "b.hana"]);
}

#[test]
fn module_code_jumps_back() {
    let prog: Vec<AST> = grammar::start("1").unwrap();
    let mut c = Compiler::new();
    append_module(&prog, &mut c, 7).unwrap();
    // PUSH8 1, POP, JMP_LONG 7
    assert_eq!(c.into_code(), vec![1, 1, 9, 38, 0, 0, 0, 7]);
}
