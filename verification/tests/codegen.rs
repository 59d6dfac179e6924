use haru::ast::ast::{CodeGenError, AST};
use haru::ast::emit::{compile_program, compile_repl_input};
use haru::ast::grammar;
use haru::compiler::Compiler;
use haru::vmbindings::vm::VmOpcode;

fn compile(src: &str) -> Result<Vec<u8>, CodeGenError> {
    let prog: Vec<AST> = grammar::start(src).unwrap();
    let mut c = Compiler::new();
    compile_program(&prog, &mut c)?;
    Ok(c.code.clone())
}

#[test]
fn codegen_int_add() {
    // PUSH8 1, PUSH8 2, ADD, POP, HALT
    assert_eq!(compile("1 + 2").unwrap(), vec![1, 1, 1, 2, 10, 9, 0]);
}

#[test]
fn codegen_int_sizes() {
    assert_eq!(compile("300").unwrap(), vec![2, 1, 44, 9, 0]);
    assert_eq!(compile("70000").unwrap(), vec![3, 0, 1, 17, 112, 9, 0]);
    assert_eq!(
        compile("0x100000000").unwrap(),
        vec![4, 0, 0, 0, 1, 0, 0, 0, 0, 9, 0]
    );
}

#[test]
fn codegen_global_assign() {
    // PUSH8 5, SET_GLOBAL "a", POP, HALT
    assert_eq!(compile("a = 5").unwrap(), vec![1, 5, 34, 97, 0, 9, 0]);
    // a `$` name is global and stored without the `$`
    assert_eq!(compile("$a = 1").unwrap(), vec![1, 1, 34, 97, 0, 9, 0]);
}

#[test]
fn codegen_get_global_and_negate() {
    assert_eq!(compile("-x").unwrap(), vec![35, 120, 0, 20, 9, 0]);
    assert_eq!(compile("not x").unwrap(), vec![35, 120, 0, 21, 9, 0]);
}

#[test]
fn codegen_string() {
    assert_eq!(compile("'hi'").unwrap(), vec![6, 104, 105, 0, 9, 0]);
    assert_eq!(compile("'a\\nb'").unwrap(), vec![6, 97, 10, 98, 0, 9, 0]);
}

#[test]
fn codegen_if() {
    // cond, JNCOND +5, then-branch, HALT
    assert_eq!(compile("if 1 then 2").unwrap(), vec![1, 1, 40, 0, 5, 1, 2, 9, 0]);
}

#[test]
fn codegen_if_else() {
    // cond, JNCOND +8, then, JMP +5, else, HALT
    assert_eq!(
        compile("if 1 then 2\nelse 3").unwrap(),
        vec![1, 1, 40, 0, 8, 1, 2, 9, 37, 0, 5, 1, 3, 9, 0]
    );
}

#[test]
fn codegen_while_break() {
    // JMP to the condition, body (JMP to the end, 32-bit label), condition,
    // JCOND back to the body
    assert_eq!(
        compile("while 0 then break").unwrap(),
        vec![37, 0, 7, 37, 0, 9, 190, 239, 1, 0, 39, 255, 248, 0]
    );
}

#[test]
fn codegen_fn_assign() {
    assert_eq!(
        compile("f(x) = x").unwrap(),
        vec![36, 0, 1, 0, 9, 29, 0, 1, 32, 0, 0, 42, 34, 102, 0, 9, 0]
    );
}

#[test]
fn codegen_and_or() {
    // a, JNCOND_NO_POP +6, POP, b, ...
    assert_eq!(
        compile("a and b").unwrap(),
        vec![35, 97, 0, 44, 0, 6, 9, 35, 98, 0, 9, 0]
    );
    assert_eq!(compile("a or b").unwrap(), vec![35, 97, 0, 43, 0, 5, 35, 98, 0, 9, 0]);
}

#[test]
fn codegen_array_and_member() {
    assert_eq!(
        compile("[1]").unwrap(),
        vec![1, 1, 4, 0, 0, 0, 0, 0, 0, 0, 1, 50, 9, 0]
    );
    assert_eq!(compile("a.b").unwrap(), vec![35, 97, 0, 46, 98, 0, 9, 0]);
    assert_eq!(compile("a[0]").unwrap(), vec![35, 97, 0, 1, 0, 51, 9, 0]);
}

#[test]
fn codegen_call_method() {
    // argument, object, MEMBER_GET_NO_POP "f", CALL with 2 arguments
    assert_eq!(
        compile("a.f(1)").unwrap(),
        vec![1, 1, 35, 97, 0, 47, 102, 0, 41, 0, 2, 9, 0]
    );
    // through `::` the object is not passed
    assert_eq!(
        compile("a::f(1)").unwrap(),
        vec![1, 1, 35, 97, 0, 46, 102, 0, 41, 0, 1, 9, 0]
    );
}

#[test]
fn codegen_errors() {
    assert_eq!(compile("break"), Err(CodeGenError::BreakOutsideLoop));
    assert_eq!(compile("continue"), Err(CodeGenError::ContinueOutsideLoop));
    assert_eq!(compile("return 1"), Err(CodeGenError::ReturnOutsideFunction));
    assert_eq!(compile("1 = 2"), Err(CodeGenError::InvalidLeftHandSide));
    assert_eq!(compile("f(1) = 2"), Err(CodeGenError::ExpectedIdentifier));
    assert_eq!(compile("1 += 2"), Err(CodeGenError::InvalidLeftHandSide));
    assert_eq!(
        compile("record A\n 1\nend"),
        Err(CodeGenError::ExpectedAssignment)
    );
}

#[test]
fn codegen_return_in_function() {
    // DEF_FUNCTION_PUSH 0 args, length, ENV_NEW, 0 locals, PUSH8 1, RET,
    // PUSH_NIL, RET, SET_GLOBAL "f", POP, HALT
    assert_eq!(
        compile("function f() return 1").unwrap(),
        vec![36, 0, 0, 0, 10, 29, 0, 0, 1, 1, 42, 5, 42, 34, 102, 0, 9, 0]
    );
}

#[test]
fn codegen_code_prefix_kept() {
    // emitting more statements never changes the code emitted before them
    let first = compile("a = 1").unwrap();
    let both = compile("a = 1\nb = a + 2").unwrap();
    assert_eq!(&both[..first.len() - 1], &first[..first.len() - 1]);
}

#[test]
fn codegen_repl_input() {
    let prog = grammar::start("a = 1\na").unwrap();
    let mut c = Compiler::new();
    let shown = compile_repl_input(&prog, &mut c).unwrap();
    assert!(shown);
    // the last expression is not popped
    assert_eq!(c.code, vec![1, 1, 34, 97, 0, 9, 35, 97, 0]);
    // a last statement that is not an expression leaves nothing to show
    let prog = grammar::start("if 1 then 2").unwrap();
    let mut c = Compiler::new();
    assert!(!compile_repl_input(&prog, &mut c).unwrap());
    assert_eq!(c.code, vec![1, 1, 40, 0, 5, 1, 2, 9]);
}

#[test]
fn opcode_byte_roundtrip() {
    assert_eq!(VmOpcode::OP_USE.to_byte(), 60);
    assert_eq!(VmOpcode::from_byte(42), Some(VmOpcode::OP_RET));
    assert_eq!(VmOpcode::from_byte(61), None);
}

#[test]
fn codegen_repl_lines_keep_earlier_code() {
    let mut c = Compiler::new();
    let first = grammar::start("a = 1").unwrap();
    compile_repl_input(&first, &mut c).unwrap();
    let before = c.code.clone();
    let second = grammar::start("while a < 3 begin\na = a + 1
if a == 2 then continue
end").unwrap();
    compile_repl_input(&second, &mut c).unwrap();
    assert!(c.code.len() > before.len());
    assert_eq!(&c.code[..before.len()], &before[..]);
}

#[test]
fn codegen_function_falls_off_its_end() {
    // a body ending in `if x then return 1` still ends with PUSH_NIL, RET
    let code = compile("function a(x) begin\nif x then return 1\nend").unwrap();
    let n = code.len();
    // ..., PUSH_NIL, RET, SET_GLOBAL "a", POP, HALT
    assert_eq!(&code[n - 7..], &[5, 42, 34, 97, 0, 9, 0]);
}

#[test]
fn codegen_for_includes_destination() {
    // i = 0; jump to the test; body; (i >= 3 ? exit); i = i + 1; test: (i <= 3 ? body)
    let code = compile("for i=0 to 3 then 1").unwrap();
    assert_eq!(
        code,
        vec![
            1, 0, 34, 105, 0, 9, 37, 0, 24, 1, 1, 9, 35, 105, 0, 1, 3, 25, 39, 0, 21, 35, 105, 0, 1, 1,
            10, 34, 105, 0, 9, 35, 105, 0, 1, 3, 23, 39, 255, 227, 0
        ]
    );
    let code = compile("for i=3 downto 0 then 1").unwrap();
    assert_eq!(
        code,
        vec![
            1, 3, 34, 105, 0, 9, 37, 0, 24, 1, 1, 9, 35, 105, 0, 1, 0, 23, 39, 0, 21, 35, 105, 0, 1, 1,
            11, 34, 105, 0, 9, 35, 105, 0, 1, 0, 25, 39, 255, 227, 0
        ]
    );
}

#[test]
fn codegen_computed_method_call_keeps_object() {
    // argument, object, key, INDEX_GET_NO_POP, CALL with 2 arguments
    assert_eq!(
        compile("a[0](1)").unwrap(),
        vec![1, 1, 35, 97, 0, 1, 0, 52, 41, 0, 2, 9, 0]
    );
}

#[test]
fn codegen_tail_conditional_else_branch() {
    // in `f(x) = x ? (1 ? 2 : 3) : 4` the else code pushes 4
    let code = compile("f(x) = x ? (1 ? 2 : 3) : 4").unwrap();
    let pushes: Vec<u8> = code.windows(2).filter(|w| w[0] == 1).map(|w| w[1]).collect();
    assert!(pushes.contains(&4));
}
