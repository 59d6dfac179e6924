use haru::ast::ast;
use haru::ast::grammar;

fn parse(src: &str) -> Vec<ast::AST> {
    grammar::start(src).unwrap()
}

fn expr_stmt(node: &ast::AST) -> &ast::ExprStatement {
    match node {
        ast::AST::ExprStatement(s) => s,
        _ => panic!("expected an expression statement"),
    }
}

fn identifier(node: &ast::AST) -> &ast::Identifier {
    match node {
        ast::AST::Identifier(s) => s,
        _ => panic!("expected an identifier"),
    }
}

fn int_literal(node: &ast::AST) -> &ast::IntLiteral {
    match node {
        ast::AST::IntLiteral(s) => s,
        _ => panic!("expected an integer literal"),
    }
}

fn str_literal(node: &ast::AST) -> &ast::StrLiteral {
    match node {
        ast::AST::StrLiteral(s) => s,
        _ => panic!("expected a string literal"),
    }
}

fn mem_expr(node: &ast::AST) -> &ast::MemExpr {
    match node {
        ast::AST::MemExpr(s) => s,
        _ => panic!("expected a member expression"),
    }
}

// simple values

#[test]
fn simple_id() {
    let progast = parse("a");
    assert_eq!(progast.len(), 1);
    let stmt = expr_stmt(&progast[0]);
    assert_eq!(identifier(&stmt.expr).val, "a".to_string());
}

#[test]
fn simple_str() {
    let progast = parse("'a'");
    assert_eq!(progast.len(), 1);
    let stmt = expr_stmt(&progast[0]);
    assert_eq!(str_literal(&stmt.expr).val, "a".to_string());
}

#[test]
fn parser_simple_int() {
    let progast = parse("125");
    assert_eq!(progast.len(), 1);
    let stmt = expr_stmt(&progast[0]);
    assert_eq!(int_literal(&stmt.expr).val, 125);
}

// comments

#[test]
fn single_line_comment() {
    let progast = parse("// Test");
    assert_eq!(progast.len(), 0);
}

#[test]
fn multiline_comment() {
    let progast = parse("/*
multiline
*/");
    assert_eq!(progast.len(), 0);
}

// member expressions

#[test]
fn member_expr_dot() {
    let progast = parse("a.b");
    assert_eq!(progast.len(), 1);
    let stmt = expr_stmt(&progast[0]);
    let memexpr = mem_expr(&stmt.expr);
    assert_eq!(identifier(&memexpr.left).val, "a");
    assert_eq!(identifier(&memexpr.right).val, "b");
}

#[test]
fn member_expr_bracket() {
    let progast = parse("a['b']");
    assert_eq!(progast.len(), 1);
    let stmt = expr_stmt(&progast[0]);
    let memexpr = mem_expr(&stmt.expr);
    assert_eq!(identifier(&memexpr.left).val, "a");
    assert_eq!(str_literal(&memexpr.right).val, "b");
}

// call expressions

#[test]
fn call_expr() {
    let progast = parse("a(1,2)");
    assert_eq!(progast.len(), 1);
    let stmt = expr_stmt(&progast[0]);
    let callexpr = match &*stmt.expr {
        ast::AST::CallExpr(c) => c,
        _ => panic!("expected a call"),
    };
    assert_eq!(identifier(&callexpr.callee).val, "a");
    assert_eq!(callexpr.args.len(), 2);
    assert_eq!(int_literal(&callexpr.args[0]).val, 1);
    assert_eq!(int_literal(&callexpr.args[1]).val, 2);
}

// binary expressions

#[test]
fn bin_expr() {
    let progast = parse("a + b");
    assert_eq!(progast.len(), 1);
    let stmt = expr_stmt(&progast[0]);
    let binexpr = match &*stmt.expr {
        ast::AST::BinExpr(b) => b,
        _ => panic!("expected a binary expression"),
    };
    assert_eq!(identifier(&binexpr.left).val, "a");
    assert_eq!(identifier(&binexpr.right).val, "b");
    assert_eq!(binexpr.op, ast::BinOp::Add);
}

// block statement

#[test]
fn block_stmt() {
    let progast = parse("
begin
    1
    2
end
");
    let stmt = match &progast[0] {
        ast::AST::BlockStatement(b) => b,
        _ => panic!("expected a block"),
    };
    assert_eq!(stmt.stmts.len(), 2);
    assert_eq!(int_literal(&expr_stmt(&stmt.stmts[0]).expr).val, 1);
    assert_eq!(int_literal(&expr_stmt(&stmt.stmts[1]).expr).val, 2);
}

// if statement

fn if_statement(node: &ast::AST) -> &ast::IfStatement {
    match node {
        ast::AST::IfStatement(s) => s,
        _ => panic!("expected an if statement"),
    }
}

#[test]
fn parser_if_stmt() {
    let progast = parse("
if 0 then 1
");
    let stmt = if_statement(&progast[0]);
    assert_eq!(int_literal(&stmt.expr).val, 0);
    assert_eq!(int_literal(&expr_stmt(&stmt.then_).expr).val, 1);
}

#[test]
fn parser_if_else_stmt() {
    let progast = parse("
if 0 then 1
else 2
");
    let stmt = if_statement(&progast[0]);
    assert_eq!(int_literal(&stmt.expr).val, 0);
    assert_eq!(int_literal(&expr_stmt(&stmt.then_).expr).val, 1);
    assert!(stmt.alt.is_some());
}

// while statement

#[test]
fn parser_while_stmt() {
    let progast = parse("
while 0 then 1
");
    let stmt = match &progast[0] {
        ast::AST::WhileStatement(s) => s,
        _ => panic!("expected a while statement"),
    };
    assert_eq!(int_literal(&stmt.expr).val, 0);
    assert_eq!(int_literal(&expr_stmt(&stmt.then_).expr).val, 1);
}

// for statement

#[test]
fn parser_for_stmt() {
    let progast = parse("
for i=0 to 100 begin

end
");
    let stmt = match &progast[0] {
        ast::AST::ForStatement(s) => s,
        _ => panic!("expected a for statement"),
    };
    assert_eq!(stmt.id, "i");
    assert_eq!(int_literal(&stmt.from).val, 0);
    assert_eq!(int_literal(&stmt.to).val, 100);
}

#[test]
fn for_stmt_with_if() {
    let progast = parse(r#"
for i=0 to 100 begin
    if i mod 3 == 0 and i mod 5 == 0 then print("Fizzbuzz\n")
    else if i mod 3 == 0 then print("Fizz\n")
    else if i mod 5 == 0 then print("Buzz\n")
    else print(i, "\n")
end
"#);
    match &progast[0] {
        ast::AST::ForStatement(_) => {},
        _ => panic!("expected a for statement"),
    }
}

// try statement

fn try_statement(node: &ast::AST) -> &ast::TryStatement {
    match node {
        ast::AST::TryStatement(s) => s,
        _ => panic!("expected a try statement"),
    }
}

#[test]
fn try_stmt() {
    let progast = parse("
try
    0
case Int as a
end
");
    let stmt = try_statement(&progast[0]);
    let then_stmt = expr_stmt(&stmt.stmts[0]);
    assert_eq!(int_literal(&then_stmt.expr).val, 0);
    assert_eq!(identifier(&stmt.cases[0].etype).val, "Int");
    assert!(stmt.cases[0].id.is_some());
}

#[test]
fn try_stmt_multiple_cases() {
    let progast = parse("
try
case Int as a
case String as a
case Float as a
end
");
    let stmt = try_statement(&progast[0]);
    assert!(stmt.cases.len() == 3);
}

// function statement

#[test]
fn fn_stmt() {
    let progast = parse("
function X(y) begin

end
");
    let stmt = match &progast[0] {
        ast::AST::FunctionStatement(s) => s,
        _ => panic!("expected a function statement"),
    };
    assert_eq!(stmt.def().id, Some("X".to_string()));
    assert_eq!(stmt.def().args.len(), 1);
    assert_eq!(stmt.def().args[0], "y");
}

// nesting

#[test]
fn nested_stmt() {
    parse("
function X(y) begin
    if x == 0 begin

    end
end
");
}

#[test]
fn nested_stmt_2() {
    parse("
function X(y) begin
    if x == 0 begin
        if x == 0 then 1
    end
end
");
}

#[test]
fn nested_fn() {
    parse("
function outer() begin
    function inner() begin
    end
    inner()
end
outer()
");
}

// programs made of plain statements are always read

#[test]
fn plain_programs_are_read() {
    let sources = [
        "",
        "\n\n",
        "a + 1 * b - c mod 2\n\nx == y or z",
        "if x then y\nelse z",
        "while a < 10 then a",
        "function X(y) begin\n\nend",
        "function f(a, b, c) return a + b\nf",
        "begin\n  continue\n  break\n  return\n  raise 'e'\nend",
        "use \"./m\"\nreturn 1 + 2",
        "a = b += -(1 + 2) * not c",
        "x = y ? 1 : z ? 2 : 3",
        "print(a, f(b)(c), (d))\nobj.field::name(1,\n  2)",
        "function f(x) return x == nil ? 0 : f(x - 1) + 1",
        "while i < 10 begin\n  i += 1\n  if i mod 2 == 0 then continue\nend",
        "a = [1, [2, 3]]\nb = a[0] + a[1][0]",
        "for i = 0 to 10 step 2 then print(i)\nfor x in [1, 2] begin\nend",
        "record Point\n  x = 0\n  function norm(self) return self.x\nend",
        "try\n  raise 1\ncase Int as e\n  print(e)\ncase String\nend",
        "f = function(x) return x * 2\ng = |a, b| { return a + b }\nh = |x| {\n  x\n}",
        "r = record\n  y = 1\nend\nprint(r.y)",
    ];
    for src in sources.iter() {
        assert!(grammar::start(src).is_ok(), "not read: {:?}", src);
    }
    assert_eq!(parse("a\n\nb\nc").len(), 3);
}

#[test]
fn if_else_on_later_line_is_one_statement() {
    let progast = parse("if x then y\n\nelse z");
    assert_eq!(progast.len(), 1);
    let stmt = if_statement(&progast[0]);
    assert!(stmt.alt.is_some());
}
