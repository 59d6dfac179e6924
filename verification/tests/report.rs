use haru::ast::ast::StrLiteral;
use haru::ast::ast::{unescape_str, FunctionDefinition, FunctionStatement, Identifier, RecordDefinition, RecordStatement, AST};
use haru::ast::pos_to_line;
use haru::report::{caret_line, decimal_string, line_margin, source_line};

#[test]
fn pos_to_line_counts_lines_and_columns() {
    assert_eq!(pos_to_line("ab\ncd", 0), (1, 1));
    assert_eq!(pos_to_line("ab\ncd", 4), (2, 2));
    // 'é' takes two bytes
    assert_eq!(pos_to_line("é\nx", 3), (2, 1));
    assert_eq!(pos_to_line("éa", 2), (1, 2));
}

#[test]
fn error_report_lines() {
    assert_eq!(source_line("a\nbc\n", 2), "bc");
    assert_eq!(line_margin(12), "12 | ");
    assert_eq!(caret_line(5, 3, 6), "       ^^^");
    assert_eq!(caret_line(0, 1, 1), "^");
    assert_eq!(decimal_string(0), "0");
    assert_eq!(decimal_string(1070), "1070");
}

#[test]
fn string_literal_escapes() {
    let s = StrLiteral::new(&"a\\nb\\'c\\\\".to_string(), (0, 1));
    assert_eq!(s.val, "a\nb'c\\");
    assert_eq!(s.rawval, "a\\nb\\'c\\\\");
    assert_eq!(unescape_str("\\t"), Some("\t".to_string()));
    assert_eq!(unescape_str("x\\"), None);
}

#[test]
fn statement_constructors() {
    let def = FunctionDefinition {
        _span: (0, 1),
        id: Some("f".to_string()),
        args: vec!["x".to_string()],
        stmt: Box::new(AST::Identifier(Identifier { _span: (0, 1), val: "x".to_string() })),
    };
    let st = FunctionStatement::new(def, (0, 5));
    assert_eq!(st._span, (0, 5));
    assert_eq!(st.def().id, Some("f".to_string()));
    let rdef = RecordDefinition { _span: (0, 1), id: Some("R".to_string()), stmts: vec![] };
    let rs = RecordStatement::new(rdef, (1, 2));
    assert_eq!(rs.def().id, Some("R".to_string()));
    assert_eq!(rs._span, (1, 2));
}
