use haru::ast::ast::AST;
use haru::ast::grammar;
use haru::ast::lexer::{lex, Kw, Sym, TokKind};

fn float_bits(src: &str) -> u64 {
    let prog = grammar::start(src).unwrap();
    match &prog[0] {
        AST::ExprStatement(e) => match &*e.expr {
            AST::FloatLiteral(f) => f.bits,
            _ => panic!("expected a float literal"),
        },
        _ => panic!("expected an expression statement"),
    }
}

#[test]
fn float_literals_round_to_nearest() {
    assert_eq!(float_bits("12.6"), 12.6f64.to_bits());
    assert_eq!(float_bits("0.1"), 0.1f64.to_bits());
    assert_eq!(float_bits("1.5"), 1.5f64.to_bits());
    assert_eq!(float_bits("0.0"), 0.0f64.to_bits());
    assert_eq!(float_bits("3.141592653589793"), std::f64::consts::PI.to_bits());
    assert_eq!(float_bits("123456789.123456789"), 123456789.123456789f64.to_bits());
    assert_eq!(float_bits("0.0000000000000000000001"), 1e-22f64.to_bits());
    assert_eq!(float_bits("9007199254740993.0"), 9007199254740992.0f64.to_bits());
    assert_eq!(float_bits("1844674407370955.1615"), 1844674407370955.1615f64.to_bits());
}

#[test]
fn float_literal_limits() {
    // more than 22 digits after the dot
    assert!(grammar::start("0.00000000000000000000001").is_err());
    // more significant digits than fit in 64 bits
    assert!(grammar::start("184467440737095516.16").is_err());
}

#[test]
fn lex_tokens_and_spans() {
    let toks = lex("if ab != 0x1f\n").unwrap();
    let kinds: Vec<TokKind> = toks.iter().map(|t| t.kind).collect();
    assert_eq!(
        kinds,
        vec![
            TokKind::Kw(Kw::If),
            TokKind::Ident,
            TokKind::Sym(Sym::Neq),
            TokKind::Int,
            TokKind::Newline
        ]
    );
    assert_eq!(toks[1].text, "ab");
    assert_eq!((toks[1].start, toks[1].end), (3, 5));
    assert_eq!(toks[3].int_val, 31);
}

#[test]
fn lex_byte_offsets() {
    // 'é' takes two bytes
    let toks = lex("'é' + b").unwrap();
    assert_eq!((toks[0].start, toks[0].end), (0, 4));
    assert_eq!((toks[2].start, toks[2].end), (7, 8));
    assert_eq!(toks[0].text, "é");
}

#[test]
fn lex_errors() {
    assert_eq!(lex("'abc").unwrap_err().offset, 0);
    assert_eq!(lex("a /* b").unwrap_err().offset, 2);
    assert_eq!(lex("a # b").unwrap_err().offset, 2);
    assert!(lex("99999999999999999999").is_err());
}

#[test]
fn parse_spans() {
    let prog = grammar::start("  a + bc").unwrap();
    match &prog[0] {
        AST::ExprStatement(e) => {
            assert_eq!(e._span, (2, 8));
            match &*e.expr {
                AST::BinExpr(b) => assert_eq!(b._span, (2, 8)),
                _ => panic!("expected a binary expression"),
            }
        }
        _ => panic!("expected an expression statement"),
    }
}

#[test]
fn parse_errors() {
    assert_eq!(grammar::start("a +").unwrap_err().offset, 3);
    assert!(grammar::start("begin\n1").is_err());
    assert!(grammar::start("1 2").is_err());
    assert!(grammar::start("end").is_err());
}

#[test]
fn parse_precedence() {
    let prog = grammar::start("a = 1 + 2 * 3 == 7 and b").unwrap();
    let e = match &prog[0] {
        AST::ExprStatement(e) => &e.expr,
        _ => panic!(),
    };
    match &**e {
        AST::BinExpr(assign) => {
            assert_eq!(assign.op, haru::ast::ast::BinOp::Assign);
            match &*assign.right {
                AST::BinExpr(and) => assert_eq!(and.op, haru::ast::ast::BinOp::And),
                _ => panic!("expected and"),
            }
        }
        _ => panic!("expected an assignment"),
    }
}

#[test]
fn parse_closure_and_record() {
    assert!(grammar::start("f = |x| { return x }").is_ok());
    assert!(grammar::start("record A\n x = 1\n function f(self) return 1\nend").is_ok());
    assert!(grammar::start("for x in [1, 2] then print(x)").is_ok());
    assert!(grammar::start("for i = 10 downto 0 step 2 begin\nend").is_ok());
    assert!(grammar::start("use 'lib'").is_ok());
    assert!(grammar::start("c ? 1 : 2").is_ok());
}

#[test]
fn string_literal_ends_at_first_closing_quote() {
    let toks = lex("'a'+'b'").unwrap();
    let kinds: Vec<TokKind> = toks.iter().map(|t| t.kind).collect();
    assert_eq!(kinds, vec![TokKind::Str, TokKind::Sym(Sym::Plus), TokKind::Str]);
    assert_eq!(toks[0].text, "a");
    let toks = lex("'a\\'b'").unwrap();
    assert_eq!(toks.len(), 1);
    assert_eq!(toks[0].text, "a\\'b");
}
