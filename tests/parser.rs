use lox::ast::Expr::{self, Add, And, Asgn, Call, Div, Le, Lit, Mul, Ne, Not, Opp, Var};
use lox::ast::{Literal, Prog, Stmt, Variable};
use lox::cursor::Loc;
use lox::lexer::{tokenize, TokKind, Token};
use lox::parser::{parse, ParserError, RecursiveDescent};

fn expr(src: &str) -> Result<Expr, ParserError> {
    let t = tokenize(src);
    RecursiveDescent::parse_expr(&t, 0).map(|(e, _)| e)
}

fn num(lexeme: &str) -> Expr {
    Lit(Literal::Number(lexeme.to_string()))
}

fn var(name: &str) -> Expr {
    Var(Variable::new(name.to_string()))
}

#[test]
fn parser_trailing_chars() {
    let t = tokenize("6 + hello + 8 ;");
    let (_, q) = RecursiveDescent::parse_expr(&t, 0).unwrap();
    assert_ne!(t.get(q), None);
}

#[test]
fn parser_left_asoc() {
    let e = expr("6 + 3 + 8");
    assert_eq!(
        e,
        Ok(Add(
            Box::new(Add(Box::new(num("6")), Box::new(num("3")))),
            Box::new(num("8")),
        ))
    );
}

#[test]
fn parser_right_asoc() {
    let e = expr("a = b = 3");
    assert_eq!(
        e,
        Ok(Asgn(
            Variable::new("a".to_string()),
            Box::new(Asgn(Variable::new("b".to_string()), Box::new(num("3")))),
        ))
    );
}

#[test]
fn parser_grouping() {
    let e = expr("x + (3 + 8)");
    assert_eq!(
        e,
        Ok(Add(
            Box::new(var("x")),
            Box::new(Add(Box::new(num("3")), Box::new(num("8")))),
        ))
    );
}

#[test]
fn parser_prec_increasing() {
    let e = expr("x = true and 0 != 2 + 6 / -!false");
    assert_eq!(
        e,
        Ok(Asgn(
            Variable::new("x".to_string()),
            Box::new(And(
                Box::new(Lit(Literal::Boolean(true))),
                Box::new(Ne(
                    Box::new(num("0")),
                    Box::new(Add(
                        Box::new(num("2")),
                        Box::new(Div(
                            Box::new(num("6")),
                            Box::new(Opp(Box::new(Not(Box::new(Lit(Literal::Boolean(false))))))),
                        )),
                    )),
                )),
            ))
        ))
    );
}

#[test]
fn parser_prec_decreasing() {
    let e = expr("-!false / 6 + 2 != 0 and true");
    assert_eq!(
        e,
        Ok(And(
            Box::new(Ne(
                Box::new(Add(
                    Box::new(Div(
                        Box::new(Opp(Box::new(Not(Box::new(Lit(Literal::Boolean(false))))))),
                        Box::new(num("6")),
                    )),
                    Box::new(num("2")),
                )),
                Box::new(num("0")),
            )),
            Box::new(Lit(Literal::Boolean(true))),
        ))
    );
}

#[test]
fn parser_eof_error() {
    let e = expr("2 + - 6 / ");
    assert!(e.is_err());
}

#[test]
fn parser_unclosed_paren() {
    let e = expr("2 + - (6 / 4");
    assert!(e.is_err());
}

#[test]
fn parser_asgn_target_error() {
    let e = expr("6 = 3 + 8");
    assert!(e.is_err());
}

#[test]
fn rec_desc_trailing_chars() {
    let t = tokenize("6 + hello + 8 ;");
    let (_, q) = RecursiveDescent::parse_expr(&t, 0).unwrap();
    assert_ne!(t.get(q), None);
}

#[test]
fn rec_desc_left_asoc() {
    let e = expr("6 + 3 + 8");
    assert_eq!(
        e,
        Ok(Add(
            Box::new(Add(Box::new(num("6")), Box::new(num("3")))),
            Box::new(num("8")),
        ))
    );
}

#[test]
fn rec_desc_right_asoc() {
    let e = expr("a = b = 3");
    assert_eq!(
        e,
        Ok(Asgn(
            Variable::new("a".to_string()),
            Box::new(Asgn(Variable::new("b".to_string()), Box::new(num("3")))),
        ))
    );
}

#[test]
fn rec_desc_grouping() {
    let e = expr("x + (3 + 8)");
    assert_eq!(
        e,
        Ok(Add(
            Box::new(var("x")),
            Box::new(Add(Box::new(num("3")), Box::new(num("8")))),
        ))
    );
}

#[test]
fn rec_desc_prec_increasing() {
    let e = expr("x = true and 0 != 2 + 6 / -!false");
    assert_eq!(
        e,
        Ok(Asgn(
            Variable::new("x".to_string()),
            Box::new(And(
                Box::new(Lit(Literal::Boolean(true))),
                Box::new(Ne(
                    Box::new(num("0")),
                    Box::new(Add(
                        Box::new(num("2")),
                        Box::new(Div(
                            Box::new(num("6")),
                            Box::new(Opp(Box::new(Not(Box::new(Lit(Literal::Boolean(false))))))),
                        )),
                    )),
                )),
            ))
        ))
    );
}

#[test]
fn rec_desc_prec_decreasing() {
    let e = expr("-!false / 6 + 2 != 0 and true");
    assert_eq!(
        e,
        Ok(And(
            Box::new(Ne(
                Box::new(Add(
                    Box::new(Div(
                        Box::new(Opp(Box::new(Not(Box::new(Lit(Literal::Boolean(false))))))),
                        Box::new(num("6")),
                    )),
                    Box::new(num("2")),
                )),
                Box::new(num("0")),
            )),
            Box::new(Lit(Literal::Boolean(true))),
        ))
    );
}

#[test]
fn rec_desc_eof_error() {
    let e = expr("2 + - 6 / ");
    assert!(e.is_err());
}

#[test]
fn rec_desc_unclosed_paren() {
    let e = expr("2 + - (6 / 4");
    assert!(e.is_err());
}

#[test]
fn rec_desc_asgn_target_error() {
    let e = expr("6 = 3 + 8");
    assert!(e.is_err());
}

#[test]
fn invalid_assignment_target_is_located_at_lhs() {
    assert_eq!(expr("6 = 3"), Err(ParserError::InvalidAsgn { loc: Loc { row: 0, col: 0 } }));
}

#[test]
fn grouping_keeps_nesting() {
    assert_eq!(
        expr("(2 + (3 * 4))"),
        Ok(Add(Box::new(num("2")), Box::new(Mul(Box::new(num("3")), Box::new(num("4"))))))
    );
}

#[test]
fn for_desugars_to_while() {
    let prog = parse("for (let i = 1; i <= 4; i = i + 1) print i;").unwrap();
    let body = Stmt::Block(vec![
        Stmt::Print(var("i")),
        Stmt::Expr(Asgn(Variable::new("i".to_string()), Box::new(Add(Box::new(var("i")), Box::new(num("1")))))),
    ]);
    let expected = Stmt::Block(vec![
        Stmt::Decl("i".to_string(), Some(num("1"))),
        Stmt::While(Le(Box::new(var("i")), Box::new(num("4"))), Box::new(body)),
    ]);
    assert_eq!(prog, Prog { stmts: vec![expected] });
}

#[test]
fn for_without_clauses_loops_on_true() {
    let prog = parse("for (;;) { x; }").unwrap();
    let expected = Stmt::While(Lit(Literal::Boolean(true)), Box::new(Stmt::Block(vec![Stmt::Expr(var("x"))])));
    assert_eq!(prog, Prog { stmts: vec![expected] });
}

#[test]
fn function_declaration_and_call() {
    let prog = parse("fn f(a, b) { return a; } f(1, 2);").unwrap();
    assert_eq!(prog.stmts.len(), 2);
    assert_eq!(
        prog.stmts[0],
        Stmt::Func(
            "f".to_string(),
            vec!["a".to_string(), "b".to_string()],
            Box::new(Stmt::Block(vec![Stmt::Return(Some(var("a")))])),
        )
    );
    assert_eq!(prog.stmts[1], Stmt::Expr(Call(Box::new(var("f")), vec![num("1"), num("2")])));
}

#[test]
fn missing_semicolon_is_expected_error() {
    assert_eq!(parse("print 1"), Err(ParserError::Expected { exp: TokKind::Semicolon, fnd: None }));
}

#[test]
fn unexpected_token_error() {
    let e = parse("print );");
    assert_eq!(
        e,
        Err(ParserError::Unexpected { tok: Token { kind: TokKind::RParen, loc: Loc { row: 0, col: 6 } } })
    );
}

#[test]
fn unmatched_call_paren() {
    let e = parse("f(1;");
    assert_eq!(
        e,
        Err(ParserError::Unmatched {
            open: Token { kind: TokKind::LParen, loc: Loc { row: 0, col: 1 } },
            hint: Some(Loc { row: 0, col: 3 }),
        })
    );
}

#[test]
fn end_of_input_in_expression() {
    assert_eq!(parse("print 1 +"), Err(ParserError::EOF));
}

#[test]
fn missing_name_after_let() {
    assert_eq!(
        parse("let 3;"),
        Err(ParserError::ExpectedIdent { fnd: Some(Token { kind: TokKind::Number("3".to_string()), loc: Loc { row: 0, col: 4 } }) })
    );
}

#[test]
fn too_many_arguments() {
    let args: Vec<String> = (0..256).map(|i| i.to_string()).collect();
    let src = format!("f({});", args.join(", "));
    match parse(&src) {
        Err(ParserError::TooManyArgs { .. }) => {}
        other => panic!("expected TooManyArgs, got {:?}", other),
    }
    let ok: Vec<String> = (0..255).map(|i| i.to_string()).collect();
    assert!(parse(&format!("f({});", ok.join(", "))).is_ok());
}

#[test]
fn too_many_params() {
    let ps: Vec<String> = (0..256).map(|i| format!("p{}", i)).collect();
    let src = format!("fn f({}) {{}}", ps.join(", "));
    match parse(&src) {
        Err(ParserError::TooManyParams { .. }) => {}
        other => panic!("expected TooManyParams, got {:?}", other),
    }
}

#[test]
fn printer_round_trip() {
    let e = expr("(2 + (3 * 4))").unwrap();
    let text = e.to_source();
    assert_eq!(text, "(2 + (3 * 4))");
    assert_eq!(expr(&text), Ok(e));
}

#[test]
fn printer_shows_every_form() {
    let e = expr("f(a = -1, !\"s\", nil, true or false)").unwrap();
    assert_eq!(e.to_source(), "f((a = -1), !\"s\", nil, (true or false))");
}

#[test]
fn full_precedence_ladder() {
    let e = expr("!false / 6 + 2 != 0 and true");
    assert_eq!(
        e,
        Ok(And(
            Box::new(Ne(
                Box::new(Add(
                    Box::new(Div(Box::new(Not(Box::new(Lit(Literal::Boolean(false))))), Box::new(num("6")))),
                    Box::new(num("2")),
                )),
                Box::new(num("0")),
            )),
            Box::new(Lit(Literal::Boolean(true))),
        ))
    );
}
