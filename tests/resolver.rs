use lox::ast::{Expr, Prog, Stmt};
use lox::parser::parse;
use lox::resolver::{resolve_program, ResolveError, Resolver};

fn resolved(src: &str) -> Result<Prog, ResolveError> {
    let mut prog = parse(src).unwrap();
    resolve_program(&mut prog).map(|()| prog)
}

#[test]
fn inner_use_resolves_one_scope_out() {
    let prog = resolved("{ let x = 1; { x; } }").unwrap();
    match &prog.stmts[0] {
        Stmt::Block(outer) => match &outer[1] {
            Stmt::Block(inner) => match &inner[0] {
                Stmt::Expr(Expr::Var(v)) => {
                    assert_eq!(v.name, "x");
                    assert_eq!(v.depth, 1);
                }
                other => panic!("unexpected {:?}", other),
            },
            other => panic!("unexpected {:?}", other),
        },
        other => panic!("unexpected {:?}", other),
    }
}

#[test]
fn global_use_stays_unresolved() {
    let prog = resolved("let x = 1; print x;").unwrap();
    match &prog.stmts[1] {
        Stmt::Print(Expr::Var(v)) => assert!(v.depth < 0),
        other => panic!("unexpected {:?}", other),
    }
}

#[test]
fn self_referential_initializer() {
    assert_eq!(
        resolved("{ let x = x; }"),
        Err(ResolveError::SelfReferentialInitializer("x".to_string()))
    );
    // At the top level the name is global and nothing is reported.
    assert!(resolved("let x = x;").is_ok());
}

#[test]
fn return_at_top_level() {
    assert_eq!(resolved("return;"), Err(ResolveError::ReturnOutsideFunction));
    assert!(resolved("fn f() { return; }").is_ok());
}

#[test]
fn duplicate_in_local_scope() {
    assert_eq!(
        resolved("{ let a = 1; let a = 2; }"),
        Err(ResolveError::DuplicateInScope("a".to_string()))
    );
    assert!(resolved("let a = 1; let a = 2;").is_ok());
}

#[test]
fn resolving_twice_keeps_depths() {
    let src = "fn mk() { let n = 0; fn count() { n = n + 1; return n; } return count; } { let a = 1; { a; } }";
    let mut prog = parse(src).unwrap();
    resolve_program(&mut prog).unwrap();
    let once = format!("{:?}", prog);
    let mut r = Resolver::new();
    r.resolve(&mut prog).unwrap();
    assert_eq!(format!("{:?}", prog), once);
}

#[test]
fn parameters_and_body_scopes() {
    let prog = resolved("fn f(a) { return a; }").unwrap();
    match &prog.stmts[0] {
        Stmt::Func(_, _, body) => match body.as_ref() {
            Stmt::Block(b) => match &b[0] {
                Stmt::Return(Some(Expr::Var(v))) => assert_eq!(v.depth, 1),
                other => panic!("unexpected {:?}", other),
            },
            other => panic!("unexpected {:?}", other),
        },
        other => panic!("unexpected {:?}", other),
    }
}
