use lox::interp::{ArithOp, CmpOp, Host, Interp, RuntimeError, Val};
use lox::{interpret, InterpretError};

/// A host that computes with `f64` and keeps what is printed.
struct TestHost {
    out: String,
}

impl Host for TestHost {
    fn number(&mut self, lexeme: &String) -> u64 {
        lexeme.parse::<f64>().unwrap().to_bits()
    }

    fn arith(&mut self, op: ArithOp, a: u64, b: u64) -> u64 {
        let (x, y) = (f64::from_bits(a), f64::from_bits(b));
        let r = match op {
            ArithOp::Add => x + y,
            ArithOp::Sub => x - y,
            ArithOp::Mul => x * y,
            ArithOp::Div => x / y,
        };
        r.to_bits()
    }

    fn negate(&mut self, a: u64) -> u64 {
        (-f64::from_bits(a)).to_bits()
    }

    fn compare(&mut self, op: CmpOp, a: u64, b: u64) -> bool {
        let (x, y) = (f64::from_bits(a), f64::from_bits(b));
        match op {
            CmpOp::Eq => x == y,
            CmpOp::Lt => x < y,
            CmpOp::Le => x <= y,
            CmpOp::Gt => x > y,
            CmpOp::Ge => x >= y,
        }
    }

    fn show_number(&mut self, a: u64) -> String {
        format!("{}", f64::from_bits(a))
    }

    fn call_native(&mut self, _id: u32, _args: Vec<Val>) -> Val {
        Val::Number(0f64.to_bits())
    }

    fn print(&mut self, line: String) {
        self.out.push_str(&line);
        self.out.push('\n');
    }
}

fn run(src: &str) -> (Result<(), InterpretError>, String) {
    let mut host = TestHost { out: String::new() };
    let mut interp = Interp::new(u64::MAX, 400);
    let r = interpret(src, &mut interp, &mut host);
    (r, host.out)
}

fn output(src: &str) -> String {
    let (r, out) = run(src);
    assert_eq!(r, Ok(()));
    out
}

#[test]
fn closure_counter() {
    let src = "fn makeCounter() {
  let n = 0;
  fn count() { n = n + 1; return n; }
  return count;
}
let c = makeCounter();
print c(); print c(); print c();";
    assert_eq!(output(src), "1\n2\n3\n");
}

#[test]
fn for_loop_sum() {
    let src = "let s = 0;
for (let i = 1; i <= 4; i = i + 1) { s = s + i; }
print s;";
    assert_eq!(output(src), "10\n");
}

#[test]
fn short_circuit() {
    assert_eq!(output("print nil or \"a\"; print false and 1; print 0 and \"b\";"), "a\nfalse\nb\n");
}

#[test]
fn truthiness() {
    assert_eq!(output("print !nil; print !false; print !0; print !\"\";"), "true\ntrue\nfalse\nfalse\n");
}

#[test]
fn string_concat() {
    assert_eq!(output("print \"hi, \" + \"world\";"), "hi, world\n");
}

#[test]
fn shadowing() {
    assert_eq!(output("let x = 1; { let x = 2; print x; } print x;"), "2\n1\n");
}

#[test]
fn two_counters_are_independent() {
    let src = "fn makeCounter() {
  let n = 0;
  fn count() { n = n + 1; return n; }
  return count;
}
let a = makeCounter();
let b = makeCounter();
print a(); print a(); print b(); print a(); print b();";
    assert_eq!(output(src), "1\n2\n1\n3\n2\n");
}

#[test]
fn same_program_same_output() {
    let src = "fn fib(n) { if (n < 2) return n; return fib(n - 1) + fib(n - 2); }
for (let i = 0; i < 10; i = i + 1) print fib(i);
print 1 / 3; print \"x\" + \"y\";";
    let first = output(src);
    let second = output(src);
    assert_eq!(first, second);
    assert_eq!(first, "0\n1\n1\n2\n3\n5\n8\n13\n21\n34\n0.3333333333333333\nxy\n");
}

#[test]
fn numbers_and_display() {
    assert_eq!(output("print 1 + 2 * 3; print 7 / 2; print -(3 - 5); print 1.5;"), "7\n3.5\n2\n1.5\n");
    assert_eq!(output("print 1 / 0; print nil; print true;"), "inf\nnil\ntrue\n");
}

#[test]
fn equality_and_ordering() {
    assert_eq!(
        output("print 1 == 1; print 1 != 2; print \"a\" == \"a\"; print nil == false; print 2 >= 3; print 2 < 3;"),
        "true\ntrue\ntrue\nfalse\nfalse\ntrue\n"
    );
}

#[test]
fn functions_display() {
    assert_eq!(output("fn f() {} print f; print clock;"), "<user fn>\n<native fn>\n");
}

#[test]
fn while_and_if() {
    assert_eq!(
        output("let i = 0; while (i < 3) { if (i == 1) print \"one\"; else print i; i = i + 1; }"),
        "0\none\n2\n"
    );
}

#[test]
fn function_without_return_gives_nil() {
    assert_eq!(output("fn f() { 1; } print f();"), "nil\n");
}

#[test]
fn type_error_on_mixed_add() {
    assert_eq!(run("print 1 + \"a\";").0, Err(InterpretError::Runtime(RuntimeError::TypeError)));
    assert_eq!(run("print -\"a\";").0, Err(InterpretError::Runtime(RuntimeError::TypeError)));
    assert_eq!(run("print 1 < \"a\";").0, Err(InterpretError::Runtime(RuntimeError::TypeError)));
}

#[test]
fn undefined_variable() {
    assert_eq!(
        run("print y;").0,
        Err(InterpretError::Runtime(RuntimeError::UndefinedVariable("y".to_string())))
    );
    assert_eq!(
        run("y = 1;").0,
        Err(InterpretError::Runtime(RuntimeError::UndefinedVariable("y".to_string())))
    );
}

#[test]
fn not_callable() {
    assert_eq!(run("let a = 1; a();").0, Err(InterpretError::Runtime(RuntimeError::NotCallable)));
}

#[test]
fn arity_mismatch() {
    assert_eq!(
        run("fn f(a, b) {} f(1);").0,
        Err(InterpretError::Runtime(RuntimeError::ArityMismatch(2, 1)))
    );
    assert_eq!(run("clock(1);").0, Err(InterpretError::Runtime(RuntimeError::ArityMismatch(0, 1))));
}

#[test]
fn errors_of_earlier_phases_run_nothing() {
    let (r, out) = run("print 1; print 2");
    assert!(matches!(r, Err(InterpretError::Syntax(_))));
    assert_eq!(out, "");
    let (r, out) = run("print 1; return;");
    assert!(matches!(r, Err(InterpretError::Resolve(_))));
    assert_eq!(out, "");
}

#[test]
fn globals_persist_between_runs() {
    let mut host = TestHost { out: String::new() };
    let mut interp = Interp::new(u64::MAX, 400);
    assert_eq!(interpret("let g = 41;", &mut interp, &mut host), Ok(()));
    assert_eq!(interpret("print g + 1;", &mut interp, &mut host), Ok(()));
    assert_eq!(host.out, "42\n");
}

#[test]
fn loop_budget_is_enforced() {
    let mut host = TestHost { out: String::new() };
    let mut interp = Interp::new(10, 400);
    assert_eq!(
        interpret("while (true) {}", &mut interp, &mut host),
        Err(InterpretError::Runtime(RuntimeError::OutOfSteps))
    );
}

#[test]
fn deep_recursion_is_an_error() {
    assert_eq!(
        run("fn f() { return f(); } f();").0,
        Err(InterpretError::Runtime(RuntimeError::CallDepth))
    );
}

#[test]
fn call_depth_is_a_setting() {
    let src = "fn f(n) { if (n == 0) return 0; return f(n - 1); } print f(50);";
    let mut host = TestHost { out: String::new() };
    let mut shallow = Interp::new(u64::MAX, 10);
    assert_eq!(
        interpret(src, &mut shallow, &mut host),
        Err(InterpretError::Runtime(RuntimeError::CallDepth))
    );
    let mut deep = Interp::new(u64::MAX, 100);
    assert_eq!(interpret(src, &mut deep, &mut host), Ok(()));
    assert_eq!(host.out, "0\n");
}
