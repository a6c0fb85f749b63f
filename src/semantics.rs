use vstd::prelude::*;

use crate::ast::{BinOp, ExprV, LitV, StmtV, VarV};
use crate::interp::{find_val, target, ArithOp, CmpOp, ErrV, FrameV, Function, ValV};

verus! {

/// What the interpreter asks of its host.
pub ghost enum Request {
    Number(Seq<char>),
    Arith(ArithOp, u64, u64),
    Negate(u64),
    Compare(CmpOp, u64, u64),
    Show(u64),
    Native(u32, Seq<ValV>),
    Print(Seq<char>),
}

/// What the host answered; printing gets no answer.
pub ghost enum Answer {
    Num(u64),
    Bool(bool),
    Text(Seq<char>),
    Value(ValV),
}

/// A function declaration: its parameters and body.
pub ghost struct DeclV {
    pub params: Seq<Seq<char>>,
    pub body: StmtV,
}

/// The state of a run: the scopes, the function declarations made so far,
/// the loop budget left, the lines printed, the requests made of the host,
/// and how many of the host's answers have been used.
pub ghost struct StateV {
    pub frames: Seq<FrameV>,
    pub decls: Seq<DeclV>,
    pub steps: nat,
    pub out: Seq<Seq<char>>,
    pub reqs: Seq<Request>,
    pub k: nat,
}

pub type Outcome = (Result<ValV, ErrV>, StateV);

/// Whether `a` starts with all of `b`.
pub open spec fn extends(a: Seq<Answer>, b: Seq<Answer>) -> bool {
    &&& b.len() <= a.len()
    &&& forall|i: int| 0 <= i < b.len() ==> #[trigger] a[i] == b[i]
}

pub broadcast proof fn lemma_extends_trans(a: Seq<Answer>, b: Seq<Answer>, c: Seq<Answer>)
    requires
        #[trigger] extends(a, b),
        #[trigger] extends(b, c),
    ensures
        extends(a, c),
{
    assert forall|i: int| 0 <= i < c.len() implies #[trigger] a[i] == c[i] by {
        assert(a[i] == b[i]);
    }
}

pub proof fn lemma_extends_refl(a: Seq<Answer>)
    ensures
        extends(a, a),
{
}

pub open spec fn num_at(ans: Seq<Answer>, k: nat) -> u64 {
    match ans[k as int] {
        Answer::Num(n) => n,
        _ => 0,
    }
}

pub open spec fn bool_at(ans: Seq<Answer>, k: nat) -> bool {
    match ans[k as int] {
        Answer::Bool(b) => b,
        _ => false,
    }
}

pub open spec fn text_at(ans: Seq<Answer>, k: nat) -> Seq<char> {
    match ans[k as int] {
        Answer::Text(t) => t,
        _ => Seq::empty(),
    }
}

pub open spec fn val_at(ans: Seq<Answer>, k: nat) -> ValV {
    match ans[k as int] {
        Answer::Value(v) => v,
        _ => ValV::Nil,
    }
}

/// `st` after a request that the host answers.
pub open spec fn ask(st: StateV, req: Request) -> StateV {
    StateV { reqs: st.reqs.push(req), k: st.k + 1, ..st }
}

/// `st` after printing `line`.
pub open spec fn print_st(st: StateV, line: Seq<char>) -> StateV {
    StateV { out: st.out.push(line), reqs: st.reqs.push(Request::Print(line)), ..st }
}

pub open spec fn with_frames(st: StateV, fr: Seq<FrameV>) -> StateV {
    StateV { frames: fr, ..st }
}

pub open spec fn new_local_v(fr: Seq<FrameV>, outer: int) -> Seq<FrameV> {
    fr.push(FrameV { values: Seq::empty(), outer: Some(outer as usize), captured: false })
}

pub open spec fn def_v(fr: Seq<FrameV>, s: int, name: Seq<char>, v: ValV) -> Seq<FrameV> {
    fr.update(s, FrameV { values: fr[s].values.push((name, v)), ..fr[s] })
}

pub open spec fn capture_v(fr: Seq<FrameV>, s: int) -> Seq<FrameV> {
    fr.update(s, FrameV { captured: true, ..fr[s] })
}

/// Drops scope `s` when it is the last one, not the global one, and no
/// function closes over it.
pub open spec fn release_v(fr: Seq<FrameV>, s: int) -> Seq<FrameV> {
    if fr.len() > 1 && s == fr.len() - 1 && !fr[s].captured {
        fr.drop_last()
    } else {
        fr
    }
}

pub open spec fn value_of_v(fr: Seq<FrameV>, s: int, v: VarV) -> Option<ValV> {
    match target(fr, s, v.depth) {
        Some(f) => match find_val(fr[f].values, v.name) {
            Some(i) => Some(fr[f].values[i].1),
            None => None,
        },
        None => None,
    }
}

/// The scopes after assigning `val` to `v`, if `v` is bound.
pub open spec fn asgn_v(fr: Seq<FrameV>, s: int, v: VarV, val: ValV) -> Option<Seq<FrameV>> {
    match target(fr, s, v.depth) {
        Some(f) => match find_val(fr[f].values, v.name) {
            Some(i) => Some(
                fr.update(f, FrameV { values: fr[f].values.update(i, (v.name, val)), ..fr[f] }),
            ),
            None => None,
        },
        None => None,
    }
}

/// Binds `names` to `vals`, in order, in scope `s`.
pub open spec fn bind_all(fr: Seq<FrameV>, s: int, names: Seq<Seq<char>>, vals: Seq<ValV>) -> Seq<
    FrameV,
>
    decreases names.len(),
{
    if names.len() == 0 {
        fr
    } else {
        def_v(
            bind_all(fr, s, names.drop_last(), vals.drop_last()),
            s,
            names.last(),
            vals[names.len() - 1],
        )
    }
}

pub open spec fn truthy_v(v: ValV) -> bool {
    !(v is Nil || v == ValV::Boolean(false))
}

/// The display form of `v`; a number's comes from the host.
pub open spec fn show_val(v: ValV, st: StateV, ans: Seq<Answer>) -> (Seq<char>, StateV) {
    match v {
        ValV::Number(n) => (text_at(ans, st.k), ask(st, Request::Show(n))),
        ValV::Boolean(b) => (if b {
            "true"@
        } else {
            "false"@
        }, st),
        ValV::Str(s) => (s, st),
        ValV::Nil => ("nil"@, st),
        ValV::Func(Function::Native(_, _)) => ("<native fn>"@, st),
        ValV::Func(Function::UserDef(_, _)) => ("<user fn>"@, st),
        ValV::NoVal => ("???"@, st),
    }
}

pub open spec fn arith_op(op: BinOp) -> ArithOp {
    match op {
        BinOp::Add => ArithOp::Add,
        BinOp::Sub => ArithOp::Sub,
        BinOp::Mul => ArithOp::Mul,
        _ => ArithOp::Div,
    }
}

pub open spec fn cmp_op(op: BinOp) -> CmpOp {
    match op {
        BinOp::Gt => CmpOp::Gt,
        BinOp::Ge => CmpOp::Ge,
        BinOp::Lt => CmpOp::Lt,
        BinOp::Le => CmpOp::Le,
        _ => CmpOp::Eq,
    }
}

/// A strict binary operator applied to two values. Equality of two numbers,
/// arithmetic and ordering come from the host; every other result is fixed
/// here.
pub open spec fn binary_v(op: BinOp, a: ValV, b: ValV, st: StateV, ans: Seq<Answer>) -> Outcome {
    match (a, b) {
        (ValV::Number(x), ValV::Number(y)) => match op {
            BinOp::Eq => (Ok(ValV::Boolean(bool_at(ans, st.k))), ask(st, Request::Compare(CmpOp::Eq, x, y))),
            BinOp::Ne => (Ok(ValV::Boolean(!bool_at(ans, st.k))), ask(st, Request::Compare(CmpOp::Eq, x, y))),
            BinOp::Add | BinOp::Sub | BinOp::Mul | BinOp::Div => (
                Ok(ValV::Number(num_at(ans, st.k))),
                ask(st, Request::Arith(arith_op(op), x, y)),
            ),
            BinOp::Gt | BinOp::Ge | BinOp::Lt | BinOp::Le => (
                Ok(ValV::Boolean(bool_at(ans, st.k))),
                ask(st, Request::Compare(cmp_op(op), x, y)),
            ),
            _ => (Err(ErrV::TypeError), st),
        },
        _ => match op {
            BinOp::Eq => (Ok(ValV::Boolean(a == b)), st),
            BinOp::Ne => (Ok(ValV::Boolean(a != b)), st),
            BinOp::Add => match (a, b) {
                (ValV::Str(x), ValV::Str(y)) => (Ok(ValV::Str(x + y)), st),
                _ => (Err(ErrV::TypeError), st),
            },
            _ => (Err(ErrV::TypeError), st),
        },
    }
}

pub open spec fn negate_v(v: ValV, st: StateV, ans: Seq<Answer>) -> Outcome {
    match v {
        ValV::Number(x) => (Ok(ValV::Number(num_at(ans, st.k))), ask(st, Request::Negate(x))),
        _ => (Err(ErrV::TypeError), st),
    }
}

/// The value of `e` in scope `s`, with `d` more calls allowed, from state
/// `st`; `ans` holds the host's answers.
pub open spec fn eval_v(e: ExprV, s: int, d: nat, st: StateV, ans: Seq<Answer>) -> Outcome
    decreases d, st.steps, 2int, e,
{
    match e {
        ExprV::Lit(LitV::Number(n)) => (Ok(ValV::Number(num_at(ans, st.k))), ask(st, Request::Number(n))),
        ExprV::Lit(LitV::Boolean(b)) => (Ok(ValV::Boolean(b)), st),
        ExprV::Lit(LitV::Str(x)) => (Ok(ValV::Str(x)), st),
        ExprV::Lit(LitV::Nil) => (Ok(ValV::Nil), st),
        ExprV::Var(v) => match value_of_v(st.frames, s, v) {
            Some(x) => (Ok(x), st),
            None => (Err(ErrV::UndefinedVariable(v.name)), st),
        },
        ExprV::Asgn(v, x) => match eval_v(*x, s, d, st, ans) {
            (Err(err), st1) => (Err(err), st1),
            (Ok(val), st1) => match asgn_v(st1.frames, s, v, val) {
                Some(fr) => (Ok(val), with_frames(st1, fr)),
                None => (Err(ErrV::UndefinedVariable(v.name)), st1),
            },
        },
        ExprV::Bin(op, a, b) => match eval_v(*a, s, d, st, ans) {
            (Err(err), st1) => (Err(err), st1),
            (Ok(l), st1) => {
                if st1.steps > st.steps {
                    (Err(ErrV::OutOfSteps), st1)
                } else if op is And {
                    if !truthy_v(l) {
                        (Ok(l), st1)
                    } else {
                        eval_v(*b, s, d, st1, ans)
                    }
                } else if op is Or {
                    if truthy_v(l) {
                        (Ok(l), st1)
                    } else {
                        eval_v(*b, s, d, st1, ans)
                    }
                } else {
                    match eval_v(*b, s, d, st1, ans) {
                        (Err(err), st2) => (Err(err), st2),
                        (Ok(r), st2) => binary_v(op, l, r, st2, ans),
                    }
                }
            },
        },
        ExprV::Not(x) => match eval_v(*x, s, d, st, ans) {
            (Err(err), st1) => (Err(err), st1),
            (Ok(v), st1) => (Ok(ValV::Boolean(!truthy_v(v))), st1),
        },
        ExprV::Opp(x) => match eval_v(*x, s, d, st, ans) {
            (Err(err), st1) => (Err(err), st1),
            (Ok(v), st1) => negate_v(v, st1, ans),
        },
        ExprV::Call(c, args) => match eval_v(*c, s, d, st, ans) {
            (Err(err), st1) => (Err(err), st1),
            (Ok(ValV::Func(f)), st1) => {
                if st1.steps > st.steps {
                    (Err(ErrV::OutOfSteps), st1)
                } else {
                    match eval_args_v(args, Seq::empty(), s, d, st1, ans) {
                        (Err(err), st2) => (Err(err), st2),
                        (Ok(vals), st2) => {
                            if st2.steps > st.steps {
                                (Err(ErrV::OutOfSteps), st2)
                            } else {
                                call_v(f, vals, d, st2, ans)
                            }
                        },
                    }
                }
            },
            (Ok(_), st1) => (Err(ErrV::NotCallable), st1),
        },
    }
}

/// The values of `rest`, evaluated left to right, after those in `acc`.
pub open spec fn eval_args_v(
    rest: Seq<ExprV>,
    acc: Seq<ValV>,
    s: int,
    d: nat,
    st: StateV,
    ans: Seq<Answer>,
) -> (Result<Seq<ValV>, ErrV>, StateV)
    decreases d, st.steps, 2int, rest,
{
    if rest.len() == 0 {
        (Ok(acc), st)
    } else {
        match eval_v(rest[0], s, d, st, ans) {
            (Err(err), st1) => (Err(err), st1),
            (Ok(v), st1) => {
                if st1.steps > st.steps {
                    (Err(ErrV::OutOfSteps), st1)
                } else {
                    eval_args_v(rest.drop_first(), acc.push(v), s, d, st1, ans)
                }
            },
        }
    }
}

/// The result of calling `f` with `args`: a native function's comes from the
/// host; a user function's body runs in a fresh scope inside its closure,
/// with the parameters bound to the arguments in order, and gives `nil`
/// when it returns nothing.
pub open spec fn call_v(f: Function, args: Seq<ValV>, d: nat, st: StateV, ans: Seq<Answer>) -> Outcome
    decreases d, st.steps, 1int, f,
{
    match f {
        Function::Native(arity, id) => {
            if arity as int != args.len() {
                (Err(ErrV::ArityMismatch(arity as int, args.len() as int)), st)
            } else {
                let v = val_at(ans, st.k);
                (Ok(if v is NoVal {
                    ValV::Nil
                } else {
                    v
                }), ask(st, Request::Native(id, args)))
            }
        },
        Function::UserDef(di, c) => {
            if di >= st.decls.len() || c >= st.frames.len() {
                (Err(ErrV::NotCallable), st)
            } else if st.decls[di as int].params.len() != args.len() {
                (Err(ErrV::ArityMismatch(st.decls[di as int].params.len() as int, args.len() as int)), st)
            } else if d == 0 {
                (Err(ErrV::CallDepth), st)
            } else {
                let decl = st.decls[di as int];
                let inner = st.frames.len() as int;
                let fr = bind_all(new_local_v(st.frames, c as int), inner, decl.params, args);
                match exec_v(decl.body, inner, (d - 1) as nat, with_frames(st, fr), ans) {
                    (Err(err), st2) => (Err(err), st2),
                    (Ok(r), st2) => (Ok(if r is NoVal {
                        ValV::Nil
                    } else {
                        r
                    }), with_frames(st2, release_v(st2.frames, inner))),
                }
            }
        },
    }
}

/// The result of executing `x` in scope `s`: `NoVal` when it completes, any
/// other value when a `return` produced it.
pub open spec fn exec_v(x: StmtV, s: int, d: nat, st: StateV, ans: Seq<Answer>) -> Outcome
    decreases d, st.steps, 3int, x,
{
    match x {
        StmtV::Block(ss) => {
            let inner = st.frames.len() as int;
            match exec_block_v(ss, inner, d, with_frames(st, new_local_v(st.frames, s)), ans) {
                (Err(err), st2) => (Err(err), st2),
                (Ok(r), st2) => (Ok(r), with_frames(st2, release_v(st2.frames, inner))),
            }
        },
        StmtV::Expr(e) => match eval_v(e, s, d, st, ans) {
            (Err(err), st1) => (Err(err), st1),
            (Ok(_), st1) => (Ok(ValV::NoVal), st1),
        },
        StmtV::Print(e) => match eval_v(e, s, d, st, ans) {
            (Err(err), st1) => (Err(err), st1),
            (Ok(v), st1) => {
                let (line, st2) = show_val(v, st1, ans);
                (Ok(ValV::NoVal), print_st(st2, line))
            },
        },
        StmtV::Decl(n, init) => match init {
            None => (Ok(ValV::NoVal), with_frames(st, def_v(st.frames, s, n, ValV::Nil))),
            Some(e) => match eval_v(e, s, d, st, ans) {
                (Err(err), st1) => (Err(err), st1),
                (Ok(v), st1) => (Ok(ValV::NoVal), with_frames(st1, def_v(st1.frames, s, n, v))),
            },
        },
        StmtV::If(c, th, el) => match eval_v(c, s, d, st, ans) {
            (Err(err), st1) => (Err(err), st1),
            (Ok(cv), st1) => {
                if st1.steps > st.steps {
                    (Err(ErrV::OutOfSteps), st1)
                } else if truthy_v(cv) {
                    exec_v(*th, s, d, st1, ans)
                } else {
                    match el {
                        None => (Ok(ValV::NoVal), st1),
                        Some(e) => exec_v(*e, s, d, st1, ans),
                    }
                }
            },
        },
        StmtV::While(c, b) => {
            if st.steps == 0 {
                (Err(ErrV::OutOfSteps), st)
            } else {
                let st0 = StateV { steps: (st.steps - 1) as nat, ..st };
                match eval_v(c, s, d, st0, ans) {
                    (Err(err), st1) => (Err(err), st1),
                    (Ok(cv), st1) => {
                        if !truthy_v(cv) {
                            (Ok(ValV::NoVal), st1)
                        } else if st1.steps > st0.steps {
                            (Err(ErrV::OutOfSteps), st1)
                        } else {
                            match exec_v(*b, s, d, st1, ans) {
                                (Err(err), st2) => (Err(err), st2),
                                (Ok(r), st2) => {
                                    if !(r is NoVal) {
                                        (Ok(r), st2)
                                    } else if st2.steps > st1.steps {
                                        (Err(ErrV::OutOfSteps), st2)
                                    } else {
                                        exec_v(StmtV::While(c, b), s, d, st2, ans)
                                    }
                                },
                            }
                        }
                    },
                }
            }
        },
        StmtV::Func(n, ps, b) => {
            let id = st.decls.len();
            let fr = def_v(capture_v(st.frames, s), s, n, ValV::Func(Function::UserDef(id as usize, s as usize)));
            (Ok(ValV::NoVal), StateV { frames: fr, decls: st.decls.push(DeclV { params: ps, body: *b }), ..st })
        },
        StmtV::Return(e) => match e {
            None => (Ok(ValV::Nil), st),
            Some(x) => eval_v(x, s, d, st, ans),
        },
    }
}

/// The statements of a block, run in order in scope `s` until one produces
/// a value other than `NoVal`.
pub open spec fn exec_block_v(ss: Seq<StmtV>, s: int, d: nat, st: StateV, ans: Seq<Answer>) -> Outcome
    decreases d, st.steps, 3int, ss,
{
    if ss.len() == 0 {
        (Ok(ValV::NoVal), st)
    } else {
        match exec_v(ss[0], s, d, st, ans) {
            (Err(err), st1) => (Err(err), st1),
            (Ok(r), st1) => {
                if !(r is NoVal) {
                    (Ok(r), st1)
                } else if st1.steps > st.steps {
                    (Err(ErrV::OutOfSteps), st1)
                } else {
                    exec_block_v(ss.drop_first(), s, d, st1, ans)
                }
            },
        }
    }
}

/// A program's statements run in order in the global scope, stopping at
/// the first error.
pub open spec fn run_v(ss: Seq<StmtV>, d: nat, st: StateV, ans: Seq<Answer>) -> (Result<(), ErrV>, StateV)
    decreases ss,
{
    if ss.len() == 0 {
        (Ok(()), st)
    } else {
        match exec_v(ss[0], 0, d, st, ans) {
            (Err(err), st1) => (Err(err), st1),
            (Ok(_), st1) => run_v(ss.drop_first(), d, st1, ans),
        }
    }
}

} // verus!

verus! {

/// Determinism: runs of one program from one state, whose hosts gave the
/// same answers, end the same way, print the same lines and make the same
/// requests.
pub proof fn lemma_run_deterministic(
    ss: Seq<StmtV>,
    d: nat,
    st: StateV,
    a1: Seq<Answer>,
    a2: Seq<Answer>,
)
    requires
        a1 == a2,
    ensures
        run_v(ss, d, st, a1).0 == run_v(ss, d, st, a2).0,
        run_v(ss, d, st, a1).1.out == run_v(ss, d, st, a2).1.out,
        run_v(ss, d, st, a1).1.reqs == run_v(ss, d, st, a2).1.reqs,
{
}

/// Each call of a user function runs its body in a scope of its own: a new
/// scope after all existing ones, inside the function's closure, holding
/// the parameters bound in order, so two calls never share their locals.
pub proof fn lemma_call_fresh_scope(fr: Seq<FrameV>, c: int, params: Seq<Seq<char>>, args: Seq<ValV>)
    requires
        params.len() == args.len(),
    ensures
        bind_all(new_local_v(fr, c), fr.len() as int, params, args).len() == fr.len() + 1,
        bind_all(new_local_v(fr, c), fr.len() as int, params, args)[fr.len() as int].outer == Some(
            c as usize,
        ),
        forall|i: int|
            0 <= i < fr.len() ==> #[trigger] bind_all(
                new_local_v(fr, c),
                fr.len() as int,
                params,
                args,
            )[i] == fr[i],
    decreases params.len(),
{
    if params.len() > 0 {
        lemma_call_fresh_scope(fr, c, params.drop_last(), args.drop_last());
    }
}

} // verus!

verus! {

pub open spec fn print_stmt(e: ExprV) -> StmtV {
    StmtV::Print(e)
}

pub open spec fn lit_str(s: Seq<char>) -> ExprV {
    ExprV::Lit(LitV::Str(s))
}

/// `print nil or "a"; print false and 1; print 0 and "b";` prints `a`,
/// `false` and `b`, whatever numbers the host makes of the literals.
pub proof fn lemma_short_circuit_output(d: nat, st: StateV, ans: Seq<Answer>)
    ensures
        ({
            let prog = seq![
                print_stmt(ExprV::Bin(BinOp::Or, Box::new(ExprV::Lit(LitV::Nil)), Box::new(lit_str("a"@)))),
                print_stmt(ExprV::Bin(BinOp::And, Box::new(ExprV::Lit(LitV::Boolean(false))), Box::new(ExprV::Lit(LitV::Number("1"@))))),
                print_stmt(ExprV::Bin(BinOp::And, Box::new(ExprV::Lit(LitV::Number("0"@))), Box::new(lit_str("b"@)))),
            ];
            let (r, end) = run_v(prog, d, st, ans);
            r is Ok && end.out == st.out + seq!["a"@, "false"@, "b"@]
        }),
{
    let p1 = print_stmt(ExprV::Bin(BinOp::Or, Box::new(ExprV::Lit(LitV::Nil)), Box::new(lit_str("a"@))));
    let p2 = print_stmt(ExprV::Bin(BinOp::And, Box::new(ExprV::Lit(LitV::Boolean(false))), Box::new(ExprV::Lit(LitV::Number("1"@)))));
    let p3 = print_stmt(ExprV::Bin(BinOp::And, Box::new(ExprV::Lit(LitV::Number("0"@))), Box::new(lit_str("b"@))));
    let prog = seq![p1, p2, p3];
    assert(eval_v(ExprV::Lit(LitV::Nil), 0, d, st, ans) == (Ok::<ValV, ErrV>(ValV::Nil), st));
    assert(eval_v(lit_str("a"@), 0, d, st, ans) == (Ok::<ValV, ErrV>(ValV::Str("a"@)), st));
    let e1 = ExprV::Bin(BinOp::Or, Box::new(ExprV::Lit(LitV::Nil)), Box::new(lit_str("a"@)));
    assert(eval_v(e1, 0, d, st, ans) == (Ok::<ValV, ErrV>(ValV::Str("a"@)), st));
    assert(exec_v(p1, 0, d, st, ans) == (Ok::<ValV, ErrV>(ValV::NoVal), print_st(st, "a"@)));
    let s1 = print_st(st, "a"@);
    assert(eval_v(ExprV::Lit(LitV::Boolean(false)), 0, d, s1, ans) == (Ok::<ValV, ErrV>(ValV::Boolean(false)), s1));
    let e2 = ExprV::Bin(BinOp::And, Box::new(ExprV::Lit(LitV::Boolean(false))), Box::new(ExprV::Lit(LitV::Number("1"@))));
    assert(eval_v(e2, 0, d, s1, ans) == (Ok::<ValV, ErrV>(ValV::Boolean(false)), s1));
    assert(exec_v(p2, 0, d, s1, ans) == (Ok::<ValV, ErrV>(ValV::NoVal), print_st(s1, "false"@)));
    let s2 = print_st(s1, "false"@);
    let n0 = eval_v(ExprV::Lit(LitV::Number("0"@)), 0, d, s2, ans);
    assert(n0.0 matches Ok(ValV::Number(_)));
    assert(n0.1.steps == s2.steps);
    assert(eval_v(lit_str("b"@), 0, d, n0.1, ans) == (Ok::<ValV, ErrV>(ValV::Str("b"@)), n0.1));
    let e3 = ExprV::Bin(BinOp::And, Box::new(ExprV::Lit(LitV::Number("0"@))), Box::new(lit_str("b"@)));
    assert(eval_v(e3, 0, d, s2, ans) == (Ok::<ValV, ErrV>(ValV::Str("b"@)), n0.1));
    assert(exec_v(p3, 0, d, s2, ans) == (Ok::<ValV, ErrV>(ValV::NoVal), print_st(n0.1, "b"@)));
    let s3 = print_st(n0.1, "b"@);
    assert(run_v(seq![p3], d, s2, ans) == (Ok::<(), ErrV>(()), s3)) by {
        assert(seq![p3].drop_first() =~= Seq::<StmtV>::empty());
        assert(seq![p3][0] == p3);
        assert(run_v(Seq::empty(), d, s3, ans) == (Ok::<(), ErrV>(()), s3));
    }
    assert(run_v(seq![p2, p3], d, s1, ans) == (Ok::<(), ErrV>(()), s3)) by {
        assert(seq![p2, p3].drop_first() =~= seq![p3]);
    }
    assert(prog.drop_first() =~= seq![p2, p3]);
    assert(s3.out =~= st.out + seq!["a"@, "false"@, "b"@]);
}

/// `print !nil; print !false; print !0; print !"";` prints `true`, `true`,
/// `false`, `false`.
pub proof fn lemma_truthiness_output(d: nat, st: StateV, ans: Seq<Answer>)
    ensures
        ({
            let prog = seq![
                print_stmt(ExprV::Not(Box::new(ExprV::Lit(LitV::Nil)))),
                print_stmt(ExprV::Not(Box::new(ExprV::Lit(LitV::Boolean(false))))),
                print_stmt(ExprV::Not(Box::new(ExprV::Lit(LitV::Number("0"@))))),
                print_stmt(ExprV::Not(Box::new(lit_str(Seq::empty())))),
            ];
            let (r, end) = run_v(prog, d, st, ans);
            r is Ok && end.out == st.out + seq!["true"@, "true"@, "false"@, "false"@]
        }),
{
    let p1 = print_stmt(ExprV::Not(Box::new(ExprV::Lit(LitV::Nil))));
    let p2 = print_stmt(ExprV::Not(Box::new(ExprV::Lit(LitV::Boolean(false)))));
    let p3 = print_stmt(ExprV::Not(Box::new(ExprV::Lit(LitV::Number("0"@)))));
    let p4 = print_stmt(ExprV::Not(Box::new(lit_str(Seq::empty()))));
    let prog = seq![p1, p2, p3, p4];
    assert(eval_v(ExprV::Lit(LitV::Nil), 0, d, st, ans) == (Ok::<ValV, ErrV>(ValV::Nil), st));
    assert(eval_v(ExprV::Not(Box::new(ExprV::Lit(LitV::Nil))), 0, d, st, ans) == (Ok::<ValV, ErrV>(ValV::Boolean(true)), st));
    assert(exec_v(p1, 0, d, st, ans) == (Ok::<ValV, ErrV>(ValV::NoVal), print_st(st, "true"@)));
    let s1 = print_st(st, "true"@);
    assert(eval_v(ExprV::Lit(LitV::Boolean(false)), 0, d, s1, ans) == (Ok::<ValV, ErrV>(ValV::Boolean(false)), s1));
    assert(eval_v(ExprV::Not(Box::new(ExprV::Lit(LitV::Boolean(false)))), 0, d, s1, ans) == (Ok::<ValV, ErrV>(ValV::Boolean(true)), s1));
    assert(exec_v(p2, 0, d, s1, ans) == (Ok::<ValV, ErrV>(ValV::NoVal), print_st(s1, "true"@)));
    let s2 = print_st(s1, "true"@);
    let n0 = eval_v(ExprV::Lit(LitV::Number("0"@)), 0, d, s2, ans);
    assert(n0.0 matches Ok(ValV::Number(_)));
    assert(eval_v(ExprV::Not(Box::new(ExprV::Lit(LitV::Number("0"@)))), 0, d, s2, ans) == (Ok::<ValV, ErrV>(ValV::Boolean(false)), n0.1));
    assert(exec_v(p3, 0, d, s2, ans) == (Ok::<ValV, ErrV>(ValV::NoVal), print_st(n0.1, "false"@)));
    let s3 = print_st(n0.1, "false"@);
    assert(eval_v(lit_str(Seq::empty()), 0, d, s3, ans) == (Ok::<ValV, ErrV>(ValV::Str(Seq::empty())), s3));
    assert(eval_v(ExprV::Not(Box::new(lit_str(Seq::empty()))), 0, d, s3, ans) == (Ok::<ValV, ErrV>(ValV::Boolean(false)), s3));
    assert(exec_v(p4, 0, d, s3, ans) == (Ok::<ValV, ErrV>(ValV::NoVal), print_st(s3, "false"@)));
    let s4 = print_st(s3, "false"@);
    assert(run_v(seq![p4], d, s3, ans) == (Ok::<(), ErrV>(()), s4)) by {
        assert(seq![p4].drop_first() =~= Seq::<StmtV>::empty());
        assert(seq![p4][0] == p4);
        assert(run_v(Seq::empty(), d, s4, ans) == (Ok::<(), ErrV>(()), s4));
    }
    assert(run_v(seq![p3, p4], d, s2, ans) == (Ok::<(), ErrV>(()), s4)) by {
        assert(seq![p3, p4].drop_first() =~= seq![p4]);
    }
    assert(run_v(seq![p2, p3, p4], d, s1, ans) == (Ok::<(), ErrV>(()), s4)) by {
        assert(seq![p2, p3, p4].drop_first() =~= seq![p3, p4]);
    }
    assert(prog.drop_first() =~= seq![p2, p3, p4]);
    assert(s4.out =~= st.out + seq!["true"@, "true"@, "false"@, "false"@]);
}

/// `print "hi, " + "world";` prints `hi, world`.
pub proof fn lemma_concat_output(d: nat, st: StateV, ans: Seq<Answer>)
    ensures
        ({
            let prog = seq![
                print_stmt(ExprV::Bin(BinOp::Add, Box::new(lit_str("hi, "@)), Box::new(lit_str("world"@)))),
            ];
            let (r, end) = run_v(prog, d, st, ans);
            r is Ok && end.out == st.out.push("hi, world"@)
        }),
{
    reveal_strlit("hi, ");
    reveal_strlit("world");
    reveal_strlit("hi, world");
    let e1 = ExprV::Bin(BinOp::Add, Box::new(lit_str("hi, "@)), Box::new(lit_str("world"@)));
    let p1 = print_stmt(e1);
    let prog = seq![p1];
    assert(eval_v(lit_str("hi, "@), 0, d, st, ans) == (Ok::<ValV, ErrV>(ValV::Str("hi, "@)), st));
    assert(eval_v(lit_str("world"@), 0, d, st, ans) == (Ok::<ValV, ErrV>(ValV::Str("world"@)), st));
    assert(eval_v(e1, 0, d, st, ans) == (Ok::<ValV, ErrV>(ValV::Str("hi, "@ + "world"@)), st));
    assert(exec_v(p1, 0, d, st, ans) == (Ok::<ValV, ErrV>(ValV::NoVal), print_st(st, "hi, "@ + "world"@)));
    assert(prog.drop_first() =~= Seq::<StmtV>::empty());
    assert(prog[0] == p1);
    let s1 = print_st(st, "hi, "@ + "world"@);
    assert(run_v(Seq::empty(), d, s1, ans) == (Ok::<(), ErrV>(()), s1));
    assert("hi, "@ + "world"@ =~= "hi, world"@);
}

} // verus!

verus! {

/// `let x = 1; { let x = 2; print x; } print x;` shows the number of `2`
/// first and the number of `1` second: the inner `x` shadows the outer one
/// inside the block only.
pub proof fn lemma_shadowing_output(d: nat, st: StateV, ans: Seq<Answer>)
    requires
        st.frames.len() >= 1,
    ensures
        ({
            let x = "x"@;
            let prog = seq![
                StmtV::Decl(x, Some(ExprV::Lit(LitV::Number("1"@)))),
                StmtV::Block(seq![
                    StmtV::Decl(x, Some(ExprV::Lit(LitV::Number("2"@)))),
                    print_stmt(ExprV::Var(VarV { name: x, depth: 0 })),
                ]),
                print_stmt(ExprV::Var(VarV { name: x, depth: -1 })),
            ];
            let (r, end) = run_v(prog, d, st, ans);
            &&& r is Ok
            &&& end.reqs == st.reqs + seq![
                Request::Number("1"@),
                Request::Number("2"@),
                Request::Show(num_at(ans, st.k + 1)),
                Request::Print(text_at(ans, st.k + 2)),
                Request::Show(num_at(ans, st.k)),
                Request::Print(text_at(ans, st.k + 3)),
            ]
            &&& end.out == st.out + seq![text_at(ans, st.k + 2), text_at(ans, st.k + 3)]
        }),
{
    let x = "x"@;
    let n1 = num_at(ans, st.k);
    let n2 = num_at(ans, st.k + 1);
    let p1 = StmtV::Decl(x, Some(ExprV::Lit(LitV::Number("1"@))));
    let q1 = StmtV::Decl(x, Some(ExprV::Lit(LitV::Number("2"@))));
    let q2 = print_stmt(ExprV::Var(VarV { name: x, depth: 0 }));
    let p2 = StmtV::Block(seq![q1, q2]);
    let p3 = print_stmt(ExprV::Var(VarV { name: x, depth: -1 }));
    let prog = seq![p1, p2, p3];
    // let x = 1;
    let a1 = ask(st, Request::Number("1"@));
    assert(eval_v(ExprV::Lit(LitV::Number("1"@)), 0, d, st, ans) == (Ok::<ValV, ErrV>(ValV::Number(n1)), a1));
    let s1 = with_frames(a1, def_v(a1.frames, 0, x, ValV::Number(n1)));
    assert(exec_v(p1, 0, d, st, ans) == (Ok::<ValV, ErrV>(ValV::NoVal), s1));
    // { let x = 2; print x; }
    let inner = s1.frames.len() as int;
    let b0 = with_frames(s1, new_local_v(s1.frames, 0));
    let a2 = ask(b0, Request::Number("2"@));
    assert(eval_v(ExprV::Lit(LitV::Number("2"@)), inner, d, b0, ans) == (Ok::<ValV, ErrV>(ValV::Number(n2)), a2));
    let b1 = with_frames(a2, def_v(a2.frames, inner, x, ValV::Number(n2)));
    assert(exec_v(q1, inner, d, b0, ans) == (Ok::<ValV, ErrV>(ValV::NoVal), b1));
    assert(b1.frames[inner].values == seq![(x, ValV::Number(n2))]);
    assert(find_val(b1.frames[inner].values, x) == Some(0int));
    assert(target(b1.frames, inner, 0) == Some(inner));
    assert(value_of_v(b1.frames, inner, VarV { name: x, depth: 0 }) == Some(ValV::Number(n2)));
    let b2 = ask(b1, Request::Show(n2));
    let line2 = text_at(ans, b1.k);
    assert(eval_v(ExprV::Var(VarV { name: x, depth: 0 }), inner, d, b1, ans) == (Ok::<ValV, ErrV>(ValV::Number(n2)), b1));
    let b3 = print_st(b2, line2);
    assert(exec_v(q2, inner, d, b1, ans) == (Ok::<ValV, ErrV>(ValV::NoVal), b3));
    assert(seq![q1, q2].drop_first() =~= seq![q2]);
    assert(seq![q2].drop_first() =~= Seq::<StmtV>::empty());
    assert(exec_block_v(Seq::empty(), inner, d, b3, ans) == (Ok::<ValV, ErrV>(ValV::NoVal), b3));
    assert(exec_block_v(seq![q2], inner, d, b1, ans) == (Ok::<ValV, ErrV>(ValV::NoVal), b3));
    assert(exec_block_v(seq![q1, q2], inner, d, b0, ans) == (Ok::<ValV, ErrV>(ValV::NoVal), b3));
    let s2 = with_frames(b3, release_v(b3.frames, inner));
    assert(exec_v(p2, 0, d, s1, ans) == (Ok::<ValV, ErrV>(ValV::NoVal), s2));
    assert(s2.frames =~= s1.frames);
    // print x;
    let g = s2.frames[0].values;
    assert(g == st.frames[0].values.push((x, ValV::Number(n1))));
    assert(find_val(g, x) == Some(g.len() - 1));
    assert(value_of_v(s2.frames, 0, VarV { name: x, depth: -1 }) == Some(ValV::Number(n1)));
    assert(eval_v(ExprV::Var(VarV { name: x, depth: -1 }), 0, d, s2, ans) == (Ok::<ValV, ErrV>(ValV::Number(n1)), s2));
    let s3 = print_st(ask(s2, Request::Show(n1)), text_at(ans, s2.k));
    assert(exec_v(p3, 0, d, s2, ans) == (Ok::<ValV, ErrV>(ValV::NoVal), s3));
    assert(run_v(Seq::empty(), d, s3, ans) == (Ok::<(), ErrV>(()), s3));
    assert(seq![p3].drop_first() =~= Seq::<StmtV>::empty());
    assert(seq![p3][0] == p3);
    assert(run_v(seq![p3], d, s2, ans) == (Ok::<(), ErrV>(()), s3));
    assert(seq![p2, p3].drop_first() =~= seq![p3]);
    assert(run_v(seq![p2, p3], d, s1, ans) == (Ok::<(), ErrV>(()), s3));
    assert(prog.drop_first() =~= seq![p2, p3]);
    assert(s3.reqs =~= st.reqs + seq![
        Request::Number("1"@),
        Request::Number("2"@),
        Request::Show(n2),
        Request::Print(text_at(ans, st.k + 2)),
        Request::Show(n1),
        Request::Print(text_at(ans, st.k + 3)),
    ]);
    assert(s3.out =~= st.out + seq![text_at(ans, st.k + 2), text_at(ans, st.k + 3)]);
}

} // verus!
