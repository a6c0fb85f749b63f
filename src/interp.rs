use vstd::prelude::*;

use std::rc::Rc;

use crate::ast::{exprs_view, names_view, stmts_view, BinOp, Expr, ExprV, LitV, Literal, Prog, Stmt, StmtV, Variable};
use crate::semantics::{
    ask, bind_all, binary_v, call_v, eval_args_v, eval_v, exec_block_v, exec_v, extends,
    negate_v, new_local_v, print_st, run_v, show_val, with_frames, Answer, DeclV, Request, StateV,
};

verus! {

/// A function value. A native one has an arity and a number by which the
/// host knows it; a user-defined one names its declaration, in the
/// interpreter's table of declarations, and the scope it closes over.
#[derive(Clone, Copy, PartialEq, Eq, Debug, Structural)]
pub enum Function {
    Native(u8, u32),
    UserDef(usize, usize),
}

/// A value. A number is held as the bit pattern of a 64-bit IEEE-754 double,
/// which only the host reads. `NoVal` marks "no value returned" and is never
/// seen by the program.
#[derive(PartialEq, Debug)]
pub enum Val {
    NoVal,
    Number(u64),
    Boolean(bool),
    String(String),
    Nil,
    Func(Function),
}

#[derive(PartialEq, Debug)]
pub enum RuntimeError {
    UndefinedVariable(String),
    TypeError,
    NotCallable,
    ArityMismatch(usize, usize),
    /// Calls nested deeper than the interpreter allows.
    CallDepth,
    /// The loop budget given to the interpreter is spent.
    OutOfSteps,
}

/// The arithmetic operators on numbers.
#[derive(Clone, Copy, PartialEq, Eq, Debug, Structural)]
pub enum ArithOp {
    Add,
    Sub,
    Mul,
    Div,
}

/// The comparisons of numbers.
#[derive(Clone, Copy, PartialEq, Eq, Debug, Structural)]
pub enum CmpOp {
    Eq,
    Lt,
    Le,
    Gt,
    Ge,
}

/// What the interpreter leaves to the program that runs it: reading and
/// computing with numbers, native functions, and the output of `print`.
pub trait Host {
    /// The number that a numeric literal's lexeme denotes.
    fn number(&mut self, lexeme: &String) -> u64;

    fn arith(&mut self, op: ArithOp, a: u64, b: u64) -> u64;

    fn negate(&mut self, a: u64) -> u64;

    fn compare(&mut self, op: CmpOp, a: u64, b: u64) -> bool;

    /// The display form of a number.
    fn show_number(&mut self, a: u64) -> String;

    /// Calls a native function with arguments of the right number.
    fn call_native(&mut self, id: u32, args: Vec<Val>) -> Val;

    /// Writes one line of output.
    fn print(&mut self, line: String);
}

/// The mathematical form of a value: a string as its characters.
pub ghost enum ValV {
    NoVal,
    Number(u64),
    Boolean(bool),
    Str(Seq<char>),
    Nil,
    Func(Function),
}

impl View for Val {
    type V = ValV;

    open spec fn view(&self) -> ValV {
        match self {
            Val::NoVal => ValV::NoVal,
            Val::Number(n) => ValV::Number(*n),
            Val::Boolean(b) => ValV::Boolean(*b),
            Val::String(s) => ValV::Str(s@),
            Val::Nil => ValV::Nil,
            Val::Func(f) => ValV::Func(*f),
        }
    }
}

/// The mathematical form of a runtime error.
pub ghost enum ErrV {
    UndefinedVariable(Seq<char>),
    TypeError,
    NotCallable,
    ArityMismatch(int, int),
    CallDepth,
    OutOfSteps,
}

impl View for RuntimeError {
    type V = ErrV;

    open spec fn view(&self) -> ErrV {
        match self {
            RuntimeError::UndefinedVariable(n) => ErrV::UndefinedVariable(n@),
            RuntimeError::TypeError => ErrV::TypeError,
            RuntimeError::NotCallable => ErrV::NotCallable,
            RuntimeError::ArityMismatch(a, b) => ErrV::ArityMismatch(*a as int, *b as int),
            RuntimeError::CallDepth => ErrV::CallDepth,
            RuntimeError::OutOfSteps => ErrV::OutOfSteps,
        }
    }
}

pub open spec fn res_v(r: Result<Val, RuntimeError>) -> Result<ValV, ErrV> {
    match r {
        Ok(v) => Ok(v@),
        Err(e) => Err(e@),
    }
}

/// Every value is truthy but `nil` and `false`.
pub fn truthy(v: &Val) -> (r: bool)
    ensures
        r == crate::semantics::truthy_v(v@),
{
    match v {
        Val::Nil => false,
        Val::Boolean(b) => *b,
        _ => true,
    }
}

impl Val {
    pub fn copy(&self) -> (r: Val)
        ensures
            r == *self,
    {
        match self {
            Val::NoVal => Val::NoVal,
            Val::Number(n) => Val::Number(*n),
            Val::Boolean(b) => Val::Boolean(*b),
            Val::String(s) => Val::String(s.clone()),
            Val::Nil => Val::Nil,
            Val::Func(f) => Val::Func(*f),
        }
    }
}

/// The value `!v`.
pub fn not(v: &Val) -> (r: Val)
    ensures
        r@ == ValV::Boolean(!crate::semantics::truthy_v(v@)),
{
    Val::Boolean(!truthy(v))
}

} // verus!

verus! {

/// One scope: its bindings, later ones overriding earlier ones of the same
/// name, the scope around it (none for the global scope), and whether a
/// function value closes over it.
pub struct Frame {
    values: Vec<(String, Val)>,
    outer: Option<usize>,
    captured: bool,
}

pub ghost struct FrameV {
    pub values: Seq<(Seq<char>, ValV)>,
    pub outer: Option<usize>,
    pub captured: bool,
}

pub open spec fn bindings_view(v: Seq<(String, Val)>) -> Seq<(Seq<char>, ValV)> {
    Seq::new(v.len(), |i: int| (v[i].0@, v[i].1@))
}

impl View for Frame {
    type V = FrameV;

    closed spec fn view(&self) -> FrameV {
        FrameV { values: bindings_view(self.values@), outer: self.outer, captured: self.captured }
    }
}

/// Index of the last binding of `n` in `vals`.
pub open spec fn find_val(vals: Seq<(Seq<char>, ValV)>, n: Seq<char>) -> Option<int>
    decreases vals.len(),
{
    if vals.len() == 0 {
        None
    } else if vals.last().0 == n {
        Some(vals.len() - 1)
    } else {
        find_val(vals.drop_last(), n)
    }
}

pub proof fn lemma_find_val_bounds(vals: Seq<(Seq<char>, ValV)>, n: Seq<char>)
    ensures
        find_val(vals, n) matches Some(i) ==> 0 <= i < vals.len() && vals[i].0 == n,
    decreases vals.len(),
{
    if vals.len() > 0 && vals.last().0 != n {
        lemma_find_val_bounds(vals.drop_last(), n);
    }
}

/// The scope `d` steps out from scope `s`.
pub open spec fn ancestor(fr: Seq<FrameV>, s: int, d: int) -> Option<int>
    decreases d,
{
    if !(0 <= s < fr.len()) {
        None
    } else if d <= 0 {
        Some(s)
    } else {
        match fr[s].outer {
            None => None,
            Some(o) => ancestor(fr, o as int, d - 1),
        }
    }
}

/// The scope where a variable of depth `depth`, used in scope `s`, lives:
/// the global scope for a negative depth.
pub open spec fn target(fr: Seq<FrameV>, s: int, depth: int) -> Option<int> {
    if depth < 0 {
        if fr.len() > 0 {
            Some(0)
        } else {
            None
        }
    } else {
        ancestor(fr, s, depth)
    }
}

/// All scopes of a run, the global one first. A scope is named by its index.
pub struct Scope {
    frames: Vec<Frame>,
}

impl Scope {
    pub closed spec fn frames(&self) -> Seq<FrameV> {
        Seq::new(self.frames.len() as nat, |i: int| self.frames[i]@)
    }

    pub open spec fn len(&self) -> nat {
        self.frames().len()
    }

    /// No binding holds `NoVal`.
    pub open spec fn wf(&self) -> bool {
        &&& self.len() > 0
        &&& forall|f: int, i: int|
            0 <= f < self.len() && 0 <= i < self.frames()[f].values.len() ==> !((
            #[trigger] self.frames()[f].values[i]).1 is NoVal)
    }

    /// The global scope, holding `globals`.
    pub fn new_global(globals: Vec<(String, Val)>) -> (r: Scope)
        requires
            forall|i: int| 0 <= i < globals.len() ==> !((#[trigger] globals[i]).1 is NoVal),
        ensures
            r.wf(),
            r.len() == 1,
            r.frames()[0].values == bindings_view(globals@),
            r.frames()[0].outer is None,
    {
        let mut frames: Vec<Frame> = Vec::new();
        frames.push(Frame { values: globals, outer: None, captured: true });
        Scope { frames }
    }

    /// A fresh scope inside scope `outer`; returns its index.
    pub fn new_local(&mut self, outer: usize) -> (r: usize)
        requires
            old(self).wf(),
        ensures
            final(self).wf(),
            r == old(self).len(),
            final(self).frames() == old(self).frames().push(
                FrameV { values: Seq::empty(), outer: Some(outer), captured: false },
            ),
    {
        let r = self.frames.len();
        self.frames.push(Frame { values: Vec::new(), outer: Some(outer), captured: false });
        assert(bindings_view(Seq::<(String, Val)>::empty()) =~= Seq::<(Seq<char>, ValV)>::empty());
        assert(self.frames() =~= old(self).frames().push(
            FrameV { values: Seq::empty(), outer: Some(outer), captured: false },
        ));
        r
    }

    /// Drops scope `s` if it is the last one and no function closes over it.
    fn release(&mut self, s: usize)
        requires
            old(self).wf(),
            s < old(self).len(),
        ensures
            final(self).wf(),
            final(self).frames() == crate::semantics::release_v(old(self).frames(), s as int),
    {
        let n = self.frames.len();
        if n > 1 && s == n - 1 && !self.frames[s].captured {
            self.frames.pop();
            assert(self.frames() =~= old(self).frames().drop_last());
        }
    }

    /// Marks scope `s` as closed over by a function value.
    fn capture(&mut self, s: usize)
        requires
            old(self).wf(),
            s < old(self).len(),
        ensures
            final(self).wf(),
            final(self).len() == old(self).len(),
            forall|f: int|
                0 <= f < final(self).len() ==> (#[trigger] final(self).frames()[f]).values == old(
                    self,
                ).frames()[f].values && final(self).frames()[f].outer == old(self).frames()[f].outer,
            final(self).frames()[s as int].captured,
            final(self).frames() == crate::semantics::capture_v(old(self).frames(), s as int),
    {
        let mut fr = self.frames.remove(s);
        fr.captured = true;
        self.frames.insert(s, fr);
        assert(self.frames() =~= crate::semantics::capture_v(old(self).frames(), s as int));
        assert forall|f: int|
            0 <= f < self.len() implies (#[trigger] self.frames()[f]).values == old(
                self,
            ).frames()[f].values && self.frames()[f].outer == old(self).frames()[f].outer by {
            if f != s {
                assert(self.frames[f] == old(self).frames[f]);
            }
        }
    }

    /// Binds `name` to `val` in scope `s`, over any earlier binding there.
    pub fn def(&mut self, s: usize, name: &String, val: Val)
        requires
            old(self).wf(),
            s < old(self).len(),
            !(val is NoVal),
        ensures
            final(self).wf(),
            final(self).frames() == old(self).frames().update(
                s as int,
                FrameV {
                    values: old(self).frames()[s as int].values.push((name@, val@)),
                    ..old(self).frames()[s as int]
                },
            ),
    {
        let mut fr = self.frames.remove(s);
        let ghost before = bindings_view(fr.values@);
        fr.values.push((name.clone(), val));
        assert(bindings_view(fr.values@) =~= before.push((name@, val@)));
        self.frames.insert(s, fr);
        assert(self.frames() =~= old(self).frames().update(
            s as int,
            FrameV {
                values: old(self).frames()[s as int].values.push((name@, val@)),
                ..old(self).frames()[s as int]
            },
        ));
    }

    fn locate(&self, s: usize, depth: isize) -> (r: Option<usize>)
        requires
            self.wf(),
        ensures
            match r {
                Some(x) => target(self.frames(), s as int, depth as int) == Some(x as int) && x
                    < self.len(),
                None => target(self.frames(), s as int, depth as int) is None,
            },
    {
        if depth < 0 {
            return Some(0);
        }
        let mut cur = s;
        let mut d = depth;
        while d > 0
            invariant
                self.wf(),
                0 <= d <= depth,
                ancestor(self.frames(), s as int, depth as int) == ancestor(
                    self.frames(),
                    cur as int,
                    d as int,
                ),
            decreases d,
        {
            if cur >= self.frames.len() {
                return None;
            }
            match self.frames[cur].outer {
                None => {
                    return None;
                },
                Some(o) => {
                    cur = o;
                    d = d - 1;
                },
            }
        }
        if cur < self.frames.len() {
            Some(cur)
        } else {
            None
        }
    }

    fn find_in(vals: &Vec<(String, Val)>, n: &String) -> (r: Option<usize>)
        ensures
            match r {
                Some(i) => find_val(bindings_view(vals@), n@) == Some(i as int) && i < vals.len(),
                None => find_val(bindings_view(vals@), n@) is None,
            },
    {
        let mut i = vals.len();
        assert(bindings_view(vals@).take(i as int) =~= bindings_view(vals@));
        while i > 0
            invariant
                i <= vals.len(),
                find_val(bindings_view(vals@), n@) == find_val(
                    bindings_view(vals@).take(i as int),
                    n@,
                ),
            decreases i,
        {
            assert(bindings_view(vals@).take(i as int).drop_last() =~= bindings_view(vals@).take(
                i - 1,
            ));
            if vals[i - 1].0 == *n {
                return Some(i - 1);
            }
            i = i - 1;
        }
        assert(bindings_view(vals@).take(0) =~= Seq::<(Seq<char>, ValV)>::empty());
        None
    }

    /// The value of `var`, used in scope `s`.
    pub fn get(&self, s: usize, var: &Variable) -> (r: Result<Val, RuntimeError>)
        requires
            self.wf(),
        ensures
            match target(self.frames(), s as int, var.depth as int) {
                Some(f) => match find_val(self.frames()[f].values, var.name@) {
                    Some(i) => r matches Ok(v) && v@ == self.frames()[f].values[i].1,
                    None => r matches Err(RuntimeError::UndefinedVariable(n)) && n@ == var.name@,
                },
                None => r matches Err(RuntimeError::UndefinedVariable(n)) && n@ == var.name@,
            },
            r matches Ok(v) ==> !(v is NoVal),
            match crate::semantics::value_of_v(self.frames(), s as int, var@) {
                Some(x) => r matches Ok(v) && v@ == x,
                None => r matches Err(e) && e@ == ErrV::UndefinedVariable(var.name@),
            },
    {
        match self.locate(s, var.depth) {
            None => Err(RuntimeError::UndefinedVariable(var.name.clone())),
            Some(f) => match Self::find_in(&self.frames[f].values, &var.name) {
                None => Err(RuntimeError::UndefinedVariable(var.name.clone())),
                Some(i) => {
                    proof {
                        lemma_find_val_bounds(self.frames()[f as int].values, var.name@);
                    }
                    Ok(self.frames[f].values[i].1.copy())
                },
            },
        }
    }

    /// Overwrites the binding of `var`, used in scope `s`, with `val`.
    pub fn asgn(&mut self, s: usize, var: &Variable, val: Val) -> (r: Result<(), RuntimeError>)
        requires
            old(self).wf(),
            !(val is NoVal),
        ensures
            final(self).wf(),
            match crate::semantics::asgn_v(old(self).frames(), s as int, var@, val@) {
                Some(fr) => r is Ok && final(self).frames() == fr,
                None => r matches Err(e) && e@ == ErrV::UndefinedVariable(var.name@)
                    && final(self).frames() == old(self).frames(),
            },
            final(self).len() == old(self).len(),
            match target(old(self).frames(), s as int, var.depth as int) {
                Some(f) => match find_val(old(self).frames()[f].values, var.name@) {
                    Some(i) => r is Ok && final(self).frames() == old(self).frames().update(
                        f,
                        FrameV {
                            values: old(self).frames()[f].values.update(i, (var.name@, val@)),
                            ..old(self).frames()[f]
                        },
                    ),
                    None => r matches Err(RuntimeError::UndefinedVariable(n)) && n@ == var.name@
                        && final(self).frames() == old(self).frames(),
                },
                None => r matches Err(RuntimeError::UndefinedVariable(n)) && n@ == var.name@
                    && final(self).frames() == old(self).frames(),
            },
    {
        let f = match self.locate(s, var.depth) {
            None => {
                return Err(RuntimeError::UndefinedVariable(var.name.clone()));
            },
            Some(f) => f,
        };
        let i = match Self::find_in(&self.frames[f].values, &var.name) {
            None => {
                return Err(RuntimeError::UndefinedVariable(var.name.clone()));
            },
            Some(i) => i,
        };
        proof {
            lemma_find_val_bounds(self.frames()[f as int].values, var.name@);
        }
        let mut fr = self.frames.remove(f);
        let ghost before = bindings_view(fr.values@);
        let (name, _) = fr.values.remove(i);
        let ghost nv = name@;
        fr.values.insert(i, (name, val));
        assert(bindings_view(fr.values@) =~= before.update(i as int, (nv, val@)));
        self.frames.insert(f, fr);
        assert(self.frames() =~= old(self).frames().update(
            f as int,
            FrameV {
                values: old(self).frames()[f as int].values.update(i as int, (var.name@, val@)),
                ..old(self).frames()[f as int]
            },
        ));
        Ok(())
    }
}

} // verus!

verus! {

pub fn copy_expr(e: &Expr) -> (r: Expr)
    ensures
        r@ == e@,
    decreases e,
{
    match e {
        Expr::Asgn(v, x) => {
            let v2 = Variable { name: v.name.clone(), depth: v.depth };
            Expr::Asgn(v2, Box::new(copy_expr(x)))
        },
        Expr::Call(c, args) => {
            let c2 = copy_expr(c);
            let mut out: Vec<Expr> = Vec::new();
            let mut i: usize = 0;
            while i < args.len()
                invariant
                    i <= args.len(),
                    out.len() == i,
                    forall|j: int| 0 <= j < i ==> (#[trigger] out[j])@ == args[j]@,
                    forall|j: int| 0 <= j < args.len() ==> decreases_to!(e => #[trigger] args@[j]),
                decreases args.len() - i,
            {
                out.push(copy_expr(&args[i]));
                i = i + 1;
            }
            proof {
                crate::ast::lemma_call_view(c2, out);
                crate::ast::lemma_call_view(**c, *args);
                assert(crate::ast::exprs_view(out@) =~= crate::ast::exprs_view(args@));
            }
            Expr::Call(Box::new(c2), out)
        },
        Expr::And(a, b) => Expr::And(Box::new(copy_expr(a)), Box::new(copy_expr(b))),
        Expr::Or(a, b) => Expr::Or(Box::new(copy_expr(a)), Box::new(copy_expr(b))),
        Expr::Eq(a, b) => Expr::Eq(Box::new(copy_expr(a)), Box::new(copy_expr(b))),
        Expr::Ne(a, b) => Expr::Ne(Box::new(copy_expr(a)), Box::new(copy_expr(b))),
        Expr::Gt(a, b) => Expr::Gt(Box::new(copy_expr(a)), Box::new(copy_expr(b))),
        Expr::Ge(a, b) => Expr::Ge(Box::new(copy_expr(a)), Box::new(copy_expr(b))),
        Expr::Lt(a, b) => Expr::Lt(Box::new(copy_expr(a)), Box::new(copy_expr(b))),
        Expr::Le(a, b) => Expr::Le(Box::new(copy_expr(a)), Box::new(copy_expr(b))),
        Expr::Add(a, b) => Expr::Add(Box::new(copy_expr(a)), Box::new(copy_expr(b))),
        Expr::Sub(a, b) => Expr::Sub(Box::new(copy_expr(a)), Box::new(copy_expr(b))),
        Expr::Mul(a, b) => Expr::Mul(Box::new(copy_expr(a)), Box::new(copy_expr(b))),
        Expr::Div(a, b) => Expr::Div(Box::new(copy_expr(a)), Box::new(copy_expr(b))),
        Expr::Not(x) => Expr::Not(Box::new(copy_expr(x))),
        Expr::Opp(x) => Expr::Opp(Box::new(copy_expr(x))),
        Expr::Lit(l) => {
            let l2 = match l {
                Literal::Number(n) => Literal::Number(n.clone()),
                Literal::Boolean(b) => Literal::Boolean(*b),
                Literal::String(s) => Literal::String(s.clone()),
                Literal::Nil => Literal::Nil,
            };
            Expr::Lit(l2)
        },
        Expr::Var(v) => {
            Expr::Var(Variable { name: v.name.clone(), depth: v.depth })
        },
    }
}

fn copy_oexpr(e: &Option<Expr>) -> (r: Option<Expr>)
    ensures
        crate::parser::oexpr_view(r) == crate::parser::oexpr_view(*e),
{
    match e {
        None => None,
        Some(x) => Some(copy_expr(x)),
    }
}

pub fn copy_names(v: &Vec<String>) -> (r: Vec<String>)
    ensures
        crate::ast::names_view(r@) == crate::ast::names_view(v@),
{
    let mut out: Vec<String> = Vec::new();
    let mut i: usize = 0;
    while i < v.len()
        invariant
            i <= v.len(),
            out.len() == i,
            forall|j: int| 0 <= j < i ==> (#[trigger] out[j])@ == v[j]@,
        decreases v.len() - i,
    {
        out.push(v[i].clone());
        i = i + 1;
    }
    assert(crate::ast::names_view(out@) =~= crate::ast::names_view(v@));
    out
}

pub fn copy_stmt(st: &Stmt) -> (r: Stmt)
    ensures
        r@ == st@,
    decreases st,
{
    match st {
        Stmt::Block(b) => {
            let mut out: Vec<Stmt> = Vec::new();
            let mut i: usize = 0;
            while i < b.len()
                invariant
                    i <= b.len(),
                    out.len() == i,
                    forall|j: int| 0 <= j < i ==> (#[trigger] out[j])@ == b[j]@,
                    forall|j: int| 0 <= j < b.len() ==> decreases_to!(st => #[trigger] b@[j]),
                decreases b.len() - i,
            {
                out.push(copy_stmt(&b[i]));
                i = i + 1;
            }
            proof {
                crate::ast::lemma_block_view(out);
                crate::ast::lemma_block_view(*b);
                assert(crate::ast::stmts_view(out@) =~= crate::ast::stmts_view(b@));
            }
            Stmt::Block(out)
        },
        Stmt::Expr(e) => Stmt::Expr(copy_expr(e)),
        Stmt::Print(e) => Stmt::Print(copy_expr(e)),
        Stmt::Decl(n, init) => Stmt::Decl(n.clone(), copy_oexpr(init)),
        Stmt::If(c, t, e) => Stmt::If(
            copy_expr(c),
            Box::new(copy_stmt(t)),
            match e {
                None => None,
                Some(x) => Some(Box::new(copy_stmt(x))),
            },
        ),
        Stmt::While(c, b) => Stmt::While(copy_expr(c), Box::new(copy_stmt(b))),
        Stmt::Func(n, ps, b) => Stmt::Func(n.clone(), copy_names(ps), Box::new(copy_stmt(b))),
        Stmt::Return(e) => Stmt::Return(copy_oexpr(e)),
    }
}

} // verus!

verus! {

/// A function declaration as the interpreter keeps it: parameters and body.
pub struct FunDecl {
    pub params: Vec<String>,
    pub body: Stmt,
}

/// The native function `clock`.
pub const CLOCK: u32 = 0;

/// The global bindings that every program starts with: `clock`, a native
/// function of no arguments.
pub fn globals() -> (r: Vec<(String, Val)>)
    ensures
        r.len() == 1,
        r[0].0@ == "clock"@,
        r[0].1 == Val::Func(Function::Native(0, CLOCK)),
{
    let mut g: Vec<(String, Val)> = Vec::new();
    g.push((String::from_str("clock"), Val::Func(Function::Native(0, CLOCK))));
    g
}

pub open spec fn decls_view(v: Seq<Rc<FunDecl>>) -> Seq<DeclV> {
    Seq::new(v.len(), |i: int| DeclV { params: names_view(v[i].params@), body: v[i].body@ })
}

pub open spec fn vals_view(v: Seq<Val>) -> Seq<ValV> {
    Seq::new(v.len(), |i: int| v[i]@)
}

/// Runs programs: holds the scopes, the declarations of the functions made
/// so far, what is left of the loop budget, and, as ghost state, the lines
/// printed, the requests made of the host and the host's answers.
pub struct Interp {
    scopes: Scope,
    decls: Vec<Rc<FunDecl>>,
    steps: u64,
    max_depth: u32,
    out: Ghost<Seq<Seq<char>>>,
    reqs: Ghost<Seq<Request>>,
    log: Ghost<Seq<Answer>>,
}

impl Interp {
    pub open spec fn wf(&self) -> bool {
        self.scopes().wf()
    }

    pub closed spec fn scopes(&self) -> Scope {
        self.scopes
    }

    pub closed spec fn steps(&self) -> u64 {
        self.steps
    }

    /// How deeply calls may nest.
    pub closed spec fn max_depth(&self) -> u32 {
        self.max_depth
    }

    /// The host's answers so far, in order.
    pub closed spec fn log(&self) -> Seq<Answer> {
        self.log@
    }

    /// The state of the run, as the semantics sees it.
    pub closed spec fn state(&self) -> StateV {
        StateV {
            frames: self.scopes.frames(),
            decls: decls_view(self.decls@),
            steps: self.steps as nat,
            out: self.out@,
            reqs: self.reqs@,
            k: self.log@.len(),
        }
    }

    /// An interpreter whose global scope holds `globals()`, which may run
    /// `steps` loop iterations in all and nest calls `max_depth` deep.
    pub fn new(steps: u64, max_depth: u32) -> (r: Interp)
        ensures
            r.wf(),
            r.max_depth() == max_depth,
            r.scopes().len() == 1,
            r.log() == Seq::<Answer>::empty(),
            r.state().steps == steps,
            r.state().decls == Seq::<DeclV>::empty(),
            r.state().out == Seq::<Seq<char>>::empty(),
            r.state().reqs == Seq::<Request>::empty(),
            r.state().frames.len() == 1,
    {
        let g = globals();
        let r = Interp {
            scopes: Scope::new_global(g),
            decls: Vec::new(),
            steps,
            max_depth,
            out: Ghost(Seq::empty()),
            reqs: Ghost(Seq::empty()),
            log: Ghost(Seq::empty()),
        };
        assert(decls_view(r.decls@) =~= Seq::<DeclV>::empty());
        r
    }

    fn h_number<H: Host>(&mut self, host: &mut H, lexeme: &String) -> (r: u64)
        requires
            old(self).wf(),
        ensures
            final(self).wf(),
            final(self).scopes() == old(self).scopes(),
            final(self).max_depth() == old(self).max_depth(),
            final(self).steps() == old(self).steps(),
            final(self).log() == old(self).log().push(Answer::Num(r)),
            final(self).state() == ask(old(self).state(), Request::Number(lexeme@)),
    {
        let r = host.number(lexeme);
        self.reqs = Ghost(self.reqs@.push(Request::Number(lexeme@)));
        self.log = Ghost(self.log@.push(Answer::Num(r)));
        r
    }

    fn h_arith<H: Host>(&mut self, host: &mut H, op: ArithOp, a: u64, b: u64) -> (r: u64)
        requires
            old(self).wf(),
        ensures
            final(self).wf(),
            final(self).scopes() == old(self).scopes(),
            final(self).max_depth() == old(self).max_depth(),
            final(self).steps() == old(self).steps(),
            final(self).log() == old(self).log().push(Answer::Num(r)),
            final(self).state() == ask(old(self).state(), Request::Arith(op, a, b)),
    {
        let r = host.arith(op, a, b);
        self.reqs = Ghost(self.reqs@.push(Request::Arith(op, a, b)));
        self.log = Ghost(self.log@.push(Answer::Num(r)));
        r
    }

    fn h_negate<H: Host>(&mut self, host: &mut H, a: u64) -> (r: u64)
        requires
            old(self).wf(),
        ensures
            final(self).wf(),
            final(self).scopes() == old(self).scopes(),
            final(self).max_depth() == old(self).max_depth(),
            final(self).steps() == old(self).steps(),
            final(self).log() == old(self).log().push(Answer::Num(r)),
            final(self).state() == ask(old(self).state(), Request::Negate(a)),
    {
        let r = host.negate(a);
        self.reqs = Ghost(self.reqs@.push(Request::Negate(a)));
        self.log = Ghost(self.log@.push(Answer::Num(r)));
        r
    }

    fn h_compare<H: Host>(&mut self, host: &mut H, op: CmpOp, a: u64, b: u64) -> (r: bool)
        requires
            old(self).wf(),
        ensures
            final(self).wf(),
            final(self).scopes() == old(self).scopes(),
            final(self).max_depth() == old(self).max_depth(),
            final(self).steps() == old(self).steps(),
            final(self).log() == old(self).log().push(Answer::Bool(r)),
            final(self).state() == ask(old(self).state(), Request::Compare(op, a, b)),
    {
        let r = host.compare(op, a, b);
        self.reqs = Ghost(self.reqs@.push(Request::Compare(op, a, b)));
        self.log = Ghost(self.log@.push(Answer::Bool(r)));
        r
    }

    fn h_show<H: Host>(&mut self, host: &mut H, a: u64) -> (r: String)
        requires
            old(self).wf(),
        ensures
            final(self).wf(),
            final(self).scopes() == old(self).scopes(),
            final(self).max_depth() == old(self).max_depth(),
            final(self).steps() == old(self).steps(),
            final(self).log() == old(self).log().push(Answer::Text(r@)),
            final(self).state() == ask(old(self).state(), Request::Show(a)),
    {
        let r = host.show_number(a);
        self.reqs = Ghost(self.reqs@.push(Request::Show(a)));
        self.log = Ghost(self.log@.push(Answer::Text(r@)));
        r
    }

    fn h_native<H: Host>(&mut self, host: &mut H, id: u32, args: Vec<Val>) -> (r: Val)
        requires
            old(self).wf(),
        ensures
            final(self).wf(),
            final(self).scopes() == old(self).scopes(),
            final(self).max_depth() == old(self).max_depth(),
            final(self).steps() == old(self).steps(),
            final(self).log() == old(self).log().push(Answer::Value(r@)),
            final(self).state() == ask(old(self).state(), Request::Native(id, vals_view(args@))),
    {
        let ghost av = vals_view(args@);
        let r = host.call_native(id, args);
        self.reqs = Ghost(self.reqs@.push(Request::Native(id, av)));
        self.log = Ghost(self.log@.push(Answer::Value(r@)));
        r
    }

    fn h_print<H: Host>(&mut self, host: &mut H, line: String)
        requires
            old(self).wf(),
        ensures
            final(self).wf(),
            final(self).scopes() == old(self).scopes(),
            final(self).max_depth() == old(self).max_depth(),
            final(self).steps() == old(self).steps(),
            final(self).log() == old(self).log(),
            final(self).state() == print_st(old(self).state(), line@),
    {
        let ghost l = line@;
        host.print(line);
        self.out = Ghost(self.out@.push(l));
        self.reqs = Ghost(self.reqs@.push(Request::Print(l)));
    }

    /// The display form of `v`.
    pub fn show<H: Host>(&mut self, v: &Val, host: &mut H) -> (r: String)
        requires
            old(self).wf(),
        ensures
            final(self).wf(),
            final(self).scopes() == old(self).scopes(),
            final(self).max_depth() == old(self).max_depth(),
            final(self).steps() == old(self).steps(),
            extends(final(self).log(), old(self).log()),
            forall|a: Seq<Answer>|
                extends(a, final(self).log()) ==> #[trigger] show_val(v@, old(self).state(), a)
                    == (r@, final(self).state()),
    {
        match v {
            Val::Number(n) => self.h_show(host, *n),
            Val::Boolean(true) => String::from_str("true"),
            Val::Boolean(false) => String::from_str("false"),
            Val::String(s) => s.clone(),
            Val::Nil => String::from_str("nil"),
            Val::Func(Function::Native(_, _)) => String::from_str("<native fn>"),
            Val::Func(Function::UserDef(_, _)) => String::from_str("<user fn>"),
            Val::NoVal => String::from_str("???"),
        }
    }

    /// Applies a strict binary operator (all but `and` and `or`) to two
    /// values.
    pub fn binary<H: Host>(&mut self, op: BinOp, a: Val, b: Val, host: &mut H) -> (r: Result<
        Val,
        RuntimeError,
    >)
        requires
            old(self).wf(),
        ensures
            final(self).wf(),
            final(self).scopes() == old(self).scopes(),
            final(self).max_depth() == old(self).max_depth(),
            final(self).steps() == old(self).steps(),
            extends(final(self).log(), old(self).log()),
            forall|ans: Seq<Answer>|
                extends(ans, final(self).log()) ==> #[trigger] binary_v(
                    op,
                    a@,
                    b@,
                    old(self).state(),
                    ans,
                ) == (res_v(r), final(self).state()),
            r matches Ok(v) ==> !(v is NoVal),
    {
        match (a, b) {
            (Val::Number(x), Val::Number(y)) => match op {
                BinOp::Eq => Ok(Val::Boolean(self.h_compare(host, CmpOp::Eq, x, y))),
                BinOp::Ne => Ok(Val::Boolean(!self.h_compare(host, CmpOp::Eq, x, y))),
                BinOp::Add => Ok(Val::Number(self.h_arith(host, ArithOp::Add, x, y))),
                BinOp::Sub => Ok(Val::Number(self.h_arith(host, ArithOp::Sub, x, y))),
                BinOp::Mul => Ok(Val::Number(self.h_arith(host, ArithOp::Mul, x, y))),
                BinOp::Div => Ok(Val::Number(self.h_arith(host, ArithOp::Div, x, y))),
                BinOp::Gt => Ok(Val::Boolean(self.h_compare(host, CmpOp::Gt, x, y))),
                BinOp::Ge => Ok(Val::Boolean(self.h_compare(host, CmpOp::Ge, x, y))),
                BinOp::Lt => Ok(Val::Boolean(self.h_compare(host, CmpOp::Lt, x, y))),
                BinOp::Le => Ok(Val::Boolean(self.h_compare(host, CmpOp::Le, x, y))),
                _ => Err(RuntimeError::TypeError),
            },
            (a, b) => match op {
                BinOp::Eq => Ok(Val::Boolean(same(&a, &b))),
                BinOp::Ne => Ok(Val::Boolean(!same(&a, &b))),
                BinOp::Add => match (a, b) {
                    (Val::String(x), Val::String(y)) => Ok(Val::String(x.concat(y.as_str()))),
                    _ => Err(RuntimeError::TypeError),
                },
                _ => Err(RuntimeError::TypeError),
            },
        }
    }

    /// `-v`: only a number has a negation.
    pub fn negate<H: Host>(&mut self, v: Val, host: &mut H) -> (r: Result<Val, RuntimeError>)
        requires
            old(self).wf(),
        ensures
            final(self).wf(),
            final(self).scopes() == old(self).scopes(),
            final(self).max_depth() == old(self).max_depth(),
            final(self).steps() == old(self).steps(),
            extends(final(self).log(), old(self).log()),
            forall|ans: Seq<Answer>|
                extends(ans, final(self).log()) ==> #[trigger] negate_v(v@, old(self).state(), ans)
                    == (res_v(r), final(self).state()),
            r matches Ok(x) ==> !(x is NoVal),
    {
        match v {
            Val::Number(x) => Ok(Val::Number(self.h_negate(host, x))),
            _ => Err(RuntimeError::TypeError),
        }
    }
}

/// Equality of two values that are not both numbers.
fn same(a: &Val, b: &Val) -> (r: bool)
    ensures
        !(a is Number && b is Number) ==> r == (a@ == b@),
{
    match (a, b) {
        (Val::Number(x), Val::Number(y)) => *x == *y,
        (Val::NoVal, Val::NoVal) => true,
        (Val::Boolean(x), Val::Boolean(y)) => *x == *y,
        (Val::String(x), Val::String(y)) => *x == *y,
        (Val::Nil, Val::Nil) => true,
        (Val::Func(f), Val::Func(g)) => *f == *g,
        _ => false,
    }
}

} // verus!

verus! {

broadcast use crate::semantics::lemma_extends_trans;

pub open spec fn unit_v(r: Result<(), RuntimeError>) -> Result<(), ErrV> {
    match r {
        Ok(()) => Ok(()),
        Err(e) => Err(e@),
    }
}

impl Interp {
    /// Evaluates `e` in scope `s`, with `depth` more calls allowed.
    #[verifier::rlimit(80)]
    pub fn eval<H: Host>(&mut self, e: &Expr, s: usize, depth: u32, host: &mut H) -> (r: Result<
        Val,
        RuntimeError,
    >)
        requires
            old(self).wf(),
            s < old(self).scopes().len(),
        ensures
            final(self).wf(),
            final(self).scopes().len() >= old(self).scopes().len(),
            final(self).steps() <= old(self).steps(),
            final(self).max_depth() == old(self).max_depth(),
            extends(final(self).log(), old(self).log()),
            r matches Ok(v) ==> !(v is NoVal),
            forall|ans: Seq<Answer>|
                extends(ans, final(self).log()) ==> #[trigger] eval_v(
                    e@,
                    s as int,
                    depth as nat,
                    old(self).state(),
                    ans,
                ) == (res_v(r), final(self).state()),
        decreases depth, 2int, e, 1int,
    {
        let ghost os = self.state();
        let ghost ol = self.log();
        match e {
            Expr::Lit(l) => match l {
                Literal::Number(n) => {
                    let x = self.h_number(host, n);
                    assert(e@ == ExprV::Lit(LitV::Number(n@)));
                    assert forall|ans: Seq<Answer>| extends(ans, self.log()) implies #[trigger] eval_v(
                        e@, s as int, depth as nat, os, ans,
                    ) == (res_v(Ok::<Val, RuntimeError>(Val::Number(x))), self.state()) by {
                        assert(ans[os.k as int] == self.log()[os.k as int]);
                    }
                    Ok(Val::Number(x))
                },
                Literal::Boolean(b) => {
                    proof {
                        crate::semantics::lemma_extends_refl(ol);
                    }
                    Ok(Val::Boolean(*b))
                },
                Literal::String(x) => {
                    proof {
                        crate::semantics::lemma_extends_refl(ol);
                    }
                    Ok(Val::String(x.clone()))
                },
                Literal::Nil => {
                    proof {
                        crate::semantics::lemma_extends_refl(ol);
                    }
                    Ok(Val::Nil)
                },
            },
            Expr::Var(v) => {
                proof {
                    crate::semantics::lemma_extends_refl(ol);
                }
                let res = self.scopes.get(s, v);
                assert(e@ == ExprV::Var(v@));
                res
            },
            Expr::Asgn(v, x) => {
                let res = match self.eval(x, s, depth, host) {
                    Err(err) => Err(err),
                    Ok(val) => match self.scopes.asgn(s, v, val.copy()) {
                        Err(err) => Err(err),
                        Ok(()) => Ok(val),
                    },
                };
                proof {
                    assert forall|ans: Seq<Answer>| extends(ans, self.log()) implies #[trigger] eval_v(
                        e@, s as int, depth as nat, os, ans,
                    ) == (res_v(res), self.state()) by {
                        let _t = eval_v((**x)@, s as int, depth as nat, os, ans);
                    }
                }
                res
            },
            Expr::And(a, b) | Expr::Or(a, b) => {
                let is_and = matches!(e, Expr::And(_, _));
                let l = match self.eval(a, s, depth, host) {
                    Err(err) => {
                        proof {
                            assert forall|ans: Seq<Answer>| extends(ans, self.log()) implies #[trigger] eval_v(
                                e@, s as int, depth as nat, os, ans,
                            ) == (res_v(Err::<Val, RuntimeError>(err)), self.state()) by {
                                let _t = eval_v((**a)@, s as int, depth as nat, os, ans);
                            }
                        }
                        return Err(err);
                    },
                    Ok(l) => l,
                };
                let ghost st1 = self.state();
                let ghost l1 = self.log();
                let ghost lv = l@;
                if truthy(&l) != is_and {
                    proof {
                        assert forall|ans: Seq<Answer>| extends(ans, self.log()) implies #[trigger] eval_v(
                            e@, s as int, depth as nat, os, ans,
                        ) == (res_v(Ok::<Val, RuntimeError>(l)), self.state()) by {
                            let _t = eval_v((**a)@, s as int, depth as nat, os, ans);
                        }
                    }
                    Ok(l)
                } else {
                    let res = self.eval(b, s, depth, host);
                    proof {
                        assert forall|ans: Seq<Answer>| extends(ans, self.log()) implies #[trigger] eval_v(
                            e@, s as int, depth as nat, os, ans,
                        ) == (res_v(res), self.state()) by {
                            assert(extends(ans, l1));
                            let _t = eval_v((**a)@, s as int, depth as nat, os, ans);
                            let _u = eval_v((**b)@, s as int, depth as nat, st1, ans);
                        }
                    }
                    res
                }
            },
            Expr::Eq(_, _) | Expr::Ne(_, _) | Expr::Gt(_, _) | Expr::Ge(_, _) | Expr::Lt(_, _)
            | Expr::Le(_, _) | Expr::Add(_, _) | Expr::Sub(_, _) | Expr::Mul(_, _) | Expr::Div(
                _,
                _,
            ) => self.eval_binary(e, s, depth, host),
            Expr::Not(x) | Expr::Opp(x) => {
                let is_not = matches!(e, Expr::Not(_));
                let v = match self.eval(x, s, depth, host) {
                    Err(err) => {
                        proof {
                            assert forall|ans: Seq<Answer>| extends(ans, self.log()) implies #[trigger] eval_v(
                                e@, s as int, depth as nat, os, ans,
                            ) == (res_v(Err::<Val, RuntimeError>(err)), self.state()) by {
                                let _t = eval_v((**x)@, s as int, depth as nat, os, ans);
                            }
                        }
                        return Err(err);
                    },
                    Ok(v) => v,
                };
                let ghost st1 = self.state();
                let ghost l1 = self.log();
                let res = if is_not {
                    Ok(not(&v))
                } else {
                    self.negate(v, host)
                };
                proof {
                    assert forall|ans: Seq<Answer>| extends(ans, self.log()) implies #[trigger] eval_v(
                        e@, s as int, depth as nat, os, ans,
                    ) == (res_v(res), self.state()) by {
                        assert(extends(ans, l1));
                        let _t = eval_v((**x)@, s as int, depth as nat, os, ans);
                        let _u = negate_v(v@, st1, ans);
                    }
                }
                res
            },
            Expr::Call(_, _) => self.eval_call(e, s, depth, host),
        }
    }

    /// Evaluates a call: the callee, then the arguments from left to right,
    /// then the call itself.
    #[verifier::rlimit(80)]
    fn eval_call<H: Host>(&mut self, e: &Expr, s: usize, depth: u32, host: &mut H) -> (r: Result<
        Val,
        RuntimeError,
    >)
        requires
            old(self).wf(),
            s < old(self).scopes().len(),
            e is Call,
        ensures
            final(self).wf(),
            final(self).scopes().len() >= old(self).scopes().len(),
            final(self).steps() <= old(self).steps(),
            final(self).max_depth() == old(self).max_depth(),
            extends(final(self).log(), old(self).log()),
            r matches Ok(v) ==> !(v is NoVal),
            forall|ans: Seq<Answer>|
                extends(ans, final(self).log()) ==> #[trigger] eval_v(
                    e@,
                    s as int,
                    depth as nat,
                    old(self).state(),
                    ans,
                ) == (res_v(r), final(self).state()),
        decreases depth, 2int, e, 0int,
    {
        let ghost os = self.state();
        match e {
            Expr::Call(callee, args) => {
                proof {
                    crate::ast::lemma_call_view(**callee, *args);
                }
                assert(e@ == ExprV::Call(Box::new((**callee)@), exprs_view(args@)));
                let f = match self.eval(callee, s, depth, host) {
                    Err(err) => {
                        proof {
                            assert forall|ans: Seq<Answer>| extends(ans, self.log()) implies #[trigger] eval_v(
                                e@, s as int, depth as nat, os, ans,
                            ) == (res_v(Err::<Val, RuntimeError>(err)), self.state()) by {
                                let _t = eval_v((**callee)@, s as int, depth as nat, os, ans);
                            }
                        }
                        return Err(err);
                    },
                    Ok(f) => f,
                };
                let func = match f {
                    Val::Func(func) => func,
                    _ => {
                        proof {
                            assert forall|ans: Seq<Answer>| extends(ans, self.log()) implies #[trigger] eval_v(
                                e@, s as int, depth as nat, os, ans,
                            ) == (res_v(Err::<Val, RuntimeError>(RuntimeError::NotCallable)), self.state()) by {
                                let _t = eval_v((**callee)@, s as int, depth as nat, os, ans);
                            }
                        }
                        return Err(RuntimeError::NotCallable);
                    },
                };
                let ghost st1 = self.state();
                let ghost log1 = self.log();
                let ghost av = exprs_view(args@);
                let mut vals: Vec<Val> = Vec::new();
                let mut i: usize = 0;
                assert(av.subrange(0, av.len() as int) =~= av);
                assert(vals_view(vals@) =~= Seq::<ValV>::empty());
                while i < args.len()
                    invariant
                        self.wf(),
                        os == old(self).state(),
                        s < self.scopes().len(),
                        old(self).scopes().len() <= self.scopes().len(),
                        self.steps() <= old(self).steps(),
                        self.state().steps <= st1.steps,
                        st1.steps <= old(self).state().steps,
                        self.max_depth() == old(self).max_depth(),
                        i <= args.len(),
                        av == exprs_view(args@),
                        extends(self.log(), log1),
                        extends(log1, old(self).log()),
                        forall|j: int| 0 <= j < vals.len() ==> !((#[trigger] vals[j]) is NoVal),
                        forall|j: int| 0 <= j < args.len() ==> decreases_to!(e => #[trigger] args@[j]),
                        e@ == ExprV::Call(Box::new((**callee)@), av),
                        forall|ans: Seq<Answer>|
                            extends(ans, log1) ==> #[trigger] eval_v(
                                (**callee)@,
                                s as int,
                                depth as nat,
                                old(self).state(),
                                ans,
                            ) == (Ok::<ValV, ErrV>(ValV::Func(func)), st1),
                        forall|ans: Seq<Answer>|
                            extends(ans, self.log()) ==> #[trigger] eval_args_v(
                                av,
                                Seq::empty(),
                                s as int,
                                depth as nat,
                                st1,
                                ans,
                            ) == eval_args_v(
                                av.subrange(i as int, av.len() as int),
                                vals_view(vals@),
                                s as int,
                                depth as nat,
                                self.state(),
                                ans,
                            ),
                    decreases args.len() - i,
                {
                    let ghost rest = av.subrange(i as int, av.len() as int);
                    let ghost sti = self.state();
                    let ghost acc = vals_view(vals@);
                    assert(rest[0] == args@[i as int]@);
                    assert(rest.drop_first() =~= av.subrange(i + 1, av.len() as int));
                    let ghost li = self.log();
                    let v = match self.eval(&args[i], s, depth, host) {
                        Err(err) => {
                            proof {
                                assert forall|ans: Seq<Answer>| extends(ans, self.log()) implies #[trigger] eval_v(
                                    e@, s as int, depth as nat, os, ans,
                                ) == (res_v(Err::<Val, RuntimeError>(err)), self.state()) by {
                                    assert(extends(ans, li));
                                    assert(extends(ans, log1));
                                    let _t = eval_v((**callee)@, s as int, depth as nat, os, ans);
                                    let _u = eval_args_v(av, Seq::empty(), s as int, depth as nat, st1, ans);
                                    let _v = eval_args_v(rest, acc, s as int, depth as nat, sti, ans);
                                    let _w = eval_v(rest[0], s as int, depth as nat, sti, ans);
                                }
                            }
                            return Err(err);
                        },
                        Ok(v) => v,
                    };
                    let ghost vv = v@;
                    vals.push(v);
                    assert(vals_view(vals@) =~= acc.push(vv));
                    proof {
                        assert forall|ans: Seq<Answer>| extends(ans, self.log()) implies #[trigger] eval_args_v(
                            av, Seq::empty(), s as int, depth as nat, st1, ans,
                        ) == eval_args_v(
                            av.subrange(i + 1, av.len() as int), vals_view(vals@), s as int, depth as nat,
                            self.state(), ans,
                        ) by {
                            assert(extends(ans, li));
                            let _v = eval_args_v(rest, acc, s as int, depth as nat, sti, ans);
                            let _w = eval_v(rest[0], s as int, depth as nat, sti, ans);
                        }
                    }
                    i = i + 1;
                }
                assert(av.subrange(i as int, av.len() as int) =~= Seq::<ExprV>::empty());
                let ghost st2 = self.state();
                let ghost l2 = self.log();
                let ghost vv = vals_view(vals@);
                let res = self.call(func, vals, depth, host);
                proof {
                    assert forall|ans: Seq<Answer>| extends(ans, self.log()) implies #[trigger] eval_v(
                        e@, s as int, depth as nat, os, ans,
                    ) == (res_v(res), self.state()) by {
                        assert(extends(ans, l2));
                        assert(extends(ans, log1));
                        let _t = eval_v((**callee)@, s as int, depth as nat, os, ans);
                        let _u = eval_args_v(av, Seq::empty(), s as int, depth as nat, st1, ans);
                        let _v = eval_args_v(Seq::empty(), vv, s as int, depth as nat, st2, ans);
                        let _w = call_v(func, vv, depth as nat, st2, ans);
                    }
                }
                res
            },
            _ => {
                assert(false);
                Err(RuntimeError::NotCallable)
            },
        }
    }

    /// Evaluates a strict binary operation: both operands, left first, then
    /// the operator.
    fn eval_binary<H: Host>(&mut self, e: &Expr, s: usize, depth: u32, host: &mut H) -> (r: Result<
        Val,
        RuntimeError,
    >)
        requires
            old(self).wf(),
            s < old(self).scopes().len(),
            e is Eq || e is Ne || e is Gt || e is Ge || e is Lt || e is Le || e is Add || e is Sub
                || e is Mul || e is Div,
        ensures
            final(self).wf(),
            final(self).scopes().len() >= old(self).scopes().len(),
            final(self).steps() <= old(self).steps(),
            final(self).max_depth() == old(self).max_depth(),
            extends(final(self).log(), old(self).log()),
            r matches Ok(v) ==> !(v is NoVal),
            forall|ans: Seq<Answer>|
                extends(ans, final(self).log()) ==> #[trigger] eval_v(
                    e@,
                    s as int,
                    depth as nat,
                    old(self).state(),
                    ans,
                ) == (res_v(r), final(self).state()),
        decreases depth, 2int, e, 0int,
    {
        let (a, b) = match e {
            Expr::Eq(a, b) => (a, b),
            Expr::Ne(a, b) => (a, b),
            Expr::Gt(a, b) => (a, b),
            Expr::Ge(a, b) => (a, b),
            Expr::Lt(a, b) => (a, b),
            Expr::Le(a, b) => (a, b),
            Expr::Add(a, b) => (a, b),
            Expr::Sub(a, b) => (a, b),
            Expr::Mul(a, b) => (a, b),
            _ => match e {
                Expr::Div(a, b) => (a, b),
                _ => {
                    return Err(RuntimeError::TypeError);
                },
            },
        };
        let op = match e.as_binary() {
            Some((op, _, _)) => op,
            None => {
                return Err(RuntimeError::TypeError);
            },
        };
        let ghost os = self.state();
        assert(e@ == ExprV::Bin(op, Box::new((**a)@), Box::new((**b)@)));
        let l = match self.eval(a, s, depth, host) {
            Err(err) => {
                proof {
                    assert forall|ans: Seq<Answer>| extends(ans, self.log()) implies #[trigger] eval_v(
                        e@, s as int, depth as nat, os, ans,
                    ) == (res_v(Err::<Val, RuntimeError>(err)), self.state()) by {
                        let _t = eval_v((**a)@, s as int, depth as nat, os, ans);
                    }
                }
                return Err(err);
            },
            Ok(l) => l,
        };
        let ghost st1 = self.state();
        let ghost l1 = self.log();
        let r = match self.eval(b, s, depth, host) {
            Err(err) => {
                proof {
                    assert forall|ans: Seq<Answer>| extends(ans, self.log()) implies #[trigger] eval_v(
                        e@, s as int, depth as nat, os, ans,
                    ) == (res_v(Err::<Val, RuntimeError>(err)), self.state()) by {
                        assert(extends(ans, l1));
                        let _t = eval_v((**a)@, s as int, depth as nat, os, ans);
                        let _u = eval_v((**b)@, s as int, depth as nat, st1, ans);
                    }
                }
                return Err(err);
            },
            Ok(r) => r,
        };
        let ghost st2 = self.state();
        let ghost l2 = self.log();
        let ghost (lv, rv) = (l@, r@);
        let res = self.binary(op, l, r, host);
        proof {
            assert forall|ans: Seq<Answer>| extends(ans, self.log()) implies #[trigger] eval_v(
                e@, s as int, depth as nat, os, ans,
            ) == (res_v(res), self.state()) by {
                assert(extends(ans, l2));
                assert(extends(ans, l1));
                let _t = eval_v((**a)@, s as int, depth as nat, os, ans);
                let _u = eval_v((**b)@, s as int, depth as nat, st1, ans);
                let _v = binary_v(op, lv, rv, st2, ans);
            }
        }
        res
    }

    #[verifier::rlimit(100)]
    /// Calls `f` with `args`: a native function through the host, a user
    /// function by running its body in a fresh scope inside its closure,
    /// with the parameters bound to the arguments in order.
    pub fn call<H: Host>(&mut self, f: Function, args: Vec<Val>, depth: u32, host: &mut H) -> (r:
        Result<Val, RuntimeError>)
        requires
            old(self).wf(),
            forall|j: int| 0 <= j < args.len() ==> !((#[trigger] args[j]) is NoVal),
        ensures
            final(self).wf(),
            final(self).scopes().len() >= old(self).scopes().len(),
            final(self).steps() <= old(self).steps(),
            final(self).max_depth() == old(self).max_depth(),
            extends(final(self).log(), old(self).log()),
            r matches Ok(v) ==> !(v is NoVal),
            forall|ans: Seq<Answer>|
                extends(ans, final(self).log()) ==> #[trigger] call_v(
                    f,
                    vals_view(args@),
                    depth as nat,
                    old(self).state(),
                    ans,
                ) == (res_v(r), final(self).state()),
        decreases depth, 1int, f, 0int,
    {
        match f {
            Function::Native(arity, id) => {
                if arity as usize != args.len() {
                    return Err(RuntimeError::ArityMismatch(arity as usize, args.len()));
                }
                let v = self.h_native(host, id, args);
                if let Val::NoVal = v {
                    Ok(Val::Nil)
                } else {
                    Ok(v)
                }
            },
            Function::UserDef(d, closure) => {
                if d >= self.decls.len() || closure >= self.scopes.frames.len() {
                    return Err(RuntimeError::NotCallable);
                }
                let decl = Rc::clone(&self.decls[d]);
                if decl.params.len() != args.len() {
                    return Err(RuntimeError::ArityMismatch(decl.params.len(), args.len()));
                }
                if depth == 0 {
                    return Err(RuntimeError::CallDepth);
                }
                let ghost av = vals_view(args@);
                let ghost pv = names_view(decl.params@);
                let ghost st0 = self.state();
                let ghost fr0 = new_local_v(st0.frames, closure as int);
                let inner = self.scopes.new_local(closure);
                let n = args.len();
                let mut vals = args;
                let mut k: usize = 0;
                assert(pv.take(0) =~= Seq::<Seq<char>>::empty());
                assert(vals@ =~= args@.subrange(0, n as int));
                while k < n
                    invariant
                        self.wf(),
                        inner < self.scopes().len(),
                        inner == st0.frames.len(),
                        k <= n,
                        n == decl.params.len(),
                        n == args.len(),
                        pv == names_view(decl.params@),
                        av == vals_view(args@),
                        vals@ == args@.subrange(k as int, n as int),
                        forall|j: int| 0 <= j < args.len() ==> !((#[trigger] args[j]) is NoVal),
                        self.log() == old(self).log(),
                        self.max_depth() == old(self).max_depth(),
                        self.steps() == old(self).steps(),
                        st0 == old(self).state(),
                        self.state() == with_frames(
                            st0,
                            bind_all(fr0, inner as int, pv.take(k as int), av.take(k as int)),
                        ),
                    decreases n - k,
                {
                    let a = vals.remove(0);
                    assert(a == args@[k as int]);
                    assert(pv.take(k + 1).drop_last() =~= pv.take(k as int));
                    assert(av.take(k + 1).drop_last() =~= av.take(k as int));
                    self.scopes.def(inner, &decl.params[k], a);
                    assert(vals@ =~= args@.subrange(k + 1, n as int));
                    k = k + 1;
                }
                assert(pv.take(n as int) =~= pv);
                assert(av.take(n as int) =~= av);
                let ghost stb = self.state();
                assert(stb == with_frames(st0, bind_all(fr0, inner as int, pv, av)));
                assert(st0.decls[d as int] == DeclV { params: pv, body: decl.body@ });
                let ret = match self.exec(&decl.body, inner, depth - 1, host) {
                    Err(err) => {
                        proof {
                            assert forall|ans: Seq<Answer>| extends(ans, self.log()) implies #[trigger] call_v(
                                f, av, depth as nat, st0, ans,
                            ) == (res_v(Err::<Val, RuntimeError>(err)), self.state()) by {
                                let _t = exec_v(decl.body@, inner as int, (depth - 1) as nat, stb, ans);
                            }
                        }
                        return Err(err);
                    },
                    Ok(ret) => ret,
                };
                let ghost st2 = self.state();
                self.scopes.release(inner);
                let res = if let Val::NoVal = ret {
                    Ok(Val::Nil)
                } else {
                    Ok(ret)
                };
                proof {
                    assert forall|ans: Seq<Answer>| extends(ans, self.log()) implies #[trigger] call_v(
                        f, av, depth as nat, st0, ans,
                    ) == (res_v(res), self.state()) by {
                        let _t = exec_v(decl.body@, inner as int, (depth - 1) as nat, stb, ans);
                        assert(self.state() == with_frames(st2, crate::semantics::release_v(st2.frames, inner as int)));
                    }
                }
                res
            },
        }
    }

    /// Executes `st` in scope `s`. `Ok(NoVal)`: it completed; any other
    /// value: a `return` produced it.
    #[verifier::rlimit(100)]
    pub fn exec<H: Host>(&mut self, st: &Stmt, s: usize, depth: u32, host: &mut H) -> (r: Result<
        Val,
        RuntimeError,
    >)
        requires
            old(self).wf(),
            s < old(self).scopes().len(),
        ensures
            final(self).wf(),
            final(self).scopes().len() >= old(self).scopes().len(),
            final(self).steps() <= old(self).steps(),
            final(self).max_depth() == old(self).max_depth(),
            extends(final(self).log(), old(self).log()),
            forall|ans: Seq<Answer>|
                extends(ans, final(self).log()) ==> #[trigger] exec_v(
                    st@,
                    s as int,
                    depth as nat,
                    old(self).state(),
                    ans,
                ) == (res_v(r), final(self).state()),
        decreases depth, 3int, st, 0int,
    {
        let ghost os = self.state();
        let ghost ol = self.log();
        match st {
            Stmt::Block(stmts) => {
                proof {
                    crate::ast::lemma_block_view(*stmts);
                }
                let ghost ssv = stmts_view(stmts@);
                let inner = self.scopes.new_local(s);
                let ghost st1 = self.state();
                let ghost log1 = self.log();
                let mut i: usize = 0;
                assert(ssv.subrange(0, ssv.len() as int) =~= ssv);
                proof {
                    crate::semantics::lemma_extends_refl(log1);
                }
                while i < stmts.len()
                    invariant
                        self.wf(),
                        os == old(self).state(),
                        s < inner < self.scopes().len(),
                        old(self).scopes().len() <= inner,
                        inner == old(self).state().frames.len(),
                        st1 == with_frames(
                            old(self).state(),
                            new_local_v(old(self).state().frames, s as int),
                        ),
                        self.state().steps <= st1.steps,
                        self.steps() <= old(self).steps(),
                        self.max_depth() == old(self).max_depth(),
                        log1 == old(self).log(),
                        extends(self.log(), log1),
                        i <= stmts.len(),
                        ssv == stmts_view(stmts@),
                        st@ == StmtV::Block(ssv),
                        forall|j: int| 0 <= j < stmts.len() ==> decreases_to!(st => #[trigger] stmts@[j]),
                        forall|ans: Seq<Answer>|
                            extends(ans, self.log()) ==> #[trigger] exec_block_v(
                                ssv,
                                inner as int,
                                depth as nat,
                                st1,
                                ans,
                            ) == exec_block_v(
                                ssv.subrange(i as int, ssv.len() as int),
                                inner as int,
                                depth as nat,
                                self.state(),
                                ans,
                            ),
                    decreases stmts.len() - i,
                {
                    let ghost rest = ssv.subrange(i as int, ssv.len() as int);
                    let ghost sti = self.state();
                    let ghost li = self.log();
                    assert(rest[0] == stmts@[i as int]@);
                    assert(rest.drop_first() =~= ssv.subrange(i + 1, ssv.len() as int));
                    let r = match self.exec(&stmts[i], inner, depth, host) {
                        Err(err) => {
                            proof {
                                assert forall|ans: Seq<Answer>| extends(ans, self.log()) implies #[trigger] exec_v(
                                    st@, s as int, depth as nat, os, ans,
                                ) == (res_v(Err::<Val, RuntimeError>(err)), self.state()) by {
                                    assert(extends(ans, li));
                                    let _t = exec_block_v(ssv, inner as int, depth as nat, st1, ans);
                                    let _u = exec_block_v(rest, inner as int, depth as nat, sti, ans);
                                    let _v = exec_v(rest[0], inner as int, depth as nat, sti, ans);
                                }
                            }
                            return Err(err);
                        },
                        Ok(r) => r,
                    };
                    if !matches!(r, Val::NoVal) {
                        let ghost st2 = self.state();
                        self.scopes.release(inner);
                        proof {
                            assert forall|ans: Seq<Answer>| extends(ans, self.log()) implies #[trigger] exec_v(
                                st@, s as int, depth as nat, os, ans,
                            ) == (res_v(Ok::<Val, RuntimeError>(r)), self.state()) by {
                                assert(extends(ans, li));
                                let _t = exec_block_v(ssv, inner as int, depth as nat, st1, ans);
                                let _u = exec_block_v(rest, inner as int, depth as nat, sti, ans);
                                let _v = exec_v(rest[0], inner as int, depth as nat, sti, ans);
                                assert(self.state() == with_frames(st2, crate::semantics::release_v(st2.frames, inner as int)));
                            }
                        }
                        return Ok(r);
                    }
                    proof {
                        assert forall|ans: Seq<Answer>| extends(ans, self.log()) implies #[trigger] exec_block_v(
                            ssv, inner as int, depth as nat, st1, ans,
                        ) == exec_block_v(
                            ssv.subrange(i + 1, ssv.len() as int), inner as int, depth as nat,
                            self.state(), ans,
                        ) by {
                            assert(extends(ans, li));
                            let _u = exec_block_v(rest, inner as int, depth as nat, sti, ans);
                            let _v = exec_v(rest[0], inner as int, depth as nat, sti, ans);
                        }
                    }
                    i = i + 1;
                }
                assert(ssv.subrange(i as int, ssv.len() as int) =~= Seq::<StmtV>::empty());
                let ghost st2 = self.state();
                self.scopes.release(inner);
                proof {
                    assert forall|ans: Seq<Answer>| extends(ans, self.log()) implies #[trigger] exec_v(
                        st@, s as int, depth as nat, os, ans,
                    ) == (res_v(Ok::<Val, RuntimeError>(Val::NoVal)), self.state()) by {
                        let _t = exec_block_v(ssv, inner as int, depth as nat, st1, ans);
                        let _u = exec_block_v(Seq::empty(), inner as int, depth as nat, st2, ans);
                        assert(self.state() == with_frames(st2, crate::semantics::release_v(st2.frames, inner as int)));
                    }
                }
                Ok(Val::NoVal)
            },
            Stmt::Expr(e) => {
                let res = match self.eval(e, s, depth, host) {
                    Err(err) => Err(err),
                    Ok(_) => Ok(Val::NoVal),
                };
                proof {
                    assert forall|ans: Seq<Answer>| extends(ans, self.log()) implies #[trigger] exec_v(
                        st@, s as int, depth as nat, os, ans,
                    ) == (res_v(res), self.state()) by {
                        let _t = eval_v(e@, s as int, depth as nat, os, ans);
                    }
                }
                res
            },
            Stmt::Print(e) => {
                let v = match self.eval(e, s, depth, host) {
                    Err(err) => {
                        proof {
                    assert forall|ans: Seq<Answer>| extends(ans, self.log()) implies #[trigger] exec_v(
                        st@, s as int, depth as nat, os, ans,
                    ) == (res_v(Err::<Val, RuntimeError>(err)), self.state()) by {
                        let _t = eval_v(e@, s as int, depth as nat, os, ans);
                    }
                }
                        return Err(err);
                    },
                    Ok(v) => v,
                };
                let ghost st1 = self.state();
                let ghost l1 = self.log();
                let line = self.show(&v, host);
                let ghost st2 = self.state();
                self.h_print(host, line);
                proof {
                    assert forall|ans: Seq<Answer>| extends(ans, self.log()) implies #[trigger] exec_v(
                        st@, s as int, depth as nat, os, ans,
                    ) == (res_v(Ok::<Val, RuntimeError>(Val::NoVal)), self.state()) by {
                        assert(extends(ans, l1)); let _t = eval_v(e@, s as int, depth as nat, os, ans); let _u = show_val(v@, st1, ans);
                    }
                }
                Ok(Val::NoVal)
            },
            Stmt::Decl(name, init) => {
                let v = match init {
                    None => {
                        proof {
                            crate::semantics::lemma_extends_refl(ol);
                        }
                        Val::Nil
                    },
                    Some(x) => match self.eval(x, s, depth, host) {
                        Err(err) => {
                            proof {
                    assert forall|ans: Seq<Answer>| extends(ans, self.log()) implies #[trigger] exec_v(
                        st@, s as int, depth as nat, os, ans,
                    ) == (res_v(Err::<Val, RuntimeError>(err)), self.state()) by {
                        let _t = eval_v(x@, s as int, depth as nat, os, ans);
                    }
                }
                            return Err(err);
                        },
                        Ok(v) => v,
                    },
                };
                let ghost st1 = self.state();
                self.scopes.def(s, name, v);
                proof {
                    assert forall|ans: Seq<Answer>| extends(ans, self.log()) implies #[trigger] exec_v(
                        st@, s as int, depth as nat, os, ans,
                    ) == (res_v(Ok::<Val, RuntimeError>(Val::NoVal)), self.state()) by {
                        if let Some(x) = init {
                            let _t = eval_v(x@, s as int, depth as nat, os, ans);
                        }
                    }
                }
                Ok(Val::NoVal)
            },
            Stmt::If(c, th, el) => {
                let cv = match self.eval(c, s, depth, host) {
                    Err(err) => {
                        proof {
                    assert forall|ans: Seq<Answer>| extends(ans, self.log()) implies #[trigger] exec_v(
                        st@, s as int, depth as nat, os, ans,
                    ) == (res_v(Err::<Val, RuntimeError>(err)), self.state()) by {
                        let _t = eval_v(c@, s as int, depth as nat, os, ans);
                    }
                }
                        return Err(err);
                    },
                    Ok(cv) => cv,
                };
                let ghost st1 = self.state();
                let ghost l1 = self.log();
                let res = if truthy(&cv) {
                    self.exec(th, s, depth, host)
                } else {
                    match el {
                        None => {
                            proof {
                                crate::semantics::lemma_extends_refl(l1);
                            }
                            Ok(Val::NoVal)
                        },
                        Some(x) => self.exec(x, s, depth, host),
                    }
                };
                proof {
                    assert forall|ans: Seq<Answer>| extends(ans, self.log()) implies #[trigger] exec_v(
                        st@, s as int, depth as nat, os, ans,
                    ) == (res_v(res), self.state()) by {
                        assert(extends(ans, l1)); let _t = eval_v(c@, s as int, depth as nat, os, ans); let _u = exec_v((**th)@, s as int, depth as nat, st1, ans); if let Some(x) = el { let _v = exec_v((**x)@, s as int, depth as nat, st1, ans); }
                    }
                }
                res
            },
            Stmt::While(c, body) => {
                assert(decreases_to!(st => body));
                proof {
                    crate::semantics::lemma_extends_refl(ol);
                }
                loop
                    invariant
                        self.wf(),
                        s < self.scopes().len(),
                        old(self).scopes().len() <= self.scopes().len(),
                        self.steps() <= old(self).steps(),
                        self.max_depth() == old(self).max_depth(),
                        extends(self.log(), old(self).log()),
                        os == old(self).state(),
                        decreases_to!(st => body),
                        st@ == StmtV::While((*c)@, Box::new((**body)@)),
                        forall|ans: Seq<Answer>|
                            extends(ans, self.log()) ==> #[trigger] exec_v(
                                st@,
                                s as int,
                                depth as nat,
                                old(self).state(),
                                ans,
                            ) == exec_v(st@, s as int, depth as nat, self.state(), ans),
                    decreases self.steps(),
                {
                    let ghost sti = self.state();
                    let ghost li = self.log();
                    if self.steps == 0 {
                        proof {
                            assert forall|ans: Seq<Answer>| extends(ans, self.log()) implies #[trigger] exec_v(
                                st@, s as int, depth as nat, os, ans,
                            ) == (res_v(Err::<Val, RuntimeError>(RuntimeError::OutOfSteps)), self.state()) by {
                                let _t = exec_v(st@, s as int, depth as nat, sti, ans);
                            }
                        }
                        return Err(RuntimeError::OutOfSteps);
                    }
                    self.steps = self.steps - 1;
                    let ghost st0 = self.state();
                    let cv = match self.eval(c, s, depth, host) {
                        Err(err) => {
                            proof {
                                assert forall|ans: Seq<Answer>| extends(ans, self.log()) implies #[trigger] exec_v(
                                    st@, s as int, depth as nat, os, ans,
                                ) == (res_v(Err::<Val, RuntimeError>(err)), self.state()) by {
                                    let _t = exec_v(st@, s as int, depth as nat, sti, ans);
                                    let _u = eval_v(c@, s as int, depth as nat, st0, ans);
                                }
                            }
                            return Err(err);
                        },
                        Ok(cv) => cv,
                    };
                    let ghost st1 = self.state();
                    let ghost l1 = self.log();
                    if !truthy(&cv) {
                        proof {
                            assert forall|ans: Seq<Answer>| extends(ans, self.log()) implies #[trigger] exec_v(
                                st@, s as int, depth as nat, os, ans,
                            ) == (res_v(Ok::<Val, RuntimeError>(Val::NoVal)), self.state()) by {
                                let _t = exec_v(st@, s as int, depth as nat, sti, ans);
                                let _u = eval_v(c@, s as int, depth as nat, st0, ans);
                            }
                        }
                        return Ok(Val::NoVal);
                    }
                    let r = match self.exec(body, s, depth, host) {
                        Err(err) => {
                            proof {
                                assert forall|ans: Seq<Answer>| extends(ans, self.log()) implies #[trigger] exec_v(
                                    st@, s as int, depth as nat, os, ans,
                                ) == (res_v(Err::<Val, RuntimeError>(err)), self.state()) by {
                                    assert(extends(ans, l1));
                                    let _t = exec_v(st@, s as int, depth as nat, sti, ans);
                                    let _u = eval_v(c@, s as int, depth as nat, st0, ans);
                                    let _v = exec_v((**body)@, s as int, depth as nat, st1, ans);
                                }
                            }
                            return Err(err);
                        },
                        Ok(r) => r,
                    };
                    if !matches!(r, Val::NoVal) {
                        proof {
                            assert forall|ans: Seq<Answer>| extends(ans, self.log()) implies #[trigger] exec_v(
                                st@, s as int, depth as nat, os, ans,
                            ) == (res_v(Ok::<Val, RuntimeError>(r)), self.state()) by {
                                assert(extends(ans, l1));
                                let _t = exec_v(st@, s as int, depth as nat, sti, ans);
                                let _u = eval_v(c@, s as int, depth as nat, st0, ans);
                                let _v = exec_v((**body)@, s as int, depth as nat, st1, ans);
                            }
                        }
                        return Ok(r);
                    }
                    proof {
                        assert forall|ans: Seq<Answer>| extends(ans, self.log()) implies #[trigger] exec_v(
                            st@, s as int, depth as nat, old(self).state(), ans,
                        ) == exec_v(st@, s as int, depth as nat, self.state(), ans) by {
                            assert(extends(ans, l1));
                            assert(extends(ans, li));
                            let _t = exec_v(st@, s as int, depth as nat, sti, ans);
                            let _u = eval_v(c@, s as int, depth as nat, st0, ans);
                            let _v = exec_v((**body)@, s as int, depth as nat, st1, ans);
                        }
                    }
                }
            },
            Stmt::Func(name, params, body) => {
                proof {
                    crate::semantics::lemma_extends_refl(ol);
                }
                let decl = FunDecl { params: copy_names(params), body: copy_stmt(body) };
                let ghost before = decls_view(self.decls@);
                let ghost dv = DeclV { params: names_view(params@), body: (**body)@ };
                self.decls.push(Rc::new(decl));
                assert(decls_view(self.decls@) =~= before.push(dv));
                let id = self.decls.len() - 1;
                self.scopes.capture(s);
                self.scopes.def(s, name, Val::Func(Function::UserDef(id, s)));
                proof {
                    let fr = crate::semantics::def_v(
                        crate::semantics::capture_v(os.frames, s as int),
                        s as int,
                        name@,
                        ValV::Func(Function::UserDef(id, s)),
                    );
                    assert(self.state() == StateV { frames: fr, decls: os.decls.push(dv), ..os });
                    assert(st@ == StmtV::Func(name@, names_view(params@), Box::new((**body)@)));
                    assert forall|ans: Seq<Answer>| extends(ans, self.log()) implies #[trigger] exec_v(
                        st@, s as int, depth as nat, os, ans,
                    ) == (res_v(Ok::<Val, RuntimeError>(Val::NoVal)), self.state()) by {
                        assert(os.decls.len() == id);
                    }
                }
                Ok(Val::NoVal)
            },
            Stmt::Return(e) => {
                let res = match e {
                    None => {
                        proof {
                            crate::semantics::lemma_extends_refl(ol);
                        }
                        Ok(Val::Nil)
                    },
                    Some(x) => self.eval(x, s, depth, host),
                };
                proof {
                    assert forall|ans: Seq<Answer>| extends(ans, self.log()) implies #[trigger] exec_v(
                        st@, s as int, depth as nat, os, ans,
                    ) == (res_v(res), self.state()) by {
                        if let Some(x) = e {
                            let _t = eval_v(x@, s as int, depth as nat, os, ans);
                        }
                    }
                }
                res
            },
        }
    }

    /// Runs the statements of `prog` in the global scope, in order, stopping
    /// at the first error.
    pub fn run<H: Host>(&mut self, prog: &Prog, host: &mut H) -> (r: Result<(), RuntimeError>)
        requires
            old(self).wf(),
        ensures
            final(self).wf(),
            final(self).steps() <= old(self).steps(),
            final(self).max_depth() == old(self).max_depth(),
            extends(final(self).log(), old(self).log()),
            forall|ans: Seq<Answer>|
                extends(ans, final(self).log()) ==> #[trigger] run_v(
                    prog@,
                    old(self).max_depth() as nat,
                    old(self).state(),
                    ans,
                ) == (unit_v(r), final(self).state()),
    {
        let ghost pv = prog@;
        let mut i: usize = 0;
        assert(pv.subrange(0, pv.len() as int) =~= pv);
        while i < prog.stmts.len()
            invariant
                self.wf(),
                self.scopes().len() >= 1,
                self.steps() <= old(self).steps(),
                self.max_depth() == old(self).max_depth(),
                extends(self.log(), old(self).log()),
                i <= prog.stmts.len(),
                pv == prog@,
                pv == stmts_view(prog.stmts@),
                forall|ans: Seq<Answer>|
                    extends(ans, self.log()) ==> #[trigger] run_v(
                        pv,
                        old(self).max_depth() as nat,
                        old(self).state(),
                        ans,
                    ) == run_v(
                        pv.subrange(i as int, pv.len() as int),
                        old(self).max_depth() as nat,
                        self.state(),
                        ans,
                    ),
            decreases prog.stmts.len() - i,
        {
            let ghost rest = pv.subrange(i as int, pv.len() as int);
            assert(rest[0] == prog.stmts@[i as int]@);
            assert(rest.drop_first() =~= pv.subrange(i + 1, pv.len() as int));
            match self.exec(&prog.stmts[i], 0, self.max_depth, host) {
                Err(err) => {
                    return Err(err);
                },
                Ok(_) => {},
            }
            i = i + 1;
        }
        assert(pv.subrange(i as int, pv.len() as int) =~= Seq::<StmtV>::empty());
        Ok(())
    }
}

} // verus!
