use vstd::prelude::*;

use crate::ast::{exprs_view, names_view, stmts_view, Expr, ExprV, Prog, Stmt, StmtV, VarV, Variable};

verus! {

/// Why a program cannot be resolved.
#[derive(PartialEq, Debug)]
pub enum ResolveError {
    /// A name declared twice in one local scope.
    DuplicateInScope(String),
    /// A local variable read in its own initializer.
    SelfReferentialInitializer(String),
    /// `return` outside of any function.
    ReturnOutsideFunction,
    /// More nested scopes than a depth can count.
    TooDeep,
}

pub ghost enum ResolveErrorV {
    DuplicateInScope(Seq<char>),
    SelfReferentialInitializer(Seq<char>),
    ReturnOutsideFunction,
    TooDeep,
}

impl View for ResolveError {
    type V = ResolveErrorV;

    open spec fn view(&self) -> ResolveErrorV {
        match self {
            ResolveError::DuplicateInScope(n) => ResolveErrorV::DuplicateInScope(n@),
            ResolveError::SelfReferentialInitializer(n) => ResolveErrorV::SelfReferentialInitializer(
                n@,
            ),
            ResolveError::ReturnOutsideFunction => ResolveErrorV::ReturnOutsideFunction,
            ResolveError::TooDeep => ResolveErrorV::TooDeep,
        }
    }
}

/// One local scope: names with "declared" (`false`) or "defined" (`true`).
/// A later entry for a name overrides an earlier one.
pub type ScopeV = Seq<(Seq<char>, bool)>;

/// What scope `sc` says of name `n`.
pub open spec fn lookup(sc: ScopeV, n: Seq<char>) -> Option<bool>
    decreases sc.len(),
{
    if sc.len() == 0 {
        None
    } else if sc.last().0 == n {
        Some(sc.last().1)
    } else {
        lookup(sc.drop_last(), n)
    }
}

/// How many scopes out from the innermost one the nearest binding of `n`
/// lies, if any does.
pub open spec fn find_depth(scopes: Seq<ScopeV>, n: Seq<char>) -> Option<nat>
    decreases scopes.len(),
{
    if scopes.len() == 0 {
        None
    } else if lookup(scopes.last(), n) is Some {
        Some(0)
    } else {
        match find_depth(scopes.drop_last(), n) {
            Some(d) => Some(d + 1),
            None => None,
        }
    }
}

/// `v` with its depth bound by `scopes`; left as it is where no local scope
/// holds its name.
pub open spec fn bind(v: VarV, scopes: Seq<ScopeV>) -> VarV {
    match find_depth(scopes, v.name) {
        Some(d) => VarV { name: v.name, depth: d as int },
        None => v,
    }
}

/// Records `n` as `b` in the innermost scope; the global scope records
/// nothing.
pub open spec fn mark(scopes: Seq<ScopeV>, n: Seq<char>, b: bool) -> Seq<ScopeV> {
    if scopes.len() == 0 {
        scopes
    } else {
        scopes.update(scopes.len() - 1, scopes.last().push((n, b)))
    }
}

pub open spec fn mark_all(scopes: Seq<ScopeV>, ns: Seq<Seq<char>>) -> Seq<ScopeV>
    decreases ns.len(),
{
    if ns.len() == 0 {
        scopes
    } else {
        mark_all(mark(scopes, ns[0], true), ns.drop_first())
    }
}

/// The number of scopes past which a depth no longer fits.
pub open spec fn max_scopes() -> nat {
    isize::MAX as nat
}

/// `e` with every variable bound, or the first error met.
pub open spec fn r_expr(e: ExprV, scopes: Seq<ScopeV>) -> Result<ExprV, ResolveErrorV>
    decreases e,
{
    match e {
        ExprV::Asgn(v, x) => match r_expr(*x, scopes) {
            Err(err) => Err(err),
            Ok(x2) => Ok(ExprV::Asgn(bind(v, scopes), Box::new(x2))),
        },
        ExprV::Call(c, args) => match r_expr(*c, scopes) {
            Err(err) => Err(err),
            Ok(c2) => match r_exprs(args, scopes) {
                Err(err) => Err(err),
                Ok(args2) => Ok(ExprV::Call(Box::new(c2), args2)),
            },
        },
        ExprV::Bin(op, l, r) => match r_expr(*l, scopes) {
            Err(err) => Err(err),
            Ok(l2) => match r_expr(*r, scopes) {
                Err(err) => Err(err),
                Ok(r2) => Ok(ExprV::Bin(op, Box::new(l2), Box::new(r2))),
            },
        },
        ExprV::Not(x) => match r_expr(*x, scopes) {
            Err(err) => Err(err),
            Ok(x2) => Ok(ExprV::Not(Box::new(x2))),
        },
        ExprV::Opp(x) => match r_expr(*x, scopes) {
            Err(err) => Err(err),
            Ok(x2) => Ok(ExprV::Opp(Box::new(x2))),
        },
        ExprV::Lit(l) => Ok(ExprV::Lit(l)),
        ExprV::Var(v) => {
            if scopes.len() > 0 && lookup(scopes.last(), v.name) == Some(false) {
                Err(ResolveErrorV::SelfReferentialInitializer(v.name))
            } else {
                Ok(ExprV::Var(bind(v, scopes)))
            }
        },
    }
}

pub open spec fn r_exprs(es: Seq<ExprV>, scopes: Seq<ScopeV>) -> Result<Seq<ExprV>, ResolveErrorV>
    decreases es,
{
    if es.len() == 0 {
        Ok(Seq::empty())
    } else {
        match r_expr(es[0], scopes) {
            Err(err) => Err(err),
            Ok(e0) => match r_exprs(es.drop_first(), scopes) {
                Err(err) => Err(err),
                Ok(rest) => Ok(seq![e0] + rest),
            },
        }
    }
}

pub open spec fn r_oexpr(e: Option<ExprV>, scopes: Seq<ScopeV>) -> Result<Option<ExprV>, ResolveErrorV> {
    match e {
        None => Ok(None),
        Some(x) => match r_expr(x, scopes) {
            Err(err) => Err(err),
            Ok(x2) => Ok(Some(x2)),
        },
    }
}

/// `s` with every variable bound, and the scopes after it; or the first
/// error met. `in_fn` says whether `s` stands inside a function.
pub open spec fn r_stmt(s: StmtV, scopes: Seq<ScopeV>, in_fn: bool) -> Result<
    (StmtV, Seq<ScopeV>),
    ResolveErrorV,
>
    decreases s,
{
    match s {
        StmtV::Block(ss) => {
            if scopes.len() >= max_scopes() {
                Err(ResolveErrorV::TooDeep)
            } else {
                match r_stmts(ss, scopes.push(Seq::empty()), in_fn) {
                    Err(err) => Err(err),
                    Ok((ss2, sc2)) => Ok((StmtV::Block(ss2), sc2.drop_last())),
                }
            }
        },
        StmtV::Expr(e) => match r_expr(e, scopes) {
            Err(err) => Err(err),
            Ok(e2) => Ok((StmtV::Expr(e2), scopes)),
        },
        StmtV::Print(e) => match r_expr(e, scopes) {
            Err(err) => Err(err),
            Ok(e2) => Ok((StmtV::Print(e2), scopes)),
        },
        StmtV::Decl(n, init) => {
            if scopes.len() > 0 && lookup(scopes.last(), n) is Some {
                Err(ResolveErrorV::DuplicateInScope(n))
            } else {
                let sc1 = mark(scopes, n, false);
                match r_oexpr(init, sc1) {
                    Err(err) => Err(err),
                    Ok(i2) => Ok((StmtV::Decl(n, i2), mark(sc1, n, true))),
                }
            }
        },
        StmtV::If(c, th, el) => match r_expr(c, scopes) {
            Err(err) => Err(err),
            Ok(c2) => match r_stmt(*th, scopes, in_fn) {
                Err(err) => Err(err),
                Ok((th2, sc1)) => match el {
                    None => Ok((StmtV::If(c2, Box::new(th2), None), sc1)),
                    Some(e) => match r_stmt(*e, sc1, in_fn) {
                        Err(err) => Err(err),
                        Ok((el2, sc2)) => Ok((StmtV::If(c2, Box::new(th2), Some(Box::new(el2))), sc2)),
                    },
                },
            },
        },
        StmtV::While(c, b) => match r_expr(c, scopes) {
            Err(err) => Err(err),
            Ok(c2) => match r_stmt(*b, scopes, in_fn) {
                Err(err) => Err(err),
                Ok((b2, sc1)) => Ok((StmtV::While(c2, Box::new(b2)), sc1)),
            },
        },
        StmtV::Func(n, ps, b) => {
            let sc1 = mark(scopes, n, true);
            if sc1.len() >= max_scopes() {
                Err(ResolveErrorV::TooDeep)
            } else {
                match r_stmt(*b, mark_all(sc1.push(Seq::empty()), ps), true) {
                    Err(err) => Err(err),
                    Ok((b2, sc2)) => Ok((StmtV::Func(n, ps, Box::new(b2)), sc2.drop_last())),
                }
            }
        },
        StmtV::Return(e) => {
            if !in_fn {
                Err(ResolveErrorV::ReturnOutsideFunction)
            } else {
                match r_oexpr(e, scopes) {
                    Err(err) => Err(err),
                    Ok(e2) => Ok((StmtV::Return(e2), scopes)),
                }
            }
        },
    }
}

pub open spec fn r_stmts(ss: Seq<StmtV>, scopes: Seq<ScopeV>, in_fn: bool) -> Result<
    (Seq<StmtV>, Seq<ScopeV>),
    ResolveErrorV,
>
    decreases ss,
{
    if ss.len() == 0 {
        Ok((Seq::empty(), scopes))
    } else {
        match r_stmt(ss[0], scopes, in_fn) {
            Err(err) => Err(err),
            Ok((s0, sc1)) => match r_stmts(ss.drop_first(), sc1, in_fn) {
                Err(err) => Err(err),
                Ok((rest, sc2)) => Ok((seq![s0] + rest, sc2)),
            },
        }
    }
}

} // verus!

verus! {

pub open spec fn scope_view(sc: Seq<(String, bool)>) -> ScopeV {
    Seq::new(sc.len(), |i: int| (sc[i].0@, sc[i].1))
}

pub open spec fn agrees_r<T: View>(r: Result<T, ResolveError>, s: Result<T::V, ResolveErrorV>) -> bool {
    match r {
        Ok(x) => s == Ok::<T::V, ResolveErrorV>(x@),
        Err(e) => s == Err::<T::V, ResolveErrorV>(e@),
    }
}

fn lookup_in(sc: &Vec<(String, bool)>, n: &String) -> (r: Option<bool>)
    ensures
        r == lookup(scope_view(sc@), n@),
{
    let mut i = sc.len();
    assert(scope_view(sc@).take(i as int) =~= scope_view(sc@));
    while i > 0
        invariant
            i <= sc.len(),
            lookup(scope_view(sc@), n@) == lookup(scope_view(sc@).take(i as int), n@),
        decreases i,
    {
        let ghost v = scope_view(sc@).take(i as int);
        assert(v.drop_last() =~= scope_view(sc@).take(i - 1));
        if sc[i - 1].0 == *n {
            return Some(sc[i - 1].1);
        }
        i = i - 1;
    }
    assert(scope_view(sc@).take(0) =~= Seq::<(Seq<char>, bool)>::empty());
    None
}

/// Binds variable uses to the local scope that declares them.
pub struct Resolver {
    scopes: Vec<Vec<(String, bool)>>,
    in_function: bool,
}

impl Resolver {
    /// The local scopes, innermost last.
    pub closed spec fn scopes_v(&self) -> Seq<ScopeV> {
        Seq::new(self.scopes.len() as nat, |i: int| scope_view(self.scopes[i]@))
    }

    /// Whether the statements being resolved stand inside a function.
    pub closed spec fn in_fn(&self) -> bool {
        self.in_function
    }

    pub closed spec fn wf(&self) -> bool {
        self.scopes.len() <= max_scopes()
    }

    pub fn new() -> (r: Self)
        ensures
            r.wf(),
            r.scopes_v() == Seq::<ScopeV>::empty(),
            !r.in_fn(),
    {
        let r = Resolver { scopes: Vec::new(), in_function: false };
        assert(r.scopes_v() =~= Seq::<ScopeV>::empty());
        r
    }

    fn mark_innermost(&mut self, n: &String, b: bool)
        requires
            old(self).wf(),
        ensures
            final(self).wf(),
            final(self).in_fn() == old(self).in_fn(),
            final(self).scopes_v() == mark(old(self).scopes_v(), n@, b),
    {
        match self.scopes.pop() {
            None => {
                assert(self.scopes_v() =~= old(self).scopes_v());
            },
            Some(mut sc) => {
                let ghost before = scope_view(sc@);
                sc.push((n.clone(), b));
                assert(scope_view(sc@) =~= before.push((n@, b)));
                self.scopes.push(sc);
                assert(self.scopes_v() =~= mark(old(self).scopes_v(), n@, b));
            },
        }
    }

    fn declare(&mut self, n: &String) -> (r: Result<(), ResolveError>)
        requires
            old(self).wf(),
        ensures
            final(self).wf(),
            final(self).in_fn() == old(self).in_fn(),
            ({
                let sc = old(self).scopes_v();
                if sc.len() > 0 && lookup(sc.last(), n@) is Some {
                    r matches Err(e) && e@ == ResolveErrorV::DuplicateInScope(n@)
                } else {
                    r is Ok && final(self).scopes_v() == mark(sc, n@, false)
                }
            }),
    {
        let len = self.scopes.len();
        if len > 0 {
            if lookup_in(&self.scopes[len - 1], n).is_some() {
                return Err(ResolveError::DuplicateInScope(n.clone()));
            }
        }
        self.mark_innermost(n, false);
        Ok(())
    }

    fn define(&mut self, n: &String)
        requires
            old(self).wf(),
        ensures
            final(self).wf(),
            final(self).in_fn() == old(self).in_fn(),
            final(self).scopes_v() == mark(old(self).scopes_v(), n@, true),
    {
        self.mark_innermost(n, true)
    }

    fn begin_scope(&mut self) -> (r: Result<(), ResolveError>)
        requires
            old(self).wf(),
        ensures
            final(self).wf(),
            final(self).in_fn() == old(self).in_fn(),
            if old(self).scopes_v().len() >= max_scopes() {
                r matches Err(e) && e@ == ResolveErrorV::TooDeep
            } else {
                r is Ok && final(self).scopes_v() == old(self).scopes_v().push(Seq::empty())
            },
    {
        if self.scopes.len() >= isize::MAX as usize {
            return Err(ResolveError::TooDeep);
        }
        self.scopes.push(Vec::new());
        assert(scope_view(Seq::<(String, bool)>::empty()) =~= Seq::<(Seq<char>, bool)>::empty());
        assert(self.scopes_v() =~= old(self).scopes_v().push(Seq::empty()));
        Ok(())
    }

    fn end_scope(&mut self)
        requires
            old(self).wf(),
            old(self).scopes_v().len() > 0,
        ensures
            final(self).wf(),
            final(self).in_fn() == old(self).in_fn(),
            final(self).scopes_v() == old(self).scopes_v().drop_last(),
    {
        self.scopes.pop();
        assert(self.scopes_v() =~= old(self).scopes_v().drop_last());
    }

    fn depth_of(&self, n: &String) -> (r: Option<usize>)
        requires
            self.wf(),
        ensures
            match find_depth(self.scopes_v(), n@) {
                Some(x) => r matches Some(d) && d as int == x && d < self.scopes.len(),
                None => r is None,
            },
    {
        let len = self.scopes.len();
        let mut i = len;
        let mut d: usize = 0;
        assert(self.scopes_v().take(i as int) =~= self.scopes_v());
        while i > 0
            invariant
                i <= len == self.scopes.len(),
                d == len - i,
                find_depth(self.scopes_v(), n@) == match find_depth(
                    self.scopes_v().take(i as int),
                    n@,
                ) {
                    Some(x) => Some((x + d) as nat),
                    None => None::<nat>,
                },
            decreases i,
        {
            let ghost v = self.scopes_v().take(i as int);
            assert(v.drop_last() =~= self.scopes_v().take(i - 1));
            if lookup_in(&self.scopes[i - 1], n).is_some() {
                return Some(d);
            }
            i = i - 1;
            d = d + 1;
        }
        assert(self.scopes_v().take(0) =~= Seq::<ScopeV>::empty());
        None
    }

    /// `v` bound to the nearest local scope that holds its name.
    fn resolve_local(&self, v: Variable) -> (r: Variable)
        requires
            self.wf(),
        ensures
            r@ == bind(v@, self.scopes_v()),
    {
        match self.depth_of(&v.name) {
            Some(d) => Variable { name: v.name, depth: d as isize },
            None => v,
        }
    }

    fn resolve_expr(&self, e: Expr) -> (r: Result<Expr, ResolveError>)
        requires
            self.wf(),
        ensures
            agrees_r(r, r_expr(e@, self.scopes_v())),
        decreases e,
    {
        match e {
            Expr::Asgn(v, x) => {
                let x2 = match self.resolve_expr(*x) {
                    Err(err) => {
                        return Err(err);
                    },
                    Ok(x2) => x2,
                };
                Ok(Expr::Asgn(self.resolve_local(v), Box::new(x2)))
            },
            Expr::Call(c, args) => {
                proof {
                    crate::ast::lemma_call_view(*c, args);
                }
                let ghost cv = (*c)@;
                let c2 = match self.resolve_expr(*c) {
                    Err(err) => {
                        return Err(err);
                    },
                    Ok(c2) => c2,
                };
                let ghost orig = args@;
                let mut rest = args;
                let mut out: Vec<Expr> = Vec::new();
                let ghost mut k: int = 0;
                assert(exprs_view(out@) =~= Seq::<ExprV>::empty());
                assert(rest@ =~= orig.subrange(0, orig.len() as int));
                while rest.len() > 0
                    invariant
                        self.wf(),
                        0 <= k <= orig.len(),
                        r_expr(cv, self.scopes_v()) == Ok::<ExprV, ResolveErrorV>(c2@),
                        e@ == ExprV::Call(Box::new(cv), exprs_view(orig)),
                        rest@ == orig.subrange(k, orig.len() as int),
                        r_exprs(exprs_view(orig), self.scopes_v()) == match r_exprs(
                            exprs_view(rest@),
                            self.scopes_v(),
                        ) {
                            Ok(x) => Ok(exprs_view(out@) + x),
                            Err(err) => Err::<Seq<ExprV>, ResolveErrorV>(err),
                        },
                        forall|i: int| 0 <= i < orig.len() ==> decreases_to!(e => #[trigger] orig[i]),
                    decreases rest.len(),
                {
                    let ghost rv = exprs_view(rest@);
                    let a = rest.remove(0);
                    assert(exprs_view(rest@) =~= rv.drop_first());
                    assert(a == orig[k]);
                    assert(rv[0] == a@);
                    let a2 = match self.resolve_expr(a) {
                        Err(err) => {
                            assert(r_exprs(rv, self.scopes_v()) == Err::<Seq<ExprV>, ResolveErrorV>(
                                err@,
                            ));
                            return Err(err);
                        },
                        Ok(a2) => a2,
                    };
                    let ghost before = exprs_view(out@);
                    out.push(a2);
                    assert(exprs_view(out@) =~= before.push(a2@));
                    assert forall|x: Seq<ExprV>| before + (seq![a2@] + x) == before.push(a2@) + x by {
                        assert(before + (seq![a2@] + x) =~= before.push(a2@) + x);
                    }
                    proof {
                        k = k + 1;
                    }
                }
                assert(exprs_view(rest@) =~= Seq::<ExprV>::empty());
                assert(exprs_view(out@) + Seq::<ExprV>::empty() =~= exprs_view(out@));
                proof {
                    crate::ast::lemma_call_view(c2, out);
                }
                Ok(Expr::Call(Box::new(c2), out))
            },
            Expr::And(l, r) => match self.resolve_expr(*l) {
                Err(err) => Err(err),
                Ok(l2) => match self.resolve_expr(*r) {
                    Err(err) => Err(err),
                    Ok(r2) => Ok(Expr::And(Box::new(l2), Box::new(r2))),
                },
            },
            Expr::Or(l, r) => match self.resolve_expr(*l) {
                Err(err) => Err(err),
                Ok(l2) => match self.resolve_expr(*r) {
                    Err(err) => Err(err),
                    Ok(r2) => Ok(Expr::Or(Box::new(l2), Box::new(r2))),
                },
            },
            Expr::Eq(l, r) => match self.resolve_expr(*l) {
                Err(err) => Err(err),
                Ok(l2) => match self.resolve_expr(*r) {
                    Err(err) => Err(err),
                    Ok(r2) => Ok(Expr::Eq(Box::new(l2), Box::new(r2))),
                },
            },
            Expr::Ne(l, r) => match self.resolve_expr(*l) {
                Err(err) => Err(err),
                Ok(l2) => match self.resolve_expr(*r) {
                    Err(err) => Err(err),
                    Ok(r2) => Ok(Expr::Ne(Box::new(l2), Box::new(r2))),
                },
            },
            Expr::Gt(l, r) => match self.resolve_expr(*l) {
                Err(err) => Err(err),
                Ok(l2) => match self.resolve_expr(*r) {
                    Err(err) => Err(err),
                    Ok(r2) => Ok(Expr::Gt(Box::new(l2), Box::new(r2))),
                },
            },
            Expr::Ge(l, r) => match self.resolve_expr(*l) {
                Err(err) => Err(err),
                Ok(l2) => match self.resolve_expr(*r) {
                    Err(err) => Err(err),
                    Ok(r2) => Ok(Expr::Ge(Box::new(l2), Box::new(r2))),
                },
            },
            Expr::Lt(l, r) => match self.resolve_expr(*l) {
                Err(err) => Err(err),
                Ok(l2) => match self.resolve_expr(*r) {
                    Err(err) => Err(err),
                    Ok(r2) => Ok(Expr::Lt(Box::new(l2), Box::new(r2))),
                },
            },
            Expr::Le(l, r) => match self.resolve_expr(*l) {
                Err(err) => Err(err),
                Ok(l2) => match self.resolve_expr(*r) {
                    Err(err) => Err(err),
                    Ok(r2) => Ok(Expr::Le(Box::new(l2), Box::new(r2))),
                },
            },
            Expr::Add(l, r) => match self.resolve_expr(*l) {
                Err(err) => Err(err),
                Ok(l2) => match self.resolve_expr(*r) {
                    Err(err) => Err(err),
                    Ok(r2) => Ok(Expr::Add(Box::new(l2), Box::new(r2))),
                },
            },
            Expr::Sub(l, r) => match self.resolve_expr(*l) {
                Err(err) => Err(err),
                Ok(l2) => match self.resolve_expr(*r) {
                    Err(err) => Err(err),
                    Ok(r2) => Ok(Expr::Sub(Box::new(l2), Box::new(r2))),
                },
            },
            Expr::Mul(l, r) => match self.resolve_expr(*l) {
                Err(err) => Err(err),
                Ok(l2) => match self.resolve_expr(*r) {
                    Err(err) => Err(err),
                    Ok(r2) => Ok(Expr::Mul(Box::new(l2), Box::new(r2))),
                },
            },
            Expr::Div(l, r) => match self.resolve_expr(*l) {
                Err(err) => Err(err),
                Ok(l2) => match self.resolve_expr(*r) {
                    Err(err) => Err(err),
                    Ok(r2) => Ok(Expr::Div(Box::new(l2), Box::new(r2))),
                },
            },
            Expr::Not(x) => match self.resolve_expr(*x) {
                Err(err) => Err(err),
                Ok(x2) => Ok(Expr::Not(Box::new(x2))),
            },
            Expr::Opp(x) => match self.resolve_expr(*x) {
                Err(err) => Err(err),
                Ok(x2) => Ok(Expr::Opp(Box::new(x2))),
            },
            Expr::Lit(l) => Ok(Expr::Lit(l)),
            Expr::Var(v) => {
                let len = self.scopes.len();
                if len > 0 {
                    if let Some(false) = lookup_in(&self.scopes[len - 1], &v.name) {
                        return Err(ResolveError::SelfReferentialInitializer(v.name));
                    }
                }
                Ok(Expr::Var(self.resolve_local(v)))
            },
        }
    }
}

} // verus!

verus! {

pub open spec fn stmt_done(
    r: Result<Stmt, ResolveError>,
    s: StmtV,
    pre: Resolver,
    post: Resolver,
) -> bool {
    match r_stmt(s, pre.scopes_v(), pre.in_fn()) {
        Ok((s2, sc2)) => r matches Ok(x) && x@ == s2 && post.scopes_v() == sc2 && post.in_fn()
            == pre.in_fn() && sc2.len() == pre.scopes_v().len(),
        Err(e) => r matches Err(x) && x@ == e,
    }
}

pub open spec fn stmts_done(
    r: Result<Vec<Stmt>, ResolveError>,
    ss: Seq<StmtV>,
    pre: Resolver,
    post: Resolver,
) -> bool {
    match r_stmts(ss, pre.scopes_v(), pre.in_fn()) {
        Ok((ss2, sc2)) => r matches Ok(x) && stmts_view(x@) == ss2 && post.scopes_v() == sc2
            && post.in_fn() == pre.in_fn() && sc2.len() == pre.scopes_v().len(),
        Err(e) => r matches Err(x) && x@ == e,
    }
}

impl Resolver {
    fn resolve_oexpr(&self, e: Option<Expr>) -> (r: Result<Option<Expr>, ResolveError>)
        requires
            self.wf(),
        ensures
            match r_oexpr(crate::parser::oexpr_view(e), self.scopes_v()) {
                Ok(x) => r matches Ok(y) && crate::parser::oexpr_view(y) == x,
                Err(err) => r matches Err(y) && y@ == err,
            },
    {
        match e {
            None => Ok(None),
            Some(x) => match self.resolve_expr(x) {
                Err(err) => Err(err),
                Ok(x2) => Ok(Some(x2)),
            },
        }
    }

    fn resolve_stmts(&mut self, v: Vec<Stmt>) -> (r: Result<Vec<Stmt>, ResolveError>)
        requires
            old(self).wf(),
        ensures
            final(self).wf(),
            stmts_done(r, stmts_view(v@), *old(self), *final(self)),
        decreases v,
    {
        let ghost orig = v@;
        let ghost sc0 = self.scopes_v();
        let ghost f0 = self.in_fn();
        let mut rest = v;
        let mut out: Vec<Stmt> = Vec::new();
        let ghost mut k: int = 0;
        assert(stmts_view(out@) =~= Seq::<StmtV>::empty());
        assert(rest@ =~= orig.subrange(0, orig.len() as int));
        while rest.len() > 0
            invariant
                self.wf(),
                0 <= k <= orig.len(),
                rest@ == orig.subrange(k, orig.len() as int),
                orig == v@,
                sc0 == old(self).scopes_v(),
                f0 == old(self).in_fn(),
                self.in_fn() == f0,
                self.scopes_v().len() == sc0.len(),
                r_stmts(stmts_view(orig), sc0, f0) == match r_stmts(
                    stmts_view(rest@),
                    self.scopes_v(),
                    f0,
                ) {
                    Ok((x, sc)) => Ok((stmts_view(out@) + x, sc)),
                    Err(err) => Err::<(Seq<StmtV>, Seq<ScopeV>), ResolveErrorV>(err),
                },
                forall|i: int| 0 <= i < orig.len() ==> decreases_to!(v => #[trigger] orig[i]),
            decreases rest.len(),
        {
            let ghost rv = stmts_view(rest@);
            let ghost sc = self.scopes_v();
            let a = rest.remove(0);
            assert(stmts_view(rest@) =~= rv.drop_first());
            assert(a == orig[k]);
            assert(rv[0] == a@);
            let a2 = match self.resolve_stmt(a) {
                Err(err) => {
                    assert(r_stmts(rv, sc, f0) == Err::<(Seq<StmtV>, Seq<ScopeV>), ResolveErrorV>(
                        err@,
                    ));
                    return Err(err);
                },
                Ok(a2) => a2,
            };
            let ghost before = stmts_view(out@);
            out.push(a2);
            assert(stmts_view(out@) =~= before.push(a2@));
            assert forall|x: Seq<StmtV>| before + (seq![a2@] + x) == before.push(a2@) + x by {
                assert(before + (seq![a2@] + x) =~= before.push(a2@) + x);
            }
            proof {
                k = k + 1;
            }
        }
        assert(stmts_view(rest@) =~= Seq::<StmtV>::empty());
        assert(stmts_view(out@) + Seq::<StmtV>::empty() =~= stmts_view(out@));
        Ok(out)
    }

    fn resolve_stmt(&mut self, s: Stmt) -> (r: Result<Stmt, ResolveError>)
        requires
            old(self).wf(),
        ensures
            final(self).wf(),
            stmt_done(r, s@, *old(self), *final(self)),
        decreases s,
    {
        match s {
            Stmt::Block(b) => {
                proof {
                    crate::ast::lemma_block_view(b);
                }
                match self.begin_scope() {
                    Err(err) => {
                        return Err(err);
                    },
                    Ok(()) => {},
                }
                let b2 = match self.resolve_stmts(b) {
                    Err(err) => {
                        return Err(err);
                    },
                    Ok(b2) => b2,
                };
                self.end_scope();
                proof {
                    crate::ast::lemma_block_view(b2);
                }
                Ok(Stmt::Block(b2))
            },
            Stmt::Expr(e) => match self.resolve_expr(e) {
                Err(err) => Err(err),
                Ok(e2) => Ok(Stmt::Expr(e2)),
            },
            Stmt::Print(e) => match self.resolve_expr(e) {
                Err(err) => Err(err),
                Ok(e2) => Ok(Stmt::Print(e2)),
            },
            Stmt::Decl(name, init) => {
                match self.declare(&name) {
                    Err(err) => {
                        return Err(err);
                    },
                    Ok(()) => {},
                }
                let init2 = match self.resolve_oexpr(init) {
                    Err(err) => {
                        return Err(err);
                    },
                    Ok(i2) => i2,
                };
                self.define(&name);
                Ok(Stmt::Decl(name, init2))
            },
            Stmt::If(c, th, el) => {
                let c2 = match self.resolve_expr(c) {
                    Err(err) => {
                        return Err(err);
                    },
                    Ok(c2) => c2,
                };
                let th2 = match self.resolve_stmt(*th) {
                    Err(err) => {
                        return Err(err);
                    },
                    Ok(t2) => t2,
                };
                match el {
                    None => Ok(Stmt::If(c2, Box::new(th2), None)),
                    Some(e) => match self.resolve_stmt(*e) {
                        Err(err) => Err(err),
                        Ok(e2) => Ok(Stmt::If(c2, Box::new(th2), Some(Box::new(e2)))),
                    },
                }
            },
            Stmt::While(c, b) => {
                let c2 = match self.resolve_expr(c) {
                    Err(err) => {
                        return Err(err);
                    },
                    Ok(c2) => c2,
                };
                match self.resolve_stmt(*b) {
                    Err(err) => Err(err),
                    Ok(b2) => Ok(Stmt::While(c2, Box::new(b2))),
                }
            },
            Stmt::Func(name, params, body) => {
                let ghost ps = names_view(params@);
                self.define(&name);
                let enclosing = self.in_function;
                match self.begin_scope() {
                    Err(err) => {
                        return Err(err);
                    },
                    Ok(()) => {},
                }
                self.in_function = true;
                let ghost start = self.scopes_v();
                let mut i: usize = 0;
                assert(ps.subrange(0, ps.len() as int) =~= ps);
                while i < params.len()
                    invariant
                        self.wf(),
                        i <= params.len(),
                        ps == names_view(params@),
                        self.in_fn(),
                        self.scopes_v().len() == start.len(),
                        mark_all(start, ps) == mark_all(
                            self.scopes_v(),
                            ps.subrange(i as int, ps.len() as int),
                        ),
                    decreases params.len() - i,
                {
                    let ghost cur = self.scopes_v();
                    self.define(&params[i]);
                    assert(ps.subrange(i as int, ps.len() as int).drop_first() =~= ps.subrange(
                        i + 1,
                        ps.len() as int,
                    ));
                    i = i + 1;
                }
                assert(ps.subrange(i as int, ps.len() as int) =~= Seq::<Seq<char>>::empty());
                let body2 = match self.resolve_stmt(*body) {
                    Err(err) => {
                        return Err(err);
                    },
                    Ok(b2) => b2,
                };
                self.end_scope();
                self.in_function = enclosing;
                Ok(Stmt::Func(name, params, Box::new(body2)))
            },
            Stmt::Return(e) => {
                if !self.in_function {
                    return Err(ResolveError::ReturnOutsideFunction);
                }
                match self.resolve_oexpr(e) {
                    Err(err) => Err(err),
                    Ok(e2) => Ok(Stmt::Return(e2)),
                }
            },
        }
    }

    /// Binds every variable use of `prog`, in place. On an error `prog` is
    /// left empty: no half-resolved program is handed on.
    pub fn resolve(&mut self, prog: &mut Prog) -> (r: Result<(), ResolveError>)
        requires
            old(self).wf(),
        ensures
            final(self).wf(),
            match r_stmts(old(prog)@, old(self).scopes_v(), old(self).in_fn()) {
                Ok((ss, sc)) => r is Ok && final(prog)@ == ss && final(self).scopes_v() == sc,
                Err(e) => r matches Err(x) && x@ == e && final(prog).stmts@.len() == 0,
            },
    {
        let mut stmts: Vec<Stmt> = Vec::new();
        std::mem::swap(&mut stmts, &mut prog.stmts);
        match self.resolve_stmts(stmts) {
            Ok(v) => {
                prog.stmts = v;
                Ok(())
            },
            Err(e) => Err(e),
        }
    }
}

/// Binds every variable use of a whole program, which starts outside any
/// function and any local scope.
pub fn resolve_program(prog: &mut Prog) -> (r: Result<(), ResolveError>)
    ensures
        match r_stmts(old(prog)@, Seq::empty(), false) {
            Ok((ss, sc)) => r is Ok && final(prog)@ == ss,
            Err(e) => r matches Err(x) && x@ == e,
        },
{
    let mut r = Resolver::new();
    r.resolve(prog)
}

} // verus!

verus! {

proof fn lemma_expr_idem(e: ExprV, scopes: Seq<ScopeV>)
    ensures
        r_expr(e, scopes) matches Ok(e2) ==> r_expr(e2, scopes) == Ok::<ExprV, ResolveErrorV>(e2),
    decreases e,
{
    match e {
        ExprV::Asgn(v, x) => {
            lemma_expr_idem(*x, scopes);
        },
        ExprV::Call(c, args) => {
            lemma_expr_idem(*c, scopes);
            lemma_exprs_idem(args, scopes);
        },
        ExprV::Bin(op, l, r) => {
            lemma_expr_idem(*l, scopes);
            lemma_expr_idem(*r, scopes);
        },
        ExprV::Not(x) => {
            lemma_expr_idem(*x, scopes);
        },
        ExprV::Opp(x) => {
            lemma_expr_idem(*x, scopes);
        },
        ExprV::Lit(_) => {},
        ExprV::Var(v) => {},
    }
}

proof fn lemma_exprs_idem(es: Seq<ExprV>, scopes: Seq<ScopeV>)
    ensures
        r_exprs(es, scopes) matches Ok(es2) ==> r_exprs(es2, scopes) == Ok::<
            Seq<ExprV>,
            ResolveErrorV,
        >(es2),
    decreases es,
{
    if es.len() > 0 {
        lemma_expr_idem(es[0], scopes);
        lemma_exprs_idem(es.drop_first(), scopes);
        if let Ok(es2) = r_exprs(es, scopes) {
            let e0 = r_expr(es[0], scopes)->Ok_0;
            let rest = r_exprs(es.drop_first(), scopes)->Ok_0;
            assert(es2 == seq![e0] + rest);
            assert(es2[0] == e0);
            assert(es2.drop_first() =~= rest);
        }
    }
}

proof fn lemma_oexpr_idem(e: Option<ExprV>, scopes: Seq<ScopeV>)
    ensures
        r_oexpr(e, scopes) matches Ok(e2) ==> r_oexpr(e2, scopes) == Ok::<
            Option<ExprV>,
            ResolveErrorV,
        >(e2),
{
    if let Some(x) = e {
        lemma_expr_idem(x, scopes);
    }
}

proof fn lemma_stmt_idem(s: StmtV, scopes: Seq<ScopeV>, in_fn: bool)
    ensures
        r_stmt(s, scopes, in_fn) matches Ok((s2, sc2)) ==> r_stmt(s2, scopes, in_fn) == Ok::<
            (StmtV, Seq<ScopeV>),
            ResolveErrorV,
        >((s2, sc2)),
    decreases s,
{
    match s {
        StmtV::Block(ss) => {
            lemma_stmts_idem(ss, scopes.push(Seq::empty()), in_fn);
        },
        StmtV::Expr(e) => {
            lemma_expr_idem(e, scopes);
        },
        StmtV::Print(e) => {
            lemma_expr_idem(e, scopes);
        },
        StmtV::Decl(n, init) => {
            lemma_oexpr_idem(init, mark(scopes, n, false));
        },
        StmtV::If(c, th, el) => {
            lemma_expr_idem(c, scopes);
            lemma_stmt_idem(*th, scopes, in_fn);
            if let Ok((th2, sc1)) = r_stmt(*th, scopes, in_fn) {
                if let Some(x) = el {
                    lemma_stmt_idem(*x, sc1, in_fn);
                }
            }
        },
        StmtV::While(c, b) => {
            lemma_expr_idem(c, scopes);
            lemma_stmt_idem(*b, scopes, in_fn);
        },
        StmtV::Func(n, ps, b) => {
            let sc1 = mark(scopes, n, true);
            lemma_stmt_idem(*b, mark_all(sc1.push(Seq::empty()), ps), true);
        },
        StmtV::Return(e) => {
            lemma_oexpr_idem(e, scopes);
        },
    }
}

proof fn lemma_stmts_idem(ss: Seq<StmtV>, scopes: Seq<ScopeV>, in_fn: bool)
    ensures
        r_stmts(ss, scopes, in_fn) matches Ok((ss2, sc2)) ==> r_stmts(ss2, scopes, in_fn) == Ok::<
            (Seq<StmtV>, Seq<ScopeV>),
            ResolveErrorV,
        >((ss2, sc2)),
    decreases ss,
{
    if ss.len() > 0 {
        lemma_stmt_idem(ss[0], scopes, in_fn);
        if let Ok((s0, sc1)) = r_stmt(ss[0], scopes, in_fn) {
            lemma_stmts_idem(ss.drop_first(), sc1, in_fn);
            if let Ok((ss2, sc2)) = r_stmts(ss, scopes, in_fn) {
                let rest = r_stmts(ss.drop_first(), sc1, in_fn)->Ok_0;
                assert(ss2[0] == s0);
                assert(ss2.drop_first() =~= rest.0);
            }
        }
    }
}

/// Resolving an already resolved program is a no-op: the same statements,
/// with the same depths, and the same scopes after them.
pub proof fn lemma_resolve_idempotent(prog: Seq<StmtV>, scopes: Seq<ScopeV>, in_fn: bool)
    ensures
        match r_stmts(prog, scopes, in_fn) {
            Ok((resolved, after)) => r_stmts(resolved, scopes, in_fn) == Ok::<
                (Seq<StmtV>, Seq<ScopeV>),
                ResolveErrorV,
            >((resolved, after)),
            Err(_) => true,
        },
{
    lemma_stmts_idem(prog, scopes, in_fn);
}

} // verus!
