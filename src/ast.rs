use vstd::prelude::*;

verus! {

/// A literal as written in the source. A number keeps its lexeme.
#[derive(PartialEq, Debug)]
pub enum Literal {
    Number(String),
    Boolean(bool),
    String(String),
    Nil,
}

/// A use of a variable. A negative `depth` means "look in the global scope";
/// `depth >= 0` names the local scope that many levels out from the one that
/// is active where the use stands.
#[derive(PartialEq, Debug)]
pub struct Variable {
    pub name: String,
    pub depth: isize,
}

impl Variable {
    pub fn new(name: String) -> (r: Variable)
        ensures
            r.name == name,
            r.depth == -1,
    {
        Variable { name, depth: -1 }
    }
}

#[derive(PartialEq, Debug)]
pub enum Expr {
    Asgn(Variable, Box<Expr>),
    Call(Box<Expr>, Vec<Expr>),
    And(Box<Expr>, Box<Expr>),
    Or(Box<Expr>, Box<Expr>),
    Eq(Box<Expr>, Box<Expr>),
    Ne(Box<Expr>, Box<Expr>),
    Gt(Box<Expr>, Box<Expr>),
    Ge(Box<Expr>, Box<Expr>),
    Lt(Box<Expr>, Box<Expr>),
    Le(Box<Expr>, Box<Expr>),
    Add(Box<Expr>, Box<Expr>),
    Sub(Box<Expr>, Box<Expr>),
    Mul(Box<Expr>, Box<Expr>),
    Div(Box<Expr>, Box<Expr>),
    Not(Box<Expr>),
    Opp(Box<Expr>),
    Lit(Literal),
    Var(Variable),
}

#[derive(PartialEq, Debug)]
pub enum Stmt {
    Block(Vec<Stmt>),
    Expr(Expr),
    Print(Expr),
    Decl(String, Option<Expr>),
    If(Expr, Box<Stmt>, Option<Box<Stmt>>),
    While(Expr, Box<Stmt>),
    Func(String, Vec<String>, Box<Stmt>),
    Return(Option<Expr>),
}

/// A whole program: its statements in order.
#[derive(PartialEq, Debug)]
pub struct Prog {
    pub stmts: Vec<Stmt>,
}

/// The binary operators, as the mathematical form of an expression names
/// them.
#[derive(Clone, Copy, PartialEq, Eq, Debug, Structural)]
pub enum BinOp {
    And,
    Or,
    Eq,
    Ne,
    Gt,
    Ge,
    Lt,
    Le,
    Add,
    Sub,
    Mul,
    Div,
}

pub ghost enum LitV {
    Number(Seq<char>),
    Boolean(bool),
    Str(Seq<char>),
    Nil,
}

pub ghost struct VarV {
    pub name: Seq<char>,
    pub depth: int,
}

/// The mathematical form of an expression.
pub ghost enum ExprV {
    Asgn(VarV, Box<ExprV>),
    Call(Box<ExprV>, Seq<ExprV>),
    Bin(BinOp, Box<ExprV>, Box<ExprV>),
    Not(Box<ExprV>),
    Opp(Box<ExprV>),
    Lit(LitV),
    Var(VarV),
}

/// The mathematical form of a statement.
pub ghost enum StmtV {
    Block(Seq<StmtV>),
    Expr(ExprV),
    Print(ExprV),
    Decl(Seq<char>, Option<ExprV>),
    If(ExprV, Box<StmtV>, Option<Box<StmtV>>),
    While(ExprV, Box<StmtV>),
    Func(Seq<char>, Seq<Seq<char>>, Box<StmtV>),
    Return(Option<ExprV>),
}

impl View for Literal {
    type V = LitV;

    open spec fn view(&self) -> LitV {
        match self {
            Literal::Number(n) => LitV::Number(n@),
            Literal::Boolean(b) => LitV::Boolean(*b),
            Literal::String(s) => LitV::Str(s@),
            Literal::Nil => LitV::Nil,
        }
    }
}

impl View for Variable {
    type V = VarV;

    open spec fn view(&self) -> VarV {
        VarV { name: self.name@, depth: self.depth as int }
    }
}

pub open spec fn bin(op: BinOp, l: ExprV, r: ExprV) -> ExprV {
    ExprV::Bin(op, Box::new(l), Box::new(r))
}

impl Expr {
    pub open spec fn view_of(e: Expr) -> ExprV
        decreases e,
    {
        match e {
            Expr::Asgn(v, x) => ExprV::Asgn(v@, Box::new(Expr::view_of(*x))),
            Expr::Call(c, args) => ExprV::Call(
                Box::new(Expr::view_of(*c)),
                Seq::new(
                    args.len() as nat,
                    |i: int|
                        if 0 <= i < args.len() {
                            Expr::view_of(args[i])
                        } else {
                            ExprV::Lit(LitV::Nil)
                        },
                ),
            ),
            Expr::And(l, r) => bin(BinOp::And, Expr::view_of(*l), Expr::view_of(*r)),
            Expr::Or(l, r) => bin(BinOp::Or, Expr::view_of(*l), Expr::view_of(*r)),
            Expr::Eq(l, r) => bin(BinOp::Eq, Expr::view_of(*l), Expr::view_of(*r)),
            Expr::Ne(l, r) => bin(BinOp::Ne, Expr::view_of(*l), Expr::view_of(*r)),
            Expr::Gt(l, r) => bin(BinOp::Gt, Expr::view_of(*l), Expr::view_of(*r)),
            Expr::Ge(l, r) => bin(BinOp::Ge, Expr::view_of(*l), Expr::view_of(*r)),
            Expr::Lt(l, r) => bin(BinOp::Lt, Expr::view_of(*l), Expr::view_of(*r)),
            Expr::Le(l, r) => bin(BinOp::Le, Expr::view_of(*l), Expr::view_of(*r)),
            Expr::Add(l, r) => bin(BinOp::Add, Expr::view_of(*l), Expr::view_of(*r)),
            Expr::Sub(l, r) => bin(BinOp::Sub, Expr::view_of(*l), Expr::view_of(*r)),
            Expr::Mul(l, r) => bin(BinOp::Mul, Expr::view_of(*l), Expr::view_of(*r)),
            Expr::Div(l, r) => bin(BinOp::Div, Expr::view_of(*l), Expr::view_of(*r)),
            Expr::Not(x) => ExprV::Not(Box::new(Expr::view_of(*x))),
            Expr::Opp(x) => ExprV::Opp(Box::new(Expr::view_of(*x))),
            Expr::Lit(l) => ExprV::Lit(l@),
            Expr::Var(v) => ExprV::Var(v@),
        }
    }
}

/// The expression that applies `op` to `l` and `r`.
pub fn make_bin(op: BinOp, l: Expr, r: Expr) -> (e: Expr)
    ensures
        e@ == bin(op, l@, r@),
{
    let (l, r) = (Box::new(l), Box::new(r));
    match op {
        BinOp::And => Expr::And(l, r),
        BinOp::Or => Expr::Or(l, r),
        BinOp::Eq => Expr::Eq(l, r),
        BinOp::Ne => Expr::Ne(l, r),
        BinOp::Gt => Expr::Gt(l, r),
        BinOp::Ge => Expr::Ge(l, r),
        BinOp::Lt => Expr::Lt(l, r),
        BinOp::Le => Expr::Le(l, r),
        BinOp::Add => Expr::Add(l, r),
        BinOp::Sub => Expr::Sub(l, r),
        BinOp::Mul => Expr::Mul(l, r),
        BinOp::Div => Expr::Div(l, r),
    }
}

impl View for Expr {
    type V = ExprV;

    open spec fn view(&self) -> ExprV {
        Expr::view_of(*self)
    }
}

pub open spec fn names_view(v: Seq<String>) -> Seq<Seq<char>> {
    Seq::new(v.len(), |i: int| v[i]@)
}

impl Stmt {
    pub open spec fn view_of(s: Stmt) -> StmtV
        decreases s,
    {
        match s {
            Stmt::Block(b) => StmtV::Block(
                Seq::new(
                    b.len() as nat,
                    |i: int|
                        if 0 <= i < b.len() {
                            Stmt::view_of(b[i])
                        } else {
                            StmtV::Block(Seq::empty())
                        },
                ),
            ),
            Stmt::Expr(e) => StmtV::Expr(e@),
            Stmt::Print(e) => StmtV::Print(e@),
            Stmt::Decl(n, init) => StmtV::Decl(
                n@,
                match init {
                    Some(e) => Some(e@),
                    None => None,
                },
            ),
            Stmt::If(c, t, e) => StmtV::If(
                c@,
                Box::new(Stmt::view_of(*t)),
                match e {
                    Some(x) => Some(Box::new(Stmt::view_of(*x))),
                    None => None,
                },
            ),
            Stmt::While(c, b) => StmtV::While(c@, Box::new(Stmt::view_of(*b))),
            Stmt::Func(n, ps, b) => StmtV::Func(n@, names_view(ps@), Box::new(Stmt::view_of(*b))),
            Stmt::Return(e) => StmtV::Return(
                match e {
                    Some(x) => Some(x@),
                    None => None,
                },
            ),
        }
    }
}

impl View for Stmt {
    type V = StmtV;

    open spec fn view(&self) -> StmtV {
        Stmt::view_of(*self)
    }
}

pub open spec fn stmts_view(v: Seq<Stmt>) -> Seq<StmtV> {
    Seq::new(v.len(), |i: int| v[i]@)
}

pub open spec fn exprs_view(v: Seq<Expr>) -> Seq<ExprV> {
    Seq::new(v.len(), |i: int| v[i]@)
}

pub proof fn lemma_call_view(c: Expr, args: Vec<Expr>)
    ensures
        Expr::Call(Box::new(c), args)@ == ExprV::Call(Box::new(c@), exprs_view(args@)),
{
    let e = Expr::Call(Box::new(c), args);
    assert(Expr::view_of(e)->Call_1 =~= exprs_view(args@));
}

pub proof fn lemma_block_view(b: Vec<Stmt>)
    ensures
        Stmt::Block(b)@ == StmtV::Block(stmts_view(b@)),
{
    let s = Stmt::Block(b);
    assert(Stmt::view_of(s)->Block_0 =~= stmts_view(b@));
}

impl View for Prog {
    type V = Seq<StmtV>;

    open spec fn view(&self) -> Seq<StmtV> {
        stmts_view(self.stmts@)
    }
}

} // verus!

verus! {

pub open spec fn op_text(op: BinOp) -> Seq<char> {
    match op {
        BinOp::And => "and"@,
        BinOp::Or => "or"@,
        BinOp::Eq => "=="@,
        BinOp::Ne => "!="@,
        BinOp::Gt => ">"@,
        BinOp::Ge => ">="@,
        BinOp::Lt => "<"@,
        BinOp::Le => "<="@,
        BinOp::Add => "+"@,
        BinOp::Sub => "-"@,
        BinOp::Mul => "*"@,
        BinOp::Div => "/"@,
    }
}

/// Source text for an expression: every binary operation and assignment in
/// parentheses, so that the text parses back to the same tree.
pub open spec fn show_v(e: ExprV) -> Seq<char>
    decreases e,
{
    match e {
        ExprV::Asgn(v, x) => "("@ + v.name + " = "@ + show_v(*x) + ")"@,
        ExprV::Call(c, args) => show_v(*c) + "("@ + show_list(args) + ")"@,
        ExprV::Bin(op, l, r) => "("@ + show_v(*l) + " "@ + op_text(op) + " "@ + show_v(*r) + ")"@,
        ExprV::Not(x) => "!"@ + show_v(*x),
        ExprV::Opp(x) => "-"@ + show_v(*x),
        ExprV::Lit(LitV::Number(n)) => n,
        ExprV::Lit(LitV::Boolean(b)) => if b {
            "true"@
        } else {
            "false"@
        },
        ExprV::Lit(LitV::Str(s)) => "\""@ + s + "\""@,
        ExprV::Lit(LitV::Nil) => "nil"@,
        ExprV::Var(v) => v.name,
    }
}

/// The expressions of `es`, shown and separated by `", "`.
pub open spec fn show_list(es: Seq<ExprV>) -> Seq<char>
    decreases es,
{
    if es.len() == 0 {
        Seq::empty()
    } else if es.len() == 1 {
        show_v(es[0])
    } else {
        show_list(es.drop_last()) + ", "@ + show_v(es[es.len() - 1])
    }
}

fn op_str(op: BinOp) -> (r: &'static str)
    ensures
        r@ == op_text(op),
{
    match op {
        BinOp::And => "and",
        BinOp::Or => "or",
        BinOp::Eq => "==",
        BinOp::Ne => "!=",
        BinOp::Gt => ">",
        BinOp::Ge => ">=",
        BinOp::Lt => "<",
        BinOp::Le => "<=",
        BinOp::Add => "+",
        BinOp::Sub => "-",
        BinOp::Mul => "*",
        BinOp::Div => "/",
    }
}

impl Expr {
    /// The operator and operands of a binary expression.
    pub fn as_binary(&self) -> (r: Option<(BinOp, &Expr, &Expr)>)
        ensures
            match r {
                Some((op, l, rt)) => self@ == bin(op, l@, rt@) && decreases_to!(self => l)
                    && decreases_to!(self => rt),
                None => !(self@ is Bin),
            },
    {
        match self {
            Expr::And(l, r) => Some((BinOp::And, l, r)),
            Expr::Or(l, r) => Some((BinOp::Or, l, r)),
            Expr::Eq(l, r) => Some((BinOp::Eq, l, r)),
            Expr::Ne(l, r) => Some((BinOp::Ne, l, r)),
            Expr::Gt(l, r) => Some((BinOp::Gt, l, r)),
            Expr::Ge(l, r) => Some((BinOp::Ge, l, r)),
            Expr::Lt(l, r) => Some((BinOp::Lt, l, r)),
            Expr::Le(l, r) => Some((BinOp::Le, l, r)),
            Expr::Add(l, r) => Some((BinOp::Add, l, r)),
            Expr::Sub(l, r) => Some((BinOp::Sub, l, r)),
            Expr::Mul(l, r) => Some((BinOp::Mul, l, r)),
            Expr::Div(l, r) => Some((BinOp::Div, l, r)),
            _ => None,
        }
    }

    /// Source text for the expression, with every binary operation and
    /// assignment in parentheses.
    pub fn to_source(&self) -> (r: String)
        ensures
            r@ == show_v(self@),
        decreases self,
    {
        let mut out = String::new();
        match self.as_binary() {
            Some((op, l, r)) => {
                out.append("(");
                out.append(l.to_source().as_str());
                out.append(" ");
                out.append(op_str(op));
                out.append(" ");
                out.append(r.to_source().as_str());
                out.append(")");
                assert(out@ =~= show_v(self@));
                return out;
            },
            None => {},
        }
        match self {
            Expr::Asgn(v, x) => {
                out.append("(");
                out.append(v.name.as_str());
                out.append(" = ");
                out.append(x.to_source().as_str());
                out.append(")");
                assert(out@ =~= show_v(self@));
            },
            Expr::Call(c, args) => {
                proof {
                    lemma_call_view(**c, *args);
                }
                out.append(c.to_source().as_str());
                out.append("(");
                let ghost av = exprs_view(args@);
                let mut i: usize = 0;
                assert(av.take(0) =~= Seq::<ExprV>::empty());
                while i < args.len()
                    invariant
                        i <= args.len(),
                        av == exprs_view(args@),
                        out@ == show_v((**c)@) + "("@ + show_list(av.take(i as int)),
                        forall|j: int| 0 <= j < args.len() ==> decreases_to!(self => #[trigger] args@[j]),
                    decreases args.len() - i,
                {
                    if i > 0 {
                        out.append(", ");
                    }
                    out.append(args[i].to_source().as_str());
                    proof {
                        let t = av.take(i + 1);
                        assert(t.drop_last() =~= av.take(i as int));
                        assert(t[t.len() - 1] == args@[i as int]@);
                        if i == 0 {
                            assert(t.len() == 1);
                        }
                    }
                    i = i + 1;
                }
                out.append(")");
                assert(av.take(i as int) =~= av);
                assert(out@ =~= show_v(self@));
            },
            Expr::Not(x) => {
                out.append("!");
                out.append(x.to_source().as_str());
                assert(out@ =~= show_v(self@));
            },
            Expr::Opp(x) => {
                out.append("-");
                out.append(x.to_source().as_str());
                assert(out@ =~= show_v(self@));
            },
            Expr::Lit(Literal::Number(n)) => {
                out.append(n.as_str());
                assert(out@ =~= show_v(self@));
            },
            Expr::Lit(Literal::Boolean(b)) => {
                out.append(if *b { "true" } else { "false" });
                assert(out@ =~= show_v(self@));
            },
            Expr::Lit(Literal::String(s)) => {
                out.append("\"");
                out.append(s.as_str());
                out.append("\"");
                assert(out@ =~= show_v(self@));
            },
            Expr::Lit(Literal::Nil) => {
                out.append("nil");
                assert(out@ =~= show_v(self@));
            },
            Expr::Var(v) => {
                out.append(v.name.as_str());
                assert(out@ =~= show_v(self@));
            },
            _ => {},
        }
        out
    }
}

} // verus!
