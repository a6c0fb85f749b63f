use vstd::prelude::*;

use crate::ast::{
    bin, exprs_view, names_view, stmts_view, BinOp, Expr, ExprV, LitV, Literal, Prog, Stmt,
    StmtV, VarV, Variable,
};
use crate::cursor::Loc;
use crate::lexer::{Token, TokKind};

verus! {

/// Why a token sequence is not a program. The parser stops at the first one.
#[derive(PartialEq, Debug)]
pub enum ParserError {
    /// A token of kind `exp` was required; `fnd` is what stood there, `None`
    /// at the end of the input.
    Expected { exp: TokKind, fnd: Option<Token> },
    /// A name was required.
    ExpectedIdent { fnd: Option<Token> },
    /// The 256th parameter of a function stands at `loc`.
    TooManyParams { loc: Loc },
    /// The 256th argument of a call starts at `loc`.
    TooManyArgs { loc: Loc },
    /// The left-hand side of `=`, which starts at `loc`, is not a name.
    InvalidAsgn { loc: Loc },
    /// The parenthesis `open` is not closed; `hint` is where a closing one
    /// was looked for.
    Unmatched { open: Token, hint: Option<Loc> },
    /// `tok` cannot start an expression.
    Unexpected { tok: Token },
    /// The input ended inside an expression.
    EOF,
}

pub open spec fn kind_at(t: Seq<Token>, p: int, k: TokKind) -> bool {
    0 <= p < t.len() && t[p].kind == k
}

pub open spec fn found(t: Seq<Token>, p: int) -> Option<Token> {
    if 0 <= p < t.len() {
        Some(t[p])
    } else {
        None
    }
}

pub open spec fn loc_of(t: Seq<Token>, p: int) -> Option<Loc> {
    if 0 <= p < t.len() {
        Some(t[p].loc)
    } else {
        None
    }
}

/// Whether `q` lies strictly after `p` and within the input: a parse that
/// ends there has consumed at least one token.
pub open spec fn advanced(t: Seq<Token>, p: int, q: int) -> bool {
    p < q <= t.len()
}

pub open spec fn s_consume(t: Seq<Token>, p: int, k: TokKind) -> Result<int, ParserError> {
    if kind_at(t, p, k) {
        Ok(p + 1)
    } else {
        Err(ParserError::Expected { exp: k, fnd: found(t, p) })
    }
}

pub open spec fn s_ident(t: Seq<Token>, p: int) -> Result<(Seq<char>, int), ParserError> {
    if 0 <= p < t.len() && t[p].kind is Ident {
        Ok((t[p].kind->Ident_0@, p + 1))
    } else {
        Err(ParserError::ExpectedIdent { fnd: found(t, p) })
    }
}

/// The expression that starts at token `p`, and the index just past it
/// (`expr -> asgn`).
pub open spec fn s_expr(t: Seq<Token>, p: int) -> Result<(ExprV, int), ParserError>
    decreases t.len() - p, 13int,
{
    s_asgn(t, p)
}

/// `asgn -> IDENT '=' asgn | logic`
pub open spec fn s_asgn(t: Seq<Token>, p: int) -> Result<(ExprV, int), ParserError>
    decreases t.len() - p, 12int,
{
    match s_log(t, p) {
        Err(e) => Err(e),
        Ok((target, q)) => {
            if kind_at(t, q, TokKind::Equal) && p <= q {
                match target {
                    ExprV::Var(v) => match s_asgn(t, q + 1) {
                        Err(e) => Err(e),
                        Ok((value, r)) => Ok((ExprV::Asgn(v, Box::new(value)), r)),
                    },
                    _ => Err(ParserError::InvalidAsgn { loc: t[p].loc }),
                }
            } else {
                Ok((target, q))
            }
        },
    }
}

pub open spec fn log_op(k: TokKind) -> Option<BinOp> {
    match k {
        TokKind::And => Some(BinOp::And),
        TokKind::Or => Some(BinOp::Or),
        _ => None,
    }
}

pub open spec fn cmp_op(k: TokKind) -> Option<BinOp> {
    match k {
        TokKind::BangEqual => Some(BinOp::Ne),
        TokKind::EqualEqual => Some(BinOp::Eq),
        TokKind::Less => Some(BinOp::Lt),
        TokKind::Greater => Some(BinOp::Gt),
        TokKind::LessEqual => Some(BinOp::Le),
        TokKind::GreaterEqual => Some(BinOp::Ge),
        _ => None,
    }
}

pub open spec fn term_op(k: TokKind) -> Option<BinOp> {
    match k {
        TokKind::Plus => Some(BinOp::Add),
        TokKind::Minus => Some(BinOp::Sub),
        _ => None,
    }
}

pub open spec fn factor_op(k: TokKind) -> Option<BinOp> {
    match k {
        TokKind::Star => Some(BinOp::Mul),
        TokKind::Slash => Some(BinOp::Div),
        _ => None,
    }
}

/// The operator of the left-associative level `lvl` (0: logic, 1: comparison,
/// 2: term, 3: factor) that token kind `k` stands for, if any.
pub open spec fn level_op(lvl: int, k: TokKind) -> Option<BinOp> {
    if lvl == 0 {
        log_op(k)
    } else if lvl == 1 {
        cmp_op(k)
    } else if lvl == 2 {
        term_op(k)
    } else {
        factor_op(k)
    }
}

/// An operand of level `lvl`: an expression of the next tighter level.
pub open spec fn s_operand(t: Seq<Token>, p: int, lvl: int) -> Result<(ExprV, int), ParserError>
    decreases t.len() - p, 2 * (4 - lvl) + 1,
{
    if 0 <= lvl < 3 {
        s_level(t, p, lvl + 1)
    } else if lvl == 3 {
        s_unary(t, p)
    } else {
        Err(ParserError::EOF)
    }
}

/// `level -> operand (op operand)*`, folded to the left.
pub open spec fn s_level(t: Seq<Token>, p: int, lvl: int) -> Result<(ExprV, int), ParserError>
    decreases t.len() - p, 2 * (4 - lvl) + 2,
{
    if 0 <= lvl <= 3 {
        match s_operand(t, p, lvl) {
            Err(e) => Err(e),
            Ok((lhs, q)) => {
                if advanced(t, p, q) {
                    s_level_tail(t, q, lvl, lhs)
                } else {
                    Err(ParserError::EOF)
                }
            },
        }
    } else {
        Err(ParserError::EOF)
    }
}

/// The rest of a level after `lhs`: each operator and operand that follow.
pub open spec fn s_level_tail(t: Seq<Token>, p: int, lvl: int, lhs: ExprV) -> Result<
    (ExprV, int),
    ParserError,
>
    decreases t.len() - p, 0int,
{
    if 0 <= p < t.len() && 0 <= lvl <= 3 && level_op(lvl, t[p].kind) is Some {
        match s_operand(t, p + 1, lvl) {
            Err(e) => Err(e),
            Ok((rhs, q)) => {
                if advanced(t, p, q) {
                    s_level_tail(t, q, lvl, bin(level_op(lvl, t[p].kind)->0, lhs, rhs))
                } else {
                    Err(ParserError::EOF)
                }
            },
        }
    } else {
        Ok((lhs, p))
    }
}

/// `logic -> cmp (('and' | 'or') cmp)*`
pub open spec fn s_log(t: Seq<Token>, p: int) -> Result<(ExprV, int), ParserError>
    decreases t.len() - p, 11int,
{
    s_level(t, p, 0)
}

/// `unary -> ('!' | '-') unary | call`
pub open spec fn s_unary(t: Seq<Token>, p: int) -> Result<(ExprV, int), ParserError>
    decreases t.len() - p, 2int,
{
    if kind_at(t, p, TokKind::Bang) {
        match s_unary(t, p + 1) {
            Err(e) => Err(e),
            Ok((a, q)) => Ok((ExprV::Not(Box::new(a)), q)),
        }
    } else if kind_at(t, p, TokKind::Minus) {
        match s_unary(t, p + 1) {
            Err(e) => Err(e),
            Ok((a, q)) => Ok((ExprV::Opp(Box::new(a)), q)),
        }
    } else {
        s_call(t, p)
    }
}

/// `call -> primary ('(' args? ')')*`
pub open spec fn s_call(t: Seq<Token>, p: int) -> Result<(ExprV, int), ParserError>
    decreases t.len() - p, 1int,
{
    match s_primary(t, p) {
        Err(e) => Err(e),
        Ok((callee, q)) => {
            if advanced(t, p, q) {
                s_call_tail(t, q, callee)
            } else {
                Err(ParserError::EOF)
            }
        },
    }
}

pub open spec fn s_call_tail(t: Seq<Token>, p: int, callee: ExprV) -> Result<
    (ExprV, int),
    ParserError,
>
    decreases t.len() - p, 0int,
{
    if kind_at(t, p, TokKind::LParen) {
        match s_args(t, p + 1) {
            Err(e) => Err(e),
            Ok((args, q)) => {
                if kind_at(t, q, TokKind::RParen) && p <= q {
                    s_call_tail(t, q + 1, ExprV::Call(Box::new(callee), args))
                } else {
                    Err(ParserError::Unmatched { open: t[p], hint: loc_of(t, q) })
                }
            },
        }
    } else {
        Ok((callee, p))
    }
}

/// `args -> expr (',' expr)*`, or nothing when `)` follows.
pub open spec fn s_args(t: Seq<Token>, p: int) -> Result<(Seq<ExprV>, int), ParserError>
    decreases t.len() - p, 14int,
{
    if 0 <= p < t.len() && t[p].kind != TokKind::RParen {
        match s_expr(t, p) {
            Err(e) => Err(e),
            Ok((a, q)) => {
                if advanced(t, p, q) {
                    s_args_tail(t, q, seq![a])
                } else {
                    Err(ParserError::EOF)
                }
            },
        }
    } else {
        Ok((Seq::empty(), p))
    }
}

pub open spec fn s_args_tail(t: Seq<Token>, p: int, acc: Seq<ExprV>) -> Result<
    (Seq<ExprV>, int),
    ParserError,
>
    decreases t.len() - p, 0int,
{
    if kind_at(t, p, TokKind::Comma) {
        match s_expr(t, p + 1) {
            Err(e) => Err(e),
            Ok((a, q)) => {
                if acc.len() + 1 > 255 {
                    Err(ParserError::TooManyArgs { loc: t[p + 1].loc })
                } else if advanced(t, p, q) {
                    s_args_tail(t, q, acc.push(a))
                } else {
                    Err(ParserError::EOF)
                }
            },
        }
    } else {
        Ok((acc, p))
    }
}

/// The literal or variable that token kind `k` stands for, if it is one.
pub open spec fn atom(k: TokKind) -> Option<ExprV> {
    match k {
        TokKind::Nil => Some(ExprV::Lit(LitV::Nil)),
        TokKind::True => Some(ExprV::Lit(LitV::Boolean(true))),
        TokKind::False => Some(ExprV::Lit(LitV::Boolean(false))),
        TokKind::Number(n) => Some(ExprV::Lit(LitV::Number(n@))),
        TokKind::String(s) => Some(ExprV::Lit(LitV::Str(s@))),
        TokKind::Ident(s) => Some(ExprV::Var(VarV { name: s@, depth: -1 })),
        _ => None,
    }
}

/// `primary -> 'true' | 'false' | 'nil' | NUMBER | STRING | IDENT | '(' expr ')'`
pub open spec fn s_primary(t: Seq<Token>, p: int) -> Result<(ExprV, int), ParserError>
    decreases t.len() - p, 0int,
{
    if !(0 <= p < t.len()) {
        Err(ParserError::EOF)
    } else if atom(t[p].kind) is Some {
        Ok((atom(t[p].kind)->0, p + 1))
    } else if t[p].kind == TokKind::LParen {
        match s_expr(t, p + 1) {
            Err(e) => Err(e),
            Ok((inner, q)) => {
                if kind_at(t, q, TokKind::RParen) {
                    Ok((inner, q + 1))
                } else {
                    Err(ParserError::Unmatched { open: t[p], hint: loc_of(t, q) })
                }
            },
        }
    } else {
        Err(ParserError::Unexpected { tok: t[p] })
    }
}

} // verus!

verus! {

/// Whether an exec result agrees with the grammar's result: the same error,
/// or the same tree ending at the same index.
pub open spec fn agrees(r: Result<(Expr, usize), ParserError>, s: Result<(ExprV, int), ParserError>) -> bool {
    match r {
        Ok((e, q)) => s == Ok::<(ExprV, int), ParserError>((e@, q as int)),
        Err(x) => s == Err::<(ExprV, int), ParserError>(x),
    }
}

pub open spec fn ends_after(r: Result<(Expr, usize), ParserError>, p: int, n: int) -> bool {
    r matches Ok((_, q)) ==> p < q <= n
}

/// Kinds that carry no text.
pub open spec fn plain(k: TokKind) -> bool {
    !(k is String || k is Number || k is Ident)
}

fn kind_is(k: &TokKind, want: &TokKind) -> (r: bool)
    requires
        plain(*want),
    ensures
        r == (*k == *want),
{
    match want {
        TokKind::And => matches!(k, TokKind::And),
        TokKind::Class => matches!(k, TokKind::Class),
        TokKind::Else => matches!(k, TokKind::Else),
        TokKind::False => matches!(k, TokKind::False),
        TokKind::Fn => matches!(k, TokKind::Fn),
        TokKind::For => matches!(k, TokKind::For),
        TokKind::If => matches!(k, TokKind::If),
        TokKind::Let => matches!(k, TokKind::Let),
        TokKind::Nil => matches!(k, TokKind::Nil),
        TokKind::Or => matches!(k, TokKind::Or),
        TokKind::Print => matches!(k, TokKind::Print),
        TokKind::Return => matches!(k, TokKind::Return),
        TokKind::This => matches!(k, TokKind::This),
        TokKind::True => matches!(k, TokKind::True),
        TokKind::While => matches!(k, TokKind::While),
        TokKind::LParen => matches!(k, TokKind::LParen),
        TokKind::RParen => matches!(k, TokKind::RParen),
        TokKind::LBrace => matches!(k, TokKind::LBrace),
        TokKind::RBrace => matches!(k, TokKind::RBrace),
        TokKind::Comma => matches!(k, TokKind::Comma),
        TokKind::Dot => matches!(k, TokKind::Dot),
        TokKind::Minus => matches!(k, TokKind::Minus),
        TokKind::Plus => matches!(k, TokKind::Plus),
        TokKind::Semicolon => matches!(k, TokKind::Semicolon),
        TokKind::Star => matches!(k, TokKind::Star),
        TokKind::Bang => matches!(k, TokKind::Bang),
        TokKind::Equal => matches!(k, TokKind::Equal),
        TokKind::Less => matches!(k, TokKind::Less),
        TokKind::Greater => matches!(k, TokKind::Greater),
        TokKind::Slash => matches!(k, TokKind::Slash),
        TokKind::BangEqual => matches!(k, TokKind::BangEqual),
        TokKind::EqualEqual => matches!(k, TokKind::EqualEqual),
        TokKind::LessEqual => matches!(k, TokKind::LessEqual),
        TokKind::GreaterEqual => matches!(k, TokKind::GreaterEqual),
        TokKind::Comment => matches!(k, TokKind::Comment),
        TokKind::Unexpected => matches!(k, TokKind::Unexpected),
        TokKind::Unterminated => matches!(k, TokKind::Unterminated),
        _ => false,
    }
}

fn peek_is(t: &Vec<Token>, p: usize, want: TokKind) -> (r: bool)
    requires
        plain(want),
    ensures
        r == kind_at(t@, p as int, want),
{
    p < t.len() && kind_is(&t[p].kind, &want)
}

fn found_at(t: &Vec<Token>, p: usize) -> (r: Option<Token>)
    ensures
        r == found(t@, p as int),
{
    if p < t.len() {
        Some(t[p].copy())
    } else {
        None
    }
}

fn loc_at_tok(t: &Vec<Token>, p: usize) -> (r: Option<Loc>)
    ensures
        r == loc_of(t@, p as int),
{
    if p < t.len() {
        Some(t[p].loc)
    } else {
        None
    }
}

/// Consumes a token of kind `want` at `p`, or reports what stood there.
pub fn consume(t: &Vec<Token>, p: usize, want: TokKind) -> (r: Result<usize, ParserError>)
    requires
        plain(want),
    ensures
        match r {
            Ok(q) => s_consume(t@, p as int, want) == Ok::<int, ParserError>(q as int),
            Err(e) => s_consume(t@, p as int, want) == Err::<int, ParserError>(e),
        },
{
    if p < t.len() && peek_is(t, p, want.copy()) {
        Ok(p + 1)
    } else {
        Err(ParserError::Expected { exp: want, fnd: found_at(t, p) })
    }
}

/// Consumes a name at `p`, or reports what stood there.
pub fn consume_ident(t: &Vec<Token>, p: usize) -> (r: Result<(String, usize), ParserError>)
    ensures
        match r {
            Ok((s, q)) => s_ident(t@, p as int) == Ok::<(Seq<char>, int), ParserError>(
                (s@, q as int),
            ),
            Err(e) => s_ident(t@, p as int) == Err::<(Seq<char>, int), ParserError>(e),
        },
{
    if p < t.len() {
        if let TokKind::Ident(s) = &t[p].kind {
            return Ok((s.clone(), p + 1));
        }
    }
    Err(ParserError::ExpectedIdent { fnd: found_at(t, p) })
}

fn level_op_of(lvl: u8, k: &TokKind) -> (r: Option<BinOp>)
    ensures
        r == level_op(lvl as int, *k),
{
    if lvl == 0 {
        match k {
            TokKind::And => Some(BinOp::And),
            TokKind::Or => Some(BinOp::Or),
            _ => None,
        }
    } else if lvl == 1 {
        match k {
            TokKind::BangEqual => Some(BinOp::Ne),
            TokKind::EqualEqual => Some(BinOp::Eq),
            TokKind::Less => Some(BinOp::Lt),
            TokKind::Greater => Some(BinOp::Gt),
            TokKind::LessEqual => Some(BinOp::Le),
            TokKind::GreaterEqual => Some(BinOp::Ge),
            _ => None,
        }
    } else if lvl == 2 {
        match k {
            TokKind::Plus => Some(BinOp::Add),
            TokKind::Minus => Some(BinOp::Sub),
            _ => None,
        }
    } else {
        match k {
            TokKind::Star => Some(BinOp::Mul),
            TokKind::Slash => Some(BinOp::Div),
            _ => None,
        }
    }
}

/// A recursive-descent parser over a sequence of tokens.
pub struct RecursiveDescent;

impl RecursiveDescent {
    /// Parses the expression that starts at token `p`; on success returns it
    /// with the index just past it.
    pub fn parse_expr(t: &Vec<Token>, p: usize) -> (r: Result<(Expr, usize), ParserError>)
        requires
            p <= t.len(),
        ensures
            agrees(r, s_expr(t@, p as int)),
            ends_after(r, p as int, t.len() as int),
        decreases t.len() - p, 13int,
    {
        Self::parse_asgn(t, p)
    }

    fn parse_asgn(t: &Vec<Token>, p: usize) -> (r: Result<(Expr, usize), ParserError>)
        requires
            p <= t.len(),
        ensures
            agrees(r, s_asgn(t@, p as int)),
            ends_after(r, p as int, t.len() as int),
        decreases t.len() - p, 12int,
    {
        assert(s_log(t@, p as int) == s_level(t@, p as int, 0));
        let (target, q) = match Self::parse_level(t, p, 0) {
            Err(e) => {
                return Err(e);
            },
            Ok(x) => x,
        };
        if peek_is(t, q, TokKind::Equal) {
            match target {
                Expr::Var(v) => match Self::parse_asgn(t, q + 1) {
                    Err(e) => Err(e),
                    Ok((value, r)) => Ok((Expr::Asgn(v, Box::new(value)), r)),
                },
                _ => Err(ParserError::InvalidAsgn { loc: t[p].loc }),
            }
        } else {
            Ok((target, q))
        }
    }

    fn parse_operand(t: &Vec<Token>, p: usize, lvl: u8) -> (r: Result<(Expr, usize), ParserError>)
        requires
            p <= t.len(),
            lvl <= 3,
        ensures
            agrees(r, s_operand(t@, p as int, lvl as int)),
            ends_after(r, p as int, t.len() as int),
        decreases t.len() - p, 2 * (4 - lvl) + 1,
    {
        if lvl < 3 {
            Self::parse_level(t, p, lvl + 1)
        } else {
            Self::parse_unary(t, p)
        }
    }

    /// One left-associative level of binary operators.
    fn parse_level(t: &Vec<Token>, p: usize, lvl: u8) -> (r: Result<(Expr, usize), ParserError>)
        requires
            p <= t.len(),
            lvl <= 3,
        ensures
            agrees(r, s_level(t@, p as int, lvl as int)),
            ends_after(r, p as int, t.len() as int),
        decreases t.len() - p, 2 * (4 - lvl) + 2,
    {
        let (mut lhs, mut q) = match Self::parse_operand(t, p, lvl) {
            Err(e) => {
                return Err(e);
            },
            Ok(x) => x,
        };
        loop
            invariant
                p < q <= t.len(),
                lvl <= 3,
                s_level(t@, p as int, lvl as int) == s_level_tail(t@, q as int, lvl as int, lhs@),
            decreases t.len() - q,
        {
            if q >= t.len() {
                return Ok((lhs, q));
            }
            match level_op_of(lvl, &t[q].kind) {
                None => {
                    return Ok((lhs, q));
                },
                Some(op) => match Self::parse_operand(t, q + 1, lvl) {
                    Err(e) => {
                        return Err(e);
                    },
                    Ok((rhs, q2)) => {
                        lhs = crate::ast::make_bin(op, lhs, rhs);
                        q = q2;
                    },
                },
            }
        }
    }

    fn parse_unary(t: &Vec<Token>, p: usize) -> (r: Result<(Expr, usize), ParserError>)
        requires
            p <= t.len(),
        ensures
            agrees(r, s_unary(t@, p as int)),
            ends_after(r, p as int, t.len() as int),
        decreases t.len() - p, 2int,
    {
        if peek_is(t, p, TokKind::Bang) {
            match Self::parse_unary(t, p + 1) {
                Err(e) => Err(e),
                Ok((a, q)) => Ok((Expr::Not(Box::new(a)), q)),
            }
        } else if peek_is(t, p, TokKind::Minus) {
            match Self::parse_unary(t, p + 1) {
                Err(e) => Err(e),
                Ok((a, q)) => Ok((Expr::Opp(Box::new(a)), q)),
            }
        } else {
            Self::parse_call(t, p)
        }
    }

    fn parse_call(t: &Vec<Token>, p: usize) -> (r: Result<(Expr, usize), ParserError>)
        requires
            p <= t.len(),
        ensures
            agrees(r, s_call(t@, p as int)),
            ends_after(r, p as int, t.len() as int),
        decreases t.len() - p, 1int,
    {
        let (mut callee, mut q) = match Self::parse_primary(t, p) {
            Err(e) => {
                return Err(e);
            },
            Ok(x) => x,
        };
        loop
            invariant
                p < q <= t.len(),
                s_call(t@, p as int) == s_call_tail(t@, q as int, callee@),
            decreases t.len() - q,
        {
            if !peek_is(t, q, TokKind::LParen) {
                return Ok((callee, q));
            }
            let (args, q2) = match Self::parse_args(t, q + 1) {
                Err(e) => {
                    return Err(e);
                },
                Ok(x) => x,
            };
            if peek_is(t, q2, TokKind::RParen) {
                proof {
                    crate::ast::lemma_call_view(callee, args);
                }
                callee = Expr::Call(Box::new(callee), args);
                q = q2 + 1;
            } else {
                return Err(ParserError::Unmatched { open: t[q].copy(), hint: loc_at_tok(t, q2) });
            }
        }
    }

    fn parse_args(t: &Vec<Token>, p: usize) -> (r: Result<(Vec<Expr>, usize), ParserError>)
        requires
            p <= t.len(),
        ensures
            match r {
                Ok((v, q)) => s_args(t@, p as int) == Ok::<(Seq<ExprV>, int), ParserError>(
                    (exprs_view(v@), q as int),
                ) && p <= q <= t.len(),
                Err(e) => s_args(t@, p as int) == Err::<(Seq<ExprV>, int), ParserError>(e),
            },
        decreases t.len() - p, 14int,
    {
        let mut args: Vec<Expr> = Vec::new();
        if p >= t.len() || kind_is(&t[p].kind, &TokKind::RParen) {
            assert(exprs_view(args@) =~= Seq::<ExprV>::empty());
            return Ok((args, p));
        }
        let (first, mut q) = match Self::parse_expr(t, p) {
            Err(e) => {
                return Err(e);
            },
            Ok(x) => x,
        };
        args.push(first);
        assert(exprs_view(args@) =~= seq![first@]);
        loop
            invariant
                p < q <= t.len(),
                args.len() <= 255,
                s_args(t@, p as int) == s_args_tail(t@, q as int, exprs_view(args@)),
            decreases t.len() - q,
        {
            if !peek_is(t, q, TokKind::Comma) {
                return Ok((args, q));
            }
            let (a, q2) = match Self::parse_expr(t, q + 1) {
                Err(e) => {
                    return Err(e);
                },
                Ok(x) => x,
            };
            if args.len() + 1 > 255 {
                return Err(ParserError::TooManyArgs { loc: t[q + 1].loc });
            }
            let ghost before = exprs_view(args@);
            args.push(a);
            assert(exprs_view(args@) =~= before.push(a@));
            q = q2;
        }
    }

    fn parse_primary(t: &Vec<Token>, p: usize) -> (r: Result<(Expr, usize), ParserError>)
        requires
            p <= t.len(),
        ensures
            agrees(r, s_primary(t@, p as int)),
            ends_after(r, p as int, t.len() as int),
        decreases t.len() - p, 0int,
    {
        if p >= t.len() {
            return Err(ParserError::EOF);
        }
        let e = match &t[p].kind {
            TokKind::Nil => Expr::Lit(Literal::Nil),
            TokKind::True => Expr::Lit(Literal::Boolean(true)),
            TokKind::False => Expr::Lit(Literal::Boolean(false)),
            TokKind::Number(n) => Expr::Lit(Literal::Number(n.clone())),
            TokKind::String(s) => Expr::Lit(Literal::String(s.clone())),
            TokKind::Ident(s) => Expr::Var(Variable::new(s.clone())),
            TokKind::LParen => {
                let (inner, q) = match Self::parse_expr(t, p + 1) {
                    Err(e) => {
                        return Err(e);
                    },
                    Ok(x) => x,
                };
                if peek_is(t, q, TokKind::RParen) {
                    return Ok((inner, q + 1));
                } else {
                    return Err(
                        ParserError::Unmatched { open: t[p].copy(), hint: loc_at_tok(t, q) },
                    );
                }
            },
            _ => {
                return Err(ParserError::Unexpected { tok: t[p].copy() });
            },
        };
        Ok((e, p + 1))
    }
}

} // verus!

verus! {

pub open spec fn oexpr_view(o: Option<Expr>) -> Option<ExprV> {
    match o {
        Some(e) => Some(e@),
        None => None,
    }
}

pub open spec fn ostmt_view(o: Option<Stmt>) -> Option<StmtV> {
    match o {
        Some(s) => Some(s@),
        None => None,
    }
}

/// `for (init cond; inc) body` as the loop it stands for:
/// `{ init while (cond) { body inc; } }`, where a missing `init` leaves out
/// the outer block and a block `body` takes `inc` as its last statement.
pub open spec fn desugar_for_v(init: Option<StmtV>, cond: ExprV, inc: Option<ExprV>, body: StmtV) -> StmtV {
    let body2 = match inc {
        None => body,
        Some(i) => match body {
            StmtV::Block(v) => StmtV::Block(v.push(StmtV::Expr(i))),
            b => StmtV::Block(seq![b, StmtV::Expr(i)]),
        },
    };
    let lp = StmtV::While(cond, Box::new(body2));
    match init {
        Some(s) => StmtV::Block(seq![s, lp]),
        None => lp,
    }
}

/// `decl -> varDecl | funDecl | stmt`
pub open spec fn s_decl(t: Seq<Token>, p: int) -> Result<(StmtV, int), ParserError>
    decreases t.len() - p, 21int,
{
    if kind_at(t, p, TokKind::Let) {
        s_var_decl(t, p + 1)
    } else if kind_at(t, p, TokKind::Fn) {
        s_fun_decl(t, p + 1)
    } else {
        s_stmt(t, p)
    }
}

/// `varDecl -> 'let' IDENT ('=' expr)? ';'`, from just after `let`.
pub open spec fn s_var_decl(t: Seq<Token>, p: int) -> Result<(StmtV, int), ParserError>
    decreases t.len() - p, 0int,
{
    match s_ident(t, p) {
        Err(e) => Err(e),
        Ok((name, q)) => {
            if kind_at(t, q, TokKind::Equal) {
                match s_expr(t, q + 1) {
                    Err(e) => Err(e),
                    Ok((init, r)) => match s_consume(t, r, TokKind::Semicolon) {
                        Err(e) => Err(e),
                        Ok(r2) => Ok((StmtV::Decl(name, Some(init)), r2)),
                    },
                }
            } else {
                match s_consume(t, q, TokKind::Semicolon) {
                    Err(e) => Err(e),
                    Ok(r2) => Ok((StmtV::Decl(name, None), r2)),
                }
            }
        },
    }
}

/// `funDecl -> 'fn' IDENT '(' params? ')' '{' block '}'`, from just after `fn`.
pub open spec fn s_fun_decl(t: Seq<Token>, p: int) -> Result<(StmtV, int), ParserError>
    decreases t.len() - p, 0int,
{
    match s_ident(t, p) {
        Err(e) => Err(e),
        Ok((name, q)) => match s_consume(t, q, TokKind::LParen) {
            Err(e) => Err(e),
            Ok(q1) => match s_params(t, q1) {
                Err(e) => Err(e),
                Ok((ps, q2)) => match s_consume(t, q2, TokKind::RParen) {
                    Err(e) => Err(e),
                    Ok(q3) => match s_consume(t, q3, TokKind::LBrace) {
                        Err(e) => Err(e),
                        Ok(q4) => {
                            if advanced(t, p, q4) {
                                match s_block(t, q4) {
                                    Err(e) => Err(e),
                                    Ok((b, q5)) => match s_consume(t, q5, TokKind::RBrace) {
                                        Err(e) => Err(e),
                                        Ok(q6) => Ok(
                                            (
                                                StmtV::Func(name, ps, Box::new(StmtV::Block(b))),
                                                q6,
                                            ),
                                        ),
                                    },
                                }
                            } else {
                                Err(ParserError::EOF)
                            }
                        },
                    },
                },
            },
        },
    }
}

/// `params -> IDENT (',' IDENT)*`, or nothing when `)` follows.
pub open spec fn s_params(t: Seq<Token>, p: int) -> Result<(Seq<Seq<char>>, int), ParserError> {
    if 0 <= p < t.len() && t[p].kind != TokKind::RParen {
        match s_ident(t, p) {
            Err(e) => Err(e),
            Ok((n, q)) => s_params_tail(t, q, seq![n]),
        }
    } else {
        Ok((Seq::empty(), p))
    }
}

pub open spec fn s_params_tail(t: Seq<Token>, p: int, acc: Seq<Seq<char>>) -> Result<
    (Seq<Seq<char>>, int),
    ParserError,
>
    decreases t.len() - p,
{
    if kind_at(t, p, TokKind::Comma) {
        match s_ident(t, p + 1) {
            Err(e) => Err(e),
            Ok((n, q)) => {
                if acc.len() + 1 > 255 {
                    Err(ParserError::TooManyParams { loc: t[p + 1].loc })
                } else {
                    s_params_tail(t, q, acc.push(n))
                }
            },
        }
    } else {
        Ok((acc, p))
    }
}

/// `block -> decl*`, up to a closing brace or the end of the input.
pub open spec fn s_block(t: Seq<Token>, p: int) -> Result<(Seq<StmtV>, int), ParserError>
    decreases t.len() - p, 23int,
{
    s_block_tail(t, p, Seq::empty())
}

pub open spec fn s_block_tail(t: Seq<Token>, p: int, acc: Seq<StmtV>) -> Result<
    (Seq<StmtV>, int),
    ParserError,
>
    decreases t.len() - p, 22int,
{
    if 0 <= p < t.len() && t[p].kind != TokKind::RBrace {
        match s_decl(t, p) {
            Err(e) => Err(e),
            Ok((st, q)) => {
                if advanced(t, p, q) {
                    s_block_tail(t, q, acc.push(st))
                } else {
                    Err(ParserError::EOF)
                }
            },
        }
    } else {
        Ok((acc, p))
    }
}

/// The statement that an `if` or `while` governs, from index `p` on; `o`
/// is the index of its keyword.
pub open spec fn s_inner(t: Seq<Token>, o: int, p: int) -> Result<(StmtV, int), ParserError>
    decreases t.len() - o, 0int,
{
    if advanced(t, o, p) {
        s_stmt(t, p)
    } else {
        Err(ParserError::EOF)
    }
}

/// `stmt -> blockStmt | printStmt | ifStmt | whileStmt | forStmt | returnStmt | exprStmt`
pub open spec fn s_stmt(t: Seq<Token>, p: int) -> Result<(StmtV, int), ParserError>
    decreases t.len() - p, 20int,
{
    if kind_at(t, p, TokKind::LBrace) {
        match s_block(t, p + 1) {
            Err(e) => Err(e),
            Ok((b, q)) => match s_consume(t, q, TokKind::RBrace) {
                Err(e) => Err(e),
                Ok(r) => Ok((StmtV::Block(b), r)),
            },
        }
    } else if kind_at(t, p, TokKind::Print) {
        match s_expr(t, p + 1) {
            Err(e) => Err(e),
            Ok((e, q)) => match s_consume(t, q, TokKind::Semicolon) {
                Err(x) => Err(x),
                Ok(r) => Ok((StmtV::Print(e), r)),
            },
        }
    } else if kind_at(t, p, TokKind::If) {
        match s_consume(t, p + 1, TokKind::LParen) {
            Err(e) => Err(e),
            Ok(q1) => match s_expr(t, q1) {
                Err(e) => Err(e),
                Ok((c, q2)) => match s_consume(t, q2, TokKind::RParen) {
                    Err(e) => Err(e),
                    Ok(q3) => match s_inner(t, p, q3) {
                        Err(e) => Err(e),
                        Ok((th, q4)) => {
                            if kind_at(t, q4, TokKind::Else) {
                                match s_inner(t, p, q4 + 1) {
                                    Err(e) => Err(e),
                                    Ok((el, q5)) => Ok(
                                        (StmtV::If(c, Box::new(th), Some(Box::new(el))), q5),
                                    ),
                                }
                            } else {
                                Ok((StmtV::If(c, Box::new(th), None), q4))
                            }
                        },
                    },
                },
            },
        }
    } else if kind_at(t, p, TokKind::While) {
        match s_consume(t, p + 1, TokKind::LParen) {
            Err(e) => Err(e),
            Ok(q1) => match s_expr(t, q1) {
                Err(e) => Err(e),
                Ok((c, q2)) => match s_consume(t, q2, TokKind::RParen) {
                    Err(e) => Err(e),
                    Ok(q3) => match s_inner(t, p, q3) {
                        Err(e) => Err(e),
                        Ok((b, q4)) => Ok((StmtV::While(c, Box::new(b)), q4)),
                    },
                },
            },
        }
    } else if kind_at(t, p, TokKind::For) {
        s_for(t, p + 1)
    } else if kind_at(t, p, TokKind::Return) {
        if kind_at(t, p + 1, TokKind::Semicolon) {
            Ok((StmtV::Return(None), p + 2))
        } else {
            match s_expr(t, p + 1) {
                Err(e) => Err(e),
                Ok((e, q)) => match s_consume(t, q, TokKind::Semicolon) {
                    Err(x) => Err(x),
                    Ok(r) => Ok((StmtV::Return(Some(e)), r)),
                },
            }
        }
    } else {
        match s_expr(t, p) {
            Err(e) => Err(e),
            Ok((e, q)) => match s_consume(t, q, TokKind::Semicolon) {
                Err(x) => Err(x),
                Ok(r) => Ok((StmtV::Expr(e), r)),
            },
        }
    }
}

/// The first clause of a `for`: a declaration, an expression statement or
/// nothing.
pub open spec fn s_for_init(t: Seq<Token>, p: int) -> Result<(Option<StmtV>, int), ParserError>
    decreases t.len() - p, 15int,
{
    if kind_at(t, p, TokKind::Let) {
        match s_var_decl(t, p + 1) {
            Err(e) => Err(e),
            Ok((d, q)) => Ok((Some(d), q)),
        }
    } else if kind_at(t, p, TokKind::Semicolon) {
        Ok((None, p + 1))
    } else {
        match s_expr(t, p) {
            Err(e) => Err(e),
            Ok((e, q)) => match s_consume(t, q, TokKind::Semicolon) {
                Err(x) => Err(x),
                Ok(r) => Ok((Some(StmtV::Expr(e)), r)),
            },
        }
    }
}

/// `forStmt -> 'for' '(' forInit expr? ';' expr? ')' stmt`, from just after
/// `for`, desugared.
pub open spec fn s_for(t: Seq<Token>, p: int) -> Result<(StmtV, int), ParserError>
    decreases t.len() - p, 16int,
{
    match s_consume(t, p, TokKind::LParen) {
        Err(e) => Err(e),
        Ok(q1) => match s_for_init(t, q1) {
            Err(e) => Err(e),
            Ok((init, q2)) => {
                let cond = if kind_at(t, q2, TokKind::Semicolon) {
                    Ok((ExprV::Lit(LitV::Boolean(true)), q2))
                } else {
                    s_expr(t, q2)
                };
                match cond {
                    Err(e) => Err(e),
                    Ok((c, q3)) => match s_consume(t, q3, TokKind::Semicolon) {
                        Err(e) => Err(e),
                        Ok(q4) => {
                            let inc = if kind_at(t, q4, TokKind::RParen) {
                                Ok((None::<ExprV>, q4))
                            } else {
                                match s_expr(t, q4) {
                                    Err(e) => Err(e),
                                    Ok((i, q)) => Ok((Some(i), q)),
                                }
                            };
                            match inc {
                                Err(e) => Err(e),
                                Ok((i, q5)) => match s_consume(t, q5, TokKind::RParen) {
                                    Err(e) => Err(e),
                                    Ok(q6) => {
                                        if advanced(t, p, q6) {
                                            match s_stmt(t, q6) {
                                                Err(e) => Err(e),
                                                Ok((body, q7)) => Ok(
                                                    (desugar_for_v(init, c, i, body), q7),
                                                ),
                                            }
                                        } else {
                                            Err(ParserError::EOF)
                                        }
                                    },
                                },
                            }
                        },
                    },
                }
            },
        },
    }
}

/// `program -> decl*`: the statements from index `p` on, after `acc`.
pub open spec fn s_program_tail(t: Seq<Token>, p: int, acc: Seq<StmtV>) -> Result<
    Seq<StmtV>,
    ParserError,
>
    decreases t.len() - p,
{
    if 0 <= p < t.len() {
        match s_decl(t, p) {
            Err(e) => Err(e),
            Ok((st, q)) => {
                if advanced(t, p, q) {
                    s_program_tail(t, q, acc.push(st))
                } else {
                    Err(ParserError::EOF)
                }
            },
        }
    } else {
        Ok(acc)
    }
}

/// The program that the whole token sequence `t` spells.
pub open spec fn s_program(t: Seq<Token>) -> Result<Seq<StmtV>, ParserError> {
    s_program_tail(t, 0, Seq::empty())
}

} // verus!

verus! {

pub open spec fn agrees_s(r: Result<(Stmt, usize), ParserError>, s: Result<(StmtV, int), ParserError>) -> bool {
    match r {
        Ok((st, q)) => s == Ok::<(StmtV, int), ParserError>((st@, q as int)),
        Err(x) => s == Err::<(StmtV, int), ParserError>(x),
    }
}

pub open spec fn ends_after_s(r: Result<(Stmt, usize), ParserError>, p: int, n: int) -> bool {
    r matches Ok((_, q)) ==> p < q <= n
}

/// The loop that `for (init cond; inc) body` stands for.
pub fn desugar_for(init: Option<Stmt>, cond: Expr, inc: Option<Expr>, body: Stmt) -> (r: Stmt)
    ensures
        r@ == desugar_for_v(ostmt_view(init), cond@, oexpr_view(inc), body@),
{
    let body = match inc {
        None => body,
        Some(i) => match body {
            Stmt::Block(mut v) => {
                let ghost before = stmts_view(v@);
                proof {
                    crate::ast::lemma_block_view(v);
                }
                let last = Stmt::Expr(i);
                v.push(last);
                assert(stmts_view(v@) =~= before.push(last@));
                proof {
                    crate::ast::lemma_block_view(v);
                }
                Stmt::Block(v)
            },
            b => {
                let mut v: Vec<Stmt> = Vec::new();
                let ghost bv = b@;
                let last = Stmt::Expr(i);
                let ghost lv = last@;
                v.push(b);
                v.push(last);
                assert(stmts_view(v@) =~= seq![bv, lv]);
                proof {
                    crate::ast::lemma_block_view(v);
                }
                Stmt::Block(v)
            },
        },
    };
    let lp = Stmt::While(cond, Box::new(body));
    match init {
        Some(s) => {
            let mut v: Vec<Stmt> = Vec::new();
            let ghost sv = s@;
            let ghost lv = lp@;
            v.push(s);
            v.push(lp);
            assert(stmts_view(v@) =~= seq![sv, lv]);
            proof {
                crate::ast::lemma_block_view(v);
            }
            Stmt::Block(v)
        },
        None => lp,
    }
}

impl RecursiveDescent {
    /// Parses the declaration or statement that starts at token `p`.
    pub fn parse_decl(t: &Vec<Token>, p: usize) -> (r: Result<(Stmt, usize), ParserError>)
        requires
            p <= t.len(),
        ensures
            agrees_s(r, s_decl(t@, p as int)),
            ends_after_s(r, p as int, t.len() as int),
        decreases t.len() - p, 21int,
    {
        if peek_is(t, p, TokKind::Let) {
            Self::parse_var_decl(t, p + 1)
        } else if peek_is(t, p, TokKind::Fn) {
            Self::parse_fun_decl(t, p + 1)
        } else {
            Self::parse_stmt(t, p)
        }
    }

    fn parse_var_decl(t: &Vec<Token>, p: usize) -> (r: Result<(Stmt, usize), ParserError>)
        requires
            p <= t.len(),
        ensures
            agrees_s(r, s_var_decl(t@, p as int)),
            ends_after_s(r, p as int, t.len() as int),
        decreases t.len() - p, 0int,
    {
        let (name, q) = match consume_ident(t, p) {
            Err(e) => {
                return Err(e);
            },
            Ok(x) => x,
        };
        if peek_is(t, q, TokKind::Equal) {
            let (init, r) = match Self::parse_expr(t, q + 1) {
                Err(e) => {
                    return Err(e);
                },
                Ok(x) => x,
            };
            match consume(t, r, TokKind::Semicolon) {
                Err(e) => Err(e),
                Ok(r2) => Ok((Stmt::Decl(name, Some(init)), r2)),
            }
        } else {
            match consume(t, q, TokKind::Semicolon) {
                Err(e) => Err(e),
                Ok(r2) => Ok((Stmt::Decl(name, None), r2)),
            }
        }
    }

    fn parse_fun_decl(t: &Vec<Token>, p: usize) -> (r: Result<(Stmt, usize), ParserError>)
        requires
            p <= t.len(),
        ensures
            agrees_s(r, s_fun_decl(t@, p as int)),
            ends_after_s(r, p as int, t.len() as int),
        decreases t.len() - p, 0int,
    {
        let (name, q) = match consume_ident(t, p) {
            Err(e) => {
                return Err(e);
            },
            Ok(x) => x,
        };
        let q1 = match consume(t, q, TokKind::LParen) {
            Err(e) => {
                return Err(e);
            },
            Ok(x) => x,
        };
        let (params, q2) = match Self::parse_params(t, q1) {
            Err(e) => {
                return Err(e);
            },
            Ok(x) => x,
        };
        let q3 = match consume(t, q2, TokKind::RParen) {
            Err(e) => {
                return Err(e);
            },
            Ok(x) => x,
        };
        let q4 = match consume(t, q3, TokKind::LBrace) {
            Err(e) => {
                return Err(e);
            },
            Ok(x) => x,
        };
        let (body, q5) = match Self::parse_block(t, q4) {
            Err(e) => {
                return Err(e);
            },
            Ok(x) => x,
        };
        let q6 = match consume(t, q5, TokKind::RBrace) {
            Err(e) => {
                return Err(e);
            },
            Ok(x) => x,
        };
        proof {
            crate::ast::lemma_block_view(body);
        }
        Ok((Stmt::Func(name, params, Box::new(Stmt::Block(body))), q6))
    }

    fn parse_params(t: &Vec<Token>, p: usize) -> (r: Result<(Vec<String>, usize), ParserError>)
        requires
            p <= t.len(),
        ensures
            match r {
                Ok((v, q)) => s_params(t@, p as int) == Ok::<(Seq<Seq<char>>, int), ParserError>(
                    (names_view(v@), q as int),
                ) && p <= q <= t.len(),
                Err(e) => s_params(t@, p as int) == Err::<(Seq<Seq<char>>, int), ParserError>(e),
            },
    {
        let mut params: Vec<String> = Vec::new();
        if p >= t.len() || kind_is(&t[p].kind, &TokKind::RParen) {
            assert(names_view(params@) =~= Seq::<Seq<char>>::empty());
            return Ok((params, p));
        }
        let (first, mut q) = match consume_ident(t, p) {
            Err(e) => {
                return Err(e);
            },
            Ok(x) => x,
        };
        let ghost fv = first@;
        params.push(first);
        assert(names_view(params@) =~= seq![fv]);
        loop
            invariant
                p < q <= t.len(),
                params.len() <= 255,
                s_params(t@, p as int) == s_params_tail(t@, q as int, names_view(params@)),
            decreases t.len() - q,
        {
            if !peek_is(t, q, TokKind::Comma) {
                return Ok((params, q));
            }
            let (name, q2) = match consume_ident(t, q + 1) {
                Err(e) => {
                    return Err(e);
                },
                Ok(x) => x,
            };
            if params.len() + 1 > 255 {
                return Err(ParserError::TooManyParams { loc: t[q + 1].loc });
            }
            let ghost before = names_view(params@);
            let ghost nv = name@;
            params.push(name);
            assert(names_view(params@) =~= before.push(nv));
            q = q2;
        }
    }

    fn parse_block(t: &Vec<Token>, p: usize) -> (r: Result<(Vec<Stmt>, usize), ParserError>)
        requires
            p <= t.len(),
        ensures
            match r {
                Ok((v, q)) => s_block(t@, p as int) == Ok::<(Seq<StmtV>, int), ParserError>(
                    (stmts_view(v@), q as int),
                ) && p <= q <= t.len(),
                Err(e) => s_block(t@, p as int) == Err::<(Seq<StmtV>, int), ParserError>(e),
            },
        decreases t.len() - p, 23int,
    {
        let mut block: Vec<Stmt> = Vec::new();
        let mut q = p;
        assert(stmts_view(block@) =~= Seq::<StmtV>::empty());
        loop
            invariant
                p <= q <= t.len(),
                s_block(t@, p as int) == s_block_tail(t@, q as int, stmts_view(block@)),
            decreases t.len() - q,
        {
            if q >= t.len() || kind_is(&t[q].kind, &TokKind::RBrace) {
                return Ok((block, q));
            }
            let (s, q2) = match Self::parse_decl(t, q) {
                Err(e) => {
                    return Err(e);
                },
                Ok(x) => x,
            };
            let ghost before = stmts_view(block@);
            let ghost sv = s@;
            block.push(s);
            assert(stmts_view(block@) =~= before.push(sv));
            q = q2;
        }
    }

    fn parse_inner(t: &Vec<Token>, o: usize, p: usize) -> (r: Result<(Stmt, usize), ParserError>)
        requires
            o < p <= t.len(),
        ensures
            agrees_s(r, s_inner(t@, o as int, p as int)),
            ends_after_s(r, p as int, t.len() as int),
        decreases t.len() - o, 0int,
    {
        Self::parse_stmt(t, p)
    }

    fn parse_stmt(t: &Vec<Token>, p: usize) -> (r: Result<(Stmt, usize), ParserError>)
        requires
            p <= t.len(),
        ensures
            agrees_s(r, s_stmt(t@, p as int)),
            ends_after_s(r, p as int, t.len() as int),
        decreases t.len() - p, 20int,
    {
        if peek_is(t, p, TokKind::LBrace) {
            let (b, q) = match Self::parse_block(t, p + 1) {
                Err(e) => {
                    return Err(e);
                },
                Ok(x) => x,
            };
            proof {
                crate::ast::lemma_block_view(b);
            }
            match consume(t, q, TokKind::RBrace) {
                Err(e) => Err(e),
                Ok(r) => Ok((Stmt::Block(b), r)),
            }
        } else if peek_is(t, p, TokKind::Print) {
            let (e, q) = match Self::parse_expr(t, p + 1) {
                Err(e) => {
                    return Err(e);
                },
                Ok(x) => x,
            };
            match consume(t, q, TokKind::Semicolon) {
                Err(x) => Err(x),
                Ok(r) => Ok((Stmt::Print(e), r)),
            }
        } else if peek_is(t, p, TokKind::If) {
            let q1 = match consume(t, p + 1, TokKind::LParen) {
                Err(e) => {
                    return Err(e);
                },
                Ok(x) => x,
            };
            let (c, q2) = match Self::parse_expr(t, q1) {
                Err(e) => {
                    return Err(e);
                },
                Ok(x) => x,
            };
            let q3 = match consume(t, q2, TokKind::RParen) {
                Err(e) => {
                    return Err(e);
                },
                Ok(x) => x,
            };
            let (th, q4) = match Self::parse_inner(t, p, q3) {
                Err(e) => {
                    return Err(e);
                },
                Ok(x) => x,
            };
            if peek_is(t, q4, TokKind::Else) {
                match Self::parse_inner(t, p, q4 + 1) {
                    Err(e) => Err(e),
                    Ok((el, q5)) => Ok((Stmt::If(c, Box::new(th), Some(Box::new(el))), q5)),
                }
            } else {
                Ok((Stmt::If(c, Box::new(th), None), q4))
            }
        } else if peek_is(t, p, TokKind::While) {
            let q1 = match consume(t, p + 1, TokKind::LParen) {
                Err(e) => {
                    return Err(e);
                },
                Ok(x) => x,
            };
            let (c, q2) = match Self::parse_expr(t, q1) {
                Err(e) => {
                    return Err(e);
                },
                Ok(x) => x,
            };
            let q3 = match consume(t, q2, TokKind::RParen) {
                Err(e) => {
                    return Err(e);
                },
                Ok(x) => x,
            };
            match Self::parse_inner(t, p, q3) {
                Err(e) => Err(e),
                Ok((b, q4)) => Ok((Stmt::While(c, Box::new(b)), q4)),
            }
        } else if peek_is(t, p, TokKind::For) {
            Self::parse_for(t, p + 1)
        } else if peek_is(t, p, TokKind::Return) {
            if peek_is(t, p + 1, TokKind::Semicolon) {
                Ok((Stmt::Return(None), p + 2))
            } else {
                let (e, q) = match Self::parse_expr(t, p + 1) {
                    Err(e) => {
                        return Err(e);
                    },
                    Ok(x) => x,
                };
                match consume(t, q, TokKind::Semicolon) {
                    Err(x) => Err(x),
                    Ok(r) => Ok((Stmt::Return(Some(e)), r)),
                }
            }
        } else {
            let (e, q) = match Self::parse_expr(t, p) {
                Err(e) => {
                    return Err(e);
                },
                Ok(x) => x,
            };
            match consume(t, q, TokKind::Semicolon) {
                Err(x) => Err(x),
                Ok(r) => Ok((Stmt::Expr(e), r)),
            }
        }
    }

    fn parse_for_init(t: &Vec<Token>, p: usize) -> (r: Result<(Option<Stmt>, usize), ParserError>)
        requires
            p <= t.len(),
        ensures
            match r {
                Ok((o, q)) => s_for_init(t@, p as int) == Ok::<(Option<StmtV>, int), ParserError>(
                    (ostmt_view(o), q as int),
                ) && p < q <= t.len(),
                Err(e) => s_for_init(t@, p as int) == Err::<(Option<StmtV>, int), ParserError>(e),
            },
        decreases t.len() - p, 15int,
    {
        if peek_is(t, p, TokKind::Let) {
            match Self::parse_var_decl(t, p + 1) {
                Err(e) => Err(e),
                Ok((d, q)) => Ok((Some(d), q)),
            }
        } else if peek_is(t, p, TokKind::Semicolon) {
            Ok((None, p + 1))
        } else {
            let (e, q) = match Self::parse_expr(t, p) {
                Err(e) => {
                    return Err(e);
                },
                Ok(x) => x,
            };
            match consume(t, q, TokKind::Semicolon) {
                Err(x) => Err(x),
                Ok(r) => Ok((Some(Stmt::Expr(e)), r)),
            }
        }
    }

    fn parse_for(t: &Vec<Token>, p: usize) -> (r: Result<(Stmt, usize), ParserError>)
        requires
            p <= t.len(),
        ensures
            agrees_s(r, s_for(t@, p as int)),
            ends_after_s(r, p as int, t.len() as int),
        decreases t.len() - p, 16int,
    {
        let q1 = match consume(t, p, TokKind::LParen) {
            Err(e) => {
                return Err(e);
            },
            Ok(x) => x,
        };
        let (init, q2) = match Self::parse_for_init(t, q1) {
            Err(e) => {
                return Err(e);
            },
            Ok(x) => x,
        };
        let (cond, q3) = if peek_is(t, q2, TokKind::Semicolon) {
            (Expr::Lit(Literal::Boolean(true)), q2)
        } else {
            match Self::parse_expr(t, q2) {
                Err(e) => {
                    return Err(e);
                },
                Ok(x) => x,
            }
        };
        let q4 = match consume(t, q3, TokKind::Semicolon) {
            Err(e) => {
                return Err(e);
            },
            Ok(x) => x,
        };
        let (inc, q5) = if peek_is(t, q4, TokKind::RParen) {
            (None, q4)
        } else {
            match Self::parse_expr(t, q4) {
                Err(e) => {
                    return Err(e);
                },
                Ok((i, q)) => (Some(i), q),
            }
        };
        let q6 = match consume(t, q5, TokKind::RParen) {
            Err(e) => {
                return Err(e);
            },
            Ok(x) => x,
        };
        let (body, q7) = match Self::parse_stmt(t, q6) {
            Err(e) => {
                return Err(e);
            },
            Ok(x) => x,
        };
        Ok((desugar_for(init, cond, inc, body), q7))
    }

    /// Parses a whole token sequence as a program.
    pub fn parse_program(t: &Vec<Token>) -> (r: Result<Prog, ParserError>)
        ensures
            match r {
                Ok(prog) => s_program(t@) == Ok::<Seq<StmtV>, ParserError>(prog@),
                Err(e) => s_program(t@) == Err::<Seq<StmtV>, ParserError>(e),
            },
    {
        let mut stmts: Vec<Stmt> = Vec::new();
        let mut q: usize = 0;
        assert(stmts_view(stmts@) =~= Seq::<StmtV>::empty());
        loop
            invariant
                q <= t.len(),
                s_program(t@) == s_program_tail(t@, q as int, stmts_view(stmts@)),
            decreases t.len() - q,
        {
            if q >= t.len() {
                return Ok(Prog { stmts });
            }
            let (s, q2) = match Self::parse_decl(t, q) {
                Err(e) => {
                    return Err(e);
                },
                Ok(x) => x,
            };
            let ghost before = stmts_view(stmts@);
            let ghost sv = s@;
            stmts.push(s);
            assert(stmts_view(stmts@) =~= before.push(sv));
            q = q2;
        }
    }
}

/// Lexes and parses source text as a program.
pub fn parse(src: &str) -> (r: Result<Prog, ParserError>)
    ensures
        exists|t: Seq<Token>|
            #[trigger] crate::lexer::lexes_to(src@, t) && match r {
                Ok(prog) => s_program(t) == Ok::<Seq<StmtV>, ParserError>(prog@),
                Err(e) => s_program(t) == Err::<Seq<StmtV>, ParserError>(e),
            },
{
    let tokens = crate::lexer::tokenize(src);
    RecursiveDescent::parse_program(&tokens)
}

} // verus!
