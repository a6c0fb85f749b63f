use vstd::prelude::*;

pub mod ast;
pub mod cursor;
pub mod interp;
pub mod lexer;
pub mod parser;
pub mod resolver;
pub mod semantics;

use crate::ast::StmtV;
use crate::interp::{ErrV, Host, Interp, RuntimeError};
use crate::semantics::{extends, run_v, Answer};
use crate::lexer::{lexes_to, Token};
use crate::parser::{s_program, ParserError};
use crate::resolver::{r_stmts, ResolveError};

verus! {

/// The characters of `s`, in order.
pub fn chars_of(s: &str) -> (r: Vec<char>)
    ensures
        r@ == s@,
{
    let mut v: Vec<char> = Vec::new();
    for c in it: s.chars()
        invariant
            v@ == it.seq().take(it.index() as int),
            it.seq() == s@,
    {
        v.push(c);
    }
    v
}

/// An error of any phase: syntax, resolution or run time.
#[derive(PartialEq, Debug)]
pub enum InterpretError {
    Syntax(ParserError),
    Resolve(ResolveError),
    Runtime(RuntimeError),
}

/// The run-time part of `r`: success, or the run-time error.
pub open spec fn outcome_v(r: Result<(), InterpretError>) -> Result<(), ErrV> {
    match r {
        Ok(()) => Ok(()),
        Err(InterpretError::Runtime(e)) => Err(e@),
        Err(_) => Err(ErrV::TypeError),
    }
}

/// Lexes, parses, resolves and runs `src` with `interp`, whose global scope
/// persists from one call to the next. A program with a syntax or
/// resolution error does not run at all; otherwise the result, the output
/// and the new state are those of `run_v` on the resolved program, given
/// the host's answers.
pub fn interpret<H: Host>(src: &str, interp: &mut Interp, host: &mut H) -> (r: Result<
    (),
    InterpretError,
>)
    requires
        old(interp).wf(),
    ensures
        final(interp).wf(),
        exists|t: Seq<Token>|
            #[trigger] lexes_to(src@, t) && match s_program(t) {
                Err(e) => r == Err::<(), InterpretError>(InterpretError::Syntax(e)),
                Ok(ss) => match r_stmts(ss, Seq::empty(), false) {
                    Err(e) => r matches Err(InterpretError::Resolve(x)) && x@ == e && *final(interp)
                        == *old(interp),
                    Ok((resolved, _)) => forall|ans: Seq<Answer>|
                        extends(ans, final(interp).log()) ==> #[trigger] run_v(
                            resolved,
                            old(interp).max_depth() as nat,
                            old(interp).state(),
                            ans,
                        ) == (outcome_v(r), final(interp).state()),
                },
            },
{
    let tokens = crate::lexer::tokenize(src);
    let mut prog = match crate::parser::RecursiveDescent::parse_program(&tokens) {
        Err(e) => {
            return Err(InterpretError::Syntax(e));
        },
        Ok(p) => p,
    };
    match crate::resolver::resolve_program(&mut prog) {
        Err(e) => {
            return Err(InterpretError::Resolve(e));
        },
        Ok(()) => {},
    }
    match interp.run(&prog, host) {
        Err(e) => Err(InterpretError::Runtime(e)),
        Ok(()) => Ok(()),
    }
}

} // verus!
