//! A minimal imperative scripting language: a lexer and recursive-descent
//! parser that turn source text into a syntax tree, and a tree-walking
//! evaluator that runs the tree against a flat, mutable variable environment.
//!
//! Every executable function is verified against a mathematical model of the
//! language: the grammar is a set of specification functions over token
//! sequences, and the meaning of a program is a specification function from
//! machine states to machine states.

pub mod ast;
pub mod error;
pub mod lexer;
pub mod parser;
pub mod grammar;
pub mod eval;
pub mod laws;
pub mod text;
pub mod source;

use vstd::prelude::*;
use crate::error::{failure_of, RunError};
use crate::eval::{after_program, run_program};
use crate::parser::{parse, parsed};

verus! {

/// The output after `run` and the failure that it reports, for a source
/// text and the output before the run.
///
/// A text that does not parse leaves the output as it was: no part of it is
/// executed. A text that parses is executed from an empty environment.
pub open spec fn run_model(source: Seq<char>, output: Seq<i64>) -> (Seq<i64>, Option<RunError>) {
    match parsed(source) {
        Err(e) => (output, Some(RunError::Parse(e))),
        Ok(program) => {
            let end = after_program(program, output);
            (
                end.output,
                match end.failure {
                    None => None,
                    Some(e) => Some(RunError::Eval(e)),
                },
            )
        },
    }
}

/// Parses a source text and executes it.
///
/// The values that the program prints are appended to `output`, one for
/// each executed `print`, in execution order.
pub fn run(source: &str, output: &mut Vec<i64>) -> (r: Result<(), RunError>)
    ensures
        (final(output)@, failure_of(r)) == run_model(source@, old(output)@),
{
    match parse(source) {
        Err(e) => Err(RunError::Parse(e)),
        Ok(program) => match run_program(&program, output) {
            Ok(_) => Ok(()),
            Err(e) => Err(RunError::Eval(e)),
        },
    }
}

} // verus!
