//! The failures that parsing and evaluation can report.

use vstd::prelude::*;

verus! {

/// Why a source text is not a program.
#[derive(Clone, Copy, Debug, PartialEq, Eq)]
pub enum ParseError {
    /// A character that belongs to no token, or a letter and a digit written
    /// next to each other without a separator.
    UnexpectedCharacter,
    /// An integer literal that does not fit a signed 64-bit integer.
    NumberTooLarge,
    /// The tokens do not form a sequence of statements: the text is empty,
    /// a statement is incomplete, or text remains after the last statement.
    Syntax,
}

/// Why a program stopped before its last statement.
#[derive(Clone, Copy, Debug, PartialEq, Eq)]
pub enum EvalError {
    /// The right operand of a division evaluated to zero.
    DivisionByZero,
}

/// The failure of a whole run: the text was rejected, or the program stopped.
#[derive(Clone, Copy, Debug, PartialEq, Eq)]
pub enum RunError {
    Parse(ParseError),
    Eval(EvalError),
}

/// The failure that a result without a value holds, if it holds one.
pub open spec fn failure_of<E>(result: Result<(), E>) -> Option<E> {
    match result {
        Ok(_) => None,
        Err(e) => Some(e),
    }
}

} // verus!
