//! The ways in which reading or evaluating one unit of input can fail.

use vstd::prelude::*;

verus! {

/// A failure to split the input into tokens.
#[derive(Debug, Clone, Copy, PartialEq, Eq, Structural)]
pub enum LexError {
    /// A byte that starts no token.
    UnexpectedByte,
    /// A string literal whose closing quote is missing.
    UnterminatedString,
    /// A run of digits whose value does not fit the integer type.
    NumberTooLarge,
}

/// A failure to build an expression from the tokens.
#[derive(Debug, Clone, Copy, PartialEq, Eq, Structural)]
pub enum ParseError {
    /// The lexer failed.
    Lex(LexError),
    /// A token that the grammar does not allow at this place.
    UnexpectedToken,
    /// The input ended inside a form.
    UnexpectedEnd,
}

/// A failure to reduce an expression to a value.
#[derive(Debug, Clone, Copy, PartialEq, Eq, Structural)]
pub enum EvalError {
    /// An identifier or a call target that no enclosing frame binds.
    UnboundName,
    /// A value of the wrong kind: a call of something that cannot be called
    /// that way, or an argument list of the wrong shape for the operation.
    TypeMismatch,
    /// A sum that does not fit the integer type.
    Overflow,
    /// The evaluation nested deeper than the depth it was given.
    DepthExceeded,
}

/// A failure to read an S-expression.
#[derive(Debug, Clone, Copy, PartialEq, Eq, Structural)]
pub enum ReadError {
    /// The text is not what the grammar asks for.
    NoMatch,
    /// A run of digits whose value does not fit the integer type.
    NumberTooLarge,
}

/// A failure to run one unit of input.
#[derive(Debug, Clone, Copy, PartialEq, Eq, Structural)]
pub enum Error {
    /// The text is not a form.
    Parse(ParseError),
    /// The form could not be reduced to a value.
    Eval(EvalError),
}

} // verus!
