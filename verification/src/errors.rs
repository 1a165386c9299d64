//! The error taxonomy shared by the parser and the evaluator.

use vstd::prelude::*;

verus! {

/// Mathematical model of an error: the same variants, with the offending
/// symbol carried as a sequence of characters.
pub enum ErrV {
    /// Missing opening parenthesis or an integer literal outside `i32` range.
    MalformedSyntax,
    /// A symbol was not found in any frame of the active scope chain.
    UnboundSymbol(Seq<char>),
    /// An operand, `if` condition, or form part had the wrong shape or type.
    TypeMismatch,
    /// A form or a function call had the wrong number of parts.
    ArityError,
    /// Integer division with a zero divisor.
    DivisionByZero,
    /// The head symbol of a call resolved to a value that is not a lambda.
    NotCallable(Seq<char>),
    /// The evaluation-depth counter ran out before the program finished.
    StackDepthExceeded,
}

/// A reported evaluation or parse failure. Any failure during evaluation of
/// one top-level input aborts that input and is surfaced as one of these;
/// no input terminates the process.
#[derive(Debug)]
pub enum EvalError {
    MalformedSyntax,
    UnboundSymbol(String),
    TypeMismatch,
    ArityError,
    DivisionByZero,
    NotCallable(String),
    StackDepthExceeded,
}

impl View for EvalError {
    type V = ErrV;

    open spec fn view(&self) -> ErrV {
        match self {
            EvalError::MalformedSyntax => ErrV::MalformedSyntax,
            EvalError::UnboundSymbol(s) => ErrV::UnboundSymbol(s@),
            EvalError::TypeMismatch => ErrV::TypeMismatch,
            EvalError::ArityError => ErrV::ArityError,
            EvalError::DivisionByZero => ErrV::DivisionByZero,
            EvalError::NotCallable(s) => ErrV::NotCallable(s@),
            EvalError::StackDepthExceeded => ErrV::StackDepthExceeded,
        }
    }
}

} // verus!
