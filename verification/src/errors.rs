//! Error taxonomy: scanner faults and code-generation faults are
//! surfaced as recoverable results, never as process aborts.

use vstd::prelude::*;

verus! {

/// A fault found while scanning: the scanner stops progressing and
/// reports it instead of looping or truncating a token.
#[derive(Debug, Clone, Copy, PartialEq, Eq, Structural)]
pub enum ScanError {
    /// A string literal whose closing quote never arrives.
    UnterminatedStringLiteral,
    /// A digit run whose decimal value does not fit a 64-bit signed integer.
    NumberOutOfRange,
}

/// A fault found while generating code; compilation of the offending
/// construct is aborted and the error is handed to the caller.
#[derive(Debug, Clone, Copy, PartialEq, Eq, Structural)]
pub enum CompileError {
    /// An identifier was used before any declaration bound it.
    UnknownVariable,
    /// A binary operator outside the supported set.
    UnsupportedOperator,
    /// An expression shape the generator does not lower.
    UnsupportedExpression,
    /// A statement shape the generator does not lower.
    UnsupportedStatement,
    /// No register of the requested width class is free.
    RegistersExhausted,
}

} // verus!
