//! The engine's two disjoint error tiers.
//!
//! A `ParseError` is batch-fatal: malformed syntax or unconsumed trailing
//! text aborts the batch before any statement is evaluated. An `EvalError`
//! is statement-local: it is rendered as that statement's result string and
//! evaluation continues with the next statement.

use vstd::prelude::*;

verus! {

/// Failure of the whole batch to parse.
#[derive(Clone, Copy, PartialEq, Eq, Structural, Debug)]
pub struct ParseError;

/// Failure of a single statement's evaluation.
#[derive(Debug)]
pub enum EvalError {
    /// The named variable has no binding in the context.
    UnboundVariable(Vec<u8>),
    /// The right operand of a division evaluated to zero.
    DivisionByZero,
    /// A result's reduced numerator or denominator reached 2^63.
    Overflow,
}

} // verus!
