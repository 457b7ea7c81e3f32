//! Abstract syntax of the calculator language.
//!
//! Identifiers are stored as spans (byte ranges) into the batch text that
//! was parsed, so that statement values are plain data; the evaluator and
//! the renderer receive the text alongside the statements to resolve names.

use vstd::prelude::*;
use crate::ratio::Ratio;

verus! {

/// An expression tree.
pub enum Expr {
    /// A numeric literal, already normalised.
    Num(Ratio),
    /// A variable reference: the identifier at bytes `lo..hi` of the text.
    Var { lo: usize, hi: usize },
    /// Unary negation.
    Neg(Box<Expr>),
    /// Sum of the two operands.
    Add(Box<Expr>, Box<Expr>),
    /// Difference of the two operands.
    Sub(Box<Expr>, Box<Expr>),
    /// Product of the two operands.
    Mul(Box<Expr>, Box<Expr>),
    /// Quotient of the two operands.
    Div(Box<Expr>, Box<Expr>),
}

/// One parsed statement.
pub enum Stmt {
    /// A bare expression.
    Expr(Expr),
    /// Assignment of the expression to the identifier at bytes `lo..hi`.
    Assign { lo: usize, hi: usize, rhs: Expr },
}

} // verus!
