//! A statement-oriented calculator engine with exact rational arithmetic.
//!
//! A batch of text is parsed into a sequence of statements (expressions and
//! assignments), then each statement is evaluated in order against a mutable
//! context that carries variable bindings for the lifetime of the batch.
//! Parsing is atomic over the batch; evaluation failures are isolated to the
//! statement that caused them.

pub mod ast;
pub mod batch;
pub mod context;
pub mod error;
pub mod eval;
pub mod laws;
pub mod parser;
pub mod ratio;
pub mod render;

pub use error::EvalError;
pub use error::ParseError;
