//! A small Lisp interpreter: expression trees, a chain of lexical scopes and
//! the evaluator that walks one against the other.
//!
//! - [`object`]: the tree type, which is both the code and the values.
//! - [`scope`]: the chain of frames that names are looked up in.
//! - [`number`]: order and equality of numbers.
//! - [`semantics`]: what every form means, as a mathematical function from a
//!   tree and a scope to a result and a scope.
//! - [`eval`]: the evaluator, which computes exactly that function.
//! - [`isolation`], [`depth`]: what holds of every evaluation.
//! - [`lexer`], [`parser`]: from source text to a tree.
//!
//! Numbers are IEEE 754 binary64 values held by their bit pattern. Order and
//! equality of numbers are decided here on the bits; the four arithmetic
//! operators are supplied by the caller as a function on bit patterns, and
//! so is the reading of a number from its text.

pub mod object;
pub mod scope;
pub mod number;
pub mod semantics;
pub mod eval;
pub mod isolation;
pub mod depth;
pub mod lexer;
pub mod parser;
