//! Semantic analysis for a small C-like teaching language: scoped name
//! resolution, a value-level type system, compile-time constant evaluation
//! and the flow rules on `return`, `break` and `continue`.

pub mod ast;
pub mod table;
pub mod expr;
pub mod shape;
pub mod checker;
pub mod lemmas;
