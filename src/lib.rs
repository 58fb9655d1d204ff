//! A tree-walking interpreter for a small Scheme-like Lisp dialect.
//!
//! Text is read into S-expressions (`parser`), which are evaluated against a
//! chain of scope frames (`interpreter`). What evaluation means is stated in
//! `semantics`; the laws that follow from it are in `laws` and `roundtrip`.
pub mod builtins;
pub mod chars;
pub mod errors;
pub mod interpreter;
pub mod laws;
pub mod list;
pub mod numeric;
pub mod parser;
pub mod primitives;
pub mod roundtrip;
pub mod semantics;
pub mod session;
pub mod symbolic_expression;
pub mod text;
