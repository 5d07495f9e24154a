//! A verified interpreter for a small line of parenthesized, Lisp-like
//! arithmetic and comparison expressions.
//!
//! The pipeline is: text -> lexer (`tokenize`) -> tokens -> parser (`parse`)
//! -> syntax tree -> evaluator (`eval`) -> `Value`.  Floating-point values are
//! carried as their IEEE 754 bit patterns (`u64`); the handful of primitive
//! float operations that cannot be expressed in verified code are delegated to
//! software floating-point crates behind trusted wrappers in `numeric`.

pub mod ast;
pub mod env;
pub mod errors;
pub mod eval;
pub mod numeric;
pub mod operatortype;
pub mod parse;
pub mod repl;
pub mod token;
pub mod tokenize;
pub mod value;
