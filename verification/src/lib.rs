//! A small Lisp-like language: a lexer and a recursive-descent parser over
//! raw bytes, a value model, chained environments, and an evaluator with
//! native functions, native macros and user-defined functions.
//!
//! Every executable function carries a contract stated over a mathematical
//! model of the language, and the model is a handful of functions:
//!
//! - `lexer::lex`: the token at a position of a text;
//! - `parser::parse_unit`: the expression that a text holds;
//! - `env::lookup` and `env::define`: what a name is bound to, and how a
//!   binding is made;
//! - `eval::eval_expr`: the value of an expression, and the environment that
//!   its evaluation leaves;
//! - `value::render`: the printed form of a value.
//!
//! The laws that tie these together are proved in `laws`. Beside the
//! language stand `input`, which tells when a unit of input is complete, and
//! `sexpr`, a reader for plain S-expressions.
//!
//! Texts, names and strings are byte strings: the lexer works on raw bytes,
//! and a string literal holds the bytes between its quotes as they are.

pub mod error;
pub mod token;
pub mod scan;
pub mod bytes;
pub mod lexer;
pub mod ast;
pub mod parser;
pub mod value;
pub mod env;
pub mod eval;
pub mod laws;
pub mod input;
pub mod sexpr;
