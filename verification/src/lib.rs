//! A tree-walking interpreter for a small imperative scripting language:
//! variable declaration, lexically scoped blocks, conditionals, string,
//! number and boolean values, binary expressions, and a `print` builtin.
//!
//! The pipeline runs source text through the lexer, the parser and the
//! interpreter in turn; each stage is specified against a mathematical
//! model and the evaluator is proved to implement a spec-level semantics.

pub mod ast;
pub mod errors;
pub mod interpreter;
pub mod lexer;
pub mod parser;
pub mod scopes;
pub mod semantics;
pub mod text;
