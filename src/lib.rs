//! An integer calculator core: a tokenizer, a precedence-climbing parser and
//! a tree-walking evaluator that threads a variable environment.

pub mod context;
pub mod executor;
pub mod lexer;
pub mod parser;
