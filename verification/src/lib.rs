//! A tiny Scheme front end: an S-expression parser with error recovery and a
//! lowering pass that flattens a syntax tree into stack-machine instructions.

pub mod ast;
pub mod command;
pub mod ir;
pub mod lexer;
pub mod parser;
pub mod prelude;
