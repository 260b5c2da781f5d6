//! The calculator: expressions, their parser, an interpreter, a stack machine and a type check.
pub mod ast;
pub mod grammar;
pub mod parser;
pub mod repl;
pub mod interpreter;
pub mod typing;
pub mod vm;
