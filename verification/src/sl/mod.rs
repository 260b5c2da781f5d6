//! The typed language: its types, syntax trees, grammar and parser.
pub mod ast;
pub mod grammar;
pub mod parser;
pub mod types;
