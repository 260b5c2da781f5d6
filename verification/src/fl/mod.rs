//! The small interpreted language: syntax, semantics, interpreter, preprocessor and sessions.
pub mod ast;
pub mod render;
pub mod semantics;
pub mod interpreter;
pub mod grammar;
pub mod parser;
pub mod preprocessor;
pub mod session;
pub use session::run;
