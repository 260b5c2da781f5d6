//! Three small languages (a calculator, a scripting language and a typed language), with
//! their parsers, interpreters, compiler and virtual machine proved against their
//! mathematical meaning.
pub mod calculator;
pub mod fl;
pub mod lexical;
pub mod sl;
pub mod text;
