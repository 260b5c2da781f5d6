//! The stack machine: instructions, the compiler to bytecode, and the machine itself.
pub mod bytecode;
pub mod opcode;
pub mod vmcore;
