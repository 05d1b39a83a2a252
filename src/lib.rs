//! A small stack-based virtual machine: its value model, opcode table,
//! operand stack with call frames, interpreter, and two assemblers (a
//! line-oriented text form and a structured tuple form).

pub mod arith;
pub mod assembler;
pub mod bytecode;
pub mod emit;
pub mod error;
pub mod floats;
pub mod function;
pub mod jef;
pub mod laws;
pub mod memory;
pub mod opcode;
pub mod text;
pub mod value;
pub mod vm;
