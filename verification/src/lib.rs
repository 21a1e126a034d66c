//! A toolchain for the NIS assembly language: an assembler front-end that
//! turns textual assembly into an intermediate instruction stream, a fixed
//! 18-byte binary encoding of instructions, and a register-and-stack virtual
//! machine that executes the encoded program with software interrupts.
#![allow(non_snake_case)]
#![allow(non_camel_case_types)]

pub mod assemble;
pub mod codec;
pub mod errors;
pub mod ir;
pub mod opcodes;
pub mod operand;
pub mod parcher;
pub mod text;
pub mod vm;
pub mod x86;
