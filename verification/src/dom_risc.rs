//! The RISC machine of Wirth's "Compiler Construction": instructions with
//! register, memory and branch formats, conditional branches on two flags, a
//! register file of 16 words and a word-addressed memory.

pub mod assembler;
pub mod computer;
pub mod instructions;
