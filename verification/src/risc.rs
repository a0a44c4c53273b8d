//! The first RISC machine: 32 bit instructions in four formats, a register
//! file of 16 words and a word-addressed memory.

pub mod assembler;
pub mod computer;
pub mod instructions;
