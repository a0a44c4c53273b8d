//! Tools around Wirth's RISC architecture: two instruction sets with their
//! encoders, decoders and simulators, assemblers for both, and the scanners
//! and parsers of a small Oberon-0 compiler.

pub mod arith;
pub mod bin_graph;
pub mod compiler;
pub mod dom_ast;
pub mod dom_risc;
pub mod oberon;
pub mod risc;
pub mod sharing;
pub mod symbols;
pub mod text;
