//! An earlier Oberon front end: a line scanner with column numbers, a
//! scanner of whole texts, syntax trees that refer to scope symbols, and a
//! first parser of assignments.

pub mod token;
pub mod line_scanner;
pub mod scanner;
pub mod ast;
pub mod scope;
pub mod scanner2;
pub mod parser;
