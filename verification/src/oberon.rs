//! A first Oberon front end: a scanner that counts lines, and a parser of
//! expressions and selectors.

pub mod scanner;
pub mod parser;
