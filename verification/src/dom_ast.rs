//! The front end of an Oberon-0 compiler: a scanner that reads a text line by
//! line, a scope of declared variables, and a recursive descent parser that
//! builds a syntax tree of first-child, next-sibling nodes.

pub mod token;
pub mod line_scanner;
pub mod scanner;
pub mod scope;
pub mod tree;
pub mod ast;
pub mod grammar;
pub mod parser;
pub mod progress;
