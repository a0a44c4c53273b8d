//! A draft of a line scanner that yields nothing yet.

use vstd::prelude::*;

use crate::text::chars_of;

verus! {

#[derive(Debug)]
pub enum Token {
    Int { value: u32 },
    Ident { value: String },
}

#[derive(Debug)]
pub struct Scan {
    line: u32,
    column: u32,
    token: Token,
}

#[derive(Debug, Copy, Clone, PartialEq, Eq, Structural)]
pub enum ScanError {
    BadChar(char),
}

pub struct LineScanner {
    pub line_number: u32,
    pub char_number: u32,
    pub chars: Vec<char>,
}

impl LineScanner {
    pub fn new(content: &str, line_number: u32) -> (s: LineScanner)
        ensures
            s.line_number == line_number,
            s.char_number == 0,
            s.chars@ == content@,
    {
        LineScanner { line_number, chars: chars_of(content), char_number: 0 }
    }

    /// The next scan: none, in this draft.
    pub fn next(&mut self) -> (r: Option<Scan>)
        ensures
            r is None,
            final(self).line_number == old(self).line_number,
            final(self).char_number == old(self).char_number,
            final(self).chars@ == old(self).chars@,
    {
        None
    }
}

} // verus!
