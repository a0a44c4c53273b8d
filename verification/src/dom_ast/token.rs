//! The tokens of Oberon-0, and what a scan yields: a token with the place
//! where it starts, or an error.

use vstd::prelude::*;

use std::rc::Rc;

verus! {

#[derive(Clone, PartialEq, Debug)]
pub enum Token {
    Times,
    Div,
    Plus,
    Minus,
    Eql,
    Neq,
    Lss,
    Geq,
    Leq,
    Gtr,
    Period,
    Comma,
    Colon,
    Rparen,
    Rbrak,
    Of,
    Then,
    Do,
    Lparen,
    Lbrak,
    Becomes,
    Semicolon,
    End,
    Else,
    Elsif,
    If,
    While,
    Array,
    Var,
    Begin,
    Module,
    Int(u32),
    Ident(String),
}

/// A token as a mathematical value: an identifier is its characters.
pub enum Tok {
    Times,
    Div,
    Plus,
    Minus,
    Eql,
    Neq,
    Lss,
    Geq,
    Leq,
    Gtr,
    Period,
    Comma,
    Colon,
    Rparen,
    Rbrak,
    Of,
    Then,
    Do,
    Lparen,
    Lbrak,
    Becomes,
    Semicolon,
    End,
    Else,
    Elsif,
    If,
    While,
    Array,
    Var,
    Begin,
    Module,
    Int(u32),
    Ident(Seq<char>),
}

impl View for Token {
    type V = Tok;

    open spec fn view(&self) -> Tok {
        match self {
            Token::Times => Tok::Times,
            Token::Div => Tok::Div,
            Token::Plus => Tok::Plus,
            Token::Minus => Tok::Minus,
            Token::Eql => Tok::Eql,
            Token::Neq => Tok::Neq,
            Token::Lss => Tok::Lss,
            Token::Geq => Tok::Geq,
            Token::Leq => Tok::Leq,
            Token::Gtr => Tok::Gtr,
            Token::Period => Tok::Period,
            Token::Comma => Tok::Comma,
            Token::Colon => Tok::Colon,
            Token::Rparen => Tok::Rparen,
            Token::Rbrak => Tok::Rbrak,
            Token::Of => Tok::Of,
            Token::Then => Tok::Then,
            Token::Do => Tok::Do,
            Token::Lparen => Tok::Lparen,
            Token::Lbrak => Tok::Lbrak,
            Token::Becomes => Tok::Becomes,
            Token::Semicolon => Tok::Semicolon,
            Token::End => Tok::End,
            Token::Else => Tok::Else,
            Token::Elsif => Tok::Elsif,
            Token::If => Tok::If,
            Token::While => Tok::While,
            Token::Array => Tok::Array,
            Token::Var => Tok::Var,
            Token::Begin => Tok::Begin,
            Token::Module => Tok::Module,
            Token::Int(n) => Tok::Int(*n),
            Token::Ident(s) => Tok::Ident(s@),
        }
    }
}

#[derive(Debug, Copy, Clone, PartialEq, Eq, Structural)]
pub struct ScanContext {
    pub line: u32,
    pub column: u32,
}

#[derive(Clone, PartialEq, Debug)]
pub struct Scan {
    pub context: ScanContext,
    pub token: Token,
}

/// A scan as a mathematical value.
pub struct ScanV {
    pub context: ScanContext,
    pub token: Tok,
}

impl View for Scan {
    type V = ScanV;

    open spec fn view(&self) -> ScanV {
        ScanV { context: self.context, token: self.token@ }
    }
}

#[derive(Debug, Copy, Clone, PartialEq, Eq, Structural)]
pub enum ScanErrorType {
    InvalidChar(char),  // char is not ascii
    UnexpectedNewLine,
    UnterminatedComment,
}

#[derive(Debug, Copy, Clone, PartialEq, Eq, Structural)]
pub struct ScanError {
    pub context: ScanContext,
    pub error_type: ScanErrorType,
}

pub type ScanResult = Result<Rc<Scan>, ScanError>;

/// The view of a scan result.
pub open spec fn result_view(r: ScanResult) -> Result<ScanV, ScanError> {
    match r {
        Ok(s) => Ok(s@),
        Err(e) => Err(e),
    }
}

} // verus!
