//! The tokens of Oberon, and what a scan yields: a token with the place
//! where it starts, or an error.

use vstd::prelude::*;

verus! {

#[derive(Clone, PartialEq, Debug)]
pub enum Token {
    Times,
    Div,
    Mod,
    And,
    Plus,
    Minus,
    Or,
    Eql,
    Neq,
    Lss,
    Geq,
    Leq,
    Gtr,
    Period,
    Comma,
    Colon,
    Rparen,
    Rbrak,
    Of,
    Then,
    Do,
    Lparen,
    Lbrak,
    Not,
    Becomes,
    Semicolon,
    End,
    Else,
    Elsif,
    If,
    While,
    Array,
    Record,
    Const,
    Type,
    Var,
    Procedure,
    Begin,
    Module,
    False,
    True,
    Repeat,
    Until,
    Int(u32),
    Ident(String),
}

/// A token as a mathematical value: an identifier is its characters.
pub enum Tok {
    Times,
    Div,
    Mod,
    And,
    Plus,
    Minus,
    Or,
    Eql,
    Neq,
    Lss,
    Geq,
    Leq,
    Gtr,
    Period,
    Comma,
    Colon,
    Rparen,
    Rbrak,
    Of,
    Then,
    Do,
    Lparen,
    Lbrak,
    Not,
    Becomes,
    Semicolon,
    End,
    Else,
    Elsif,
    If,
    While,
    Array,
    Record,
    Const,
    Type,
    Var,
    Procedure,
    Begin,
    Module,
    False,
    True,
    Repeat,
    Until,
    Int(u32),
    Ident(Seq<char>),
}

impl View for Token {
    type V = Tok;

    open spec fn view(&self) -> Tok {
        match self {
            Token::Times => Tok::Times,
            Token::Div => Tok::Div,
            Token::Mod => Tok::Mod,
            Token::And => Tok::And,
            Token::Plus => Tok::Plus,
            Token::Minus => Tok::Minus,
            Token::Or => Tok::Or,
            Token::Eql => Tok::Eql,
            Token::Neq => Tok::Neq,
            Token::Lss => Tok::Lss,
            Token::Geq => Tok::Geq,
            Token::Leq => Tok::Leq,
            Token::Gtr => Tok::Gtr,
            Token::Period => Tok::Period,
            Token::Comma => Tok::Comma,
            Token::Colon => Tok::Colon,
            Token::Rparen => Tok::Rparen,
            Token::Rbrak => Tok::Rbrak,
            Token::Of => Tok::Of,
            Token::Then => Tok::Then,
            Token::Do => Tok::Do,
            Token::Lparen => Tok::Lparen,
            Token::Lbrak => Tok::Lbrak,
            Token::Not => Tok::Not,
            Token::Becomes => Tok::Becomes,
            Token::Semicolon => Tok::Semicolon,
            Token::End => Tok::End,
            Token::Else => Tok::Else,
            Token::Elsif => Tok::Elsif,
            Token::If => Tok::If,
            Token::While => Tok::While,
            Token::Array => Tok::Array,
            Token::Record => Tok::Record,
            Token::Const => Tok::Const,
            Token::Type => Tok::Type,
            Token::Var => Tok::Var,
            Token::Procedure => Tok::Procedure,
            Token::Begin => Tok::Begin,
            Token::Module => Tok::Module,
            Token::False => Tok::False,
            Token::True => Tok::True,
            Token::Repeat => Tok::Repeat,
            Token::Until => Tok::Until,
            Token::Int(n) => Tok::Int(*n),
            Token::Ident(s) => Tok::Ident(s@),
        }
    }
}

#[derive(Debug, Copy, Clone, PartialEq, Eq, Structural)]
pub struct ScanContext {
    pub line: u32,
    pub column: u32,
}

#[derive(Clone, PartialEq, Debug)]
pub struct Scan {
    pub context: ScanContext,
    pub token: Token,
}

/// A scan as a mathematical value.
pub struct ScanV {
    pub context: ScanContext,
    pub token: Tok,
}

impl View for Scan {
    type V = ScanV;

    open spec fn view(&self) -> ScanV {
        ScanV { context: self.context, token: self.token@ }
    }
}

#[derive(Debug, Copy, Clone, PartialEq, Eq, Structural)]
pub enum ScanErrorType {
    InvalidChar(char),  // char is not ascii
    UnexpectedNewLine,
}

#[derive(Debug, Copy, Clone, PartialEq, Eq, Structural)]
pub struct ScanError {
    pub context: ScanContext,
    pub error_type: ScanErrorType,
}

pub type ScanResult = Result<Scan, ScanError>;

/// The view of what a scan returns.
pub open spec fn next_view(r: Option<ScanResult>) -> Option<Result<ScanV, ScanError>> {
    match r {
        Some(Ok(s)) => Some(Ok(s@)),
        Some(Err(e)) => Some(Err(e)),
        None => None,
    }
}

} // verus!
