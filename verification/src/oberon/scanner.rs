//! A scanner of Oberon text that reads one token at a time and counts lines.

use vstd::prelude::*;

use crate::text::{
    all_digits, chars_of, digit_run, digits_value, eq_lit, is_digit, lemma_digit_run, lemma_digits_value_prefix,
    run_within, string_from_chars,
};

verus! {

#[derive(Debug)]
pub enum Token {
    Times,
    Div,
    Mod,
    And,
    Plus,
    Minus,
    Or,
    Eql,
    Neq,
    Lss,
    Leq,
    Gtr,
    Geq,
    Period,
    Int(u32),
    False,
    True,
    Not,
    Lparen,
    Rparen,
    Lbrak,
    Rbrak,
    Ident(String),
    If,
    While,
    Repeat,
    Comma,
    Colon,
    Becomes,
    Then,
    Of,
    Do,
    Semicolon,
    End,
    Else,
    Elsif,
    Until,
    Array,
    Record,
    Const,
    Type,
    Var,
    Procedure,
    Begin,
    Module,
}

/// A token as a mathematical value.
pub enum Tok {
    Times,
    Div,
    Mod,
    And,
    Plus,
    Minus,
    Or,
    Eql,
    Neq,
    Lss,
    Leq,
    Gtr,
    Geq,
    Period,
    Int(u32),
    False,
    True,
    Not,
    Lparen,
    Rparen,
    Lbrak,
    Rbrak,
    Ident(Seq<char>),
    If,
    While,
    Repeat,
    Comma,
    Colon,
    Becomes,
    Then,
    Of,
    Do,
    Semicolon,
    End,
    Else,
    Elsif,
    Until,
    Array,
    Record,
    Const,
    Type,
    Var,
    Procedure,
    Begin,
    Module,
}

impl View for Token {
    type V = Tok;

    open spec fn view(&self) -> Tok {
        match self {
            Token::Times => Tok::Times,
            Token::Div => Tok::Div,
            Token::Mod => Tok::Mod,
            Token::And => Tok::And,
            Token::Plus => Tok::Plus,
            Token::Minus => Tok::Minus,
            Token::Or => Tok::Or,
            Token::Eql => Tok::Eql,
            Token::Neq => Tok::Neq,
            Token::Lss => Tok::Lss,
            Token::Leq => Tok::Leq,
            Token::Gtr => Tok::Gtr,
            Token::Geq => Tok::Geq,
            Token::Period => Tok::Period,
            Token::Int(n) => Tok::Int(*n),
            Token::False => Tok::False,
            Token::True => Tok::True,
            Token::Not => Tok::Not,
            Token::Lparen => Tok::Lparen,
            Token::Rparen => Tok::Rparen,
            Token::Lbrak => Tok::Lbrak,
            Token::Rbrak => Tok::Rbrak,
            Token::Ident(s) => Tok::Ident(s@),
            Token::If => Tok::If,
            Token::While => Tok::While,
            Token::Repeat => Tok::Repeat,
            Token::Comma => Tok::Comma,
            Token::Colon => Tok::Colon,
            Token::Becomes => Tok::Becomes,
            Token::Then => Tok::Then,
            Token::Of => Tok::Of,
            Token::Do => Tok::Do,
            Token::Semicolon => Tok::Semicolon,
            Token::End => Tok::End,
            Token::Else => Tok::Else,
            Token::Elsif => Tok::Elsif,
            Token::Until => Tok::Until,
            Token::Array => Tok::Array,
            Token::Record => Tok::Record,
            Token::Const => Tok::Const,
            Token::Type => Tok::Type,
            Token::Var => Tok::Var,
            Token::Procedure => Tok::Procedure,
            Token::Begin => Tok::Begin,
            Token::Module => Tok::Module,
        }
    }
}

#[derive(Debug, Copy, Clone, PartialEq, Eq, Structural)]
pub enum ScanError {
    UnfinishedComment(),
    PrematureEof(u32),
    InvalidChar(char, u32),
}

/// Whether `c` is alphabetic or numeric in the sense of Unicode.
pub uninterp spec fn unicode_alphanumeric(c: char) -> bool;

pub open spec fn is_ascii_alphanumeric(c: char) -> bool {
    ('a' <= c && c <= 'z') || ('A' <= c && c <= 'Z') || ('0' <= c && c <= '9')
}

/// Whether `c` is alphanumeric: for ASCII, a letter or a digit.
pub open spec fn alphanumeric(c: char) -> bool {
    if (c as u32) < 0x80 {
        is_ascii_alphanumeric(c)
    } else {
        unicode_alphanumeric(c)
    }
}

/// `char::is_alphanumeric`: whether `c` has the Unicode property Alphabetic
/// or a numeric general category. Stated of ASCII characters only, where it
/// means a letter or a digit; for others the tables of the standard library
/// decide, and the result is only named.
#[verifier::external_body]
pub(crate) fn is_alphanumeric(c: char) -> (b: bool)
    ensures
        b == unicode_alphanumeric(c),
        (c as u32) < 0x80 ==> b == is_ascii_alphanumeric(c),
{
    c.is_alphanumeric()
}

/// The number of alphanumeric characters from index `p` on.
pub open spec fn alnum_run(text: Seq<char>, p: int) -> nat
    decreases text.len() - p,
{
    if 0 <= p < text.len() && alphanumeric(text[p]) {
        1 + alnum_run(text, p + 1)
    } else {
        0
    }
}

/// The keyword that a word is.
pub open spec fn keyword(w: Seq<char>) -> Option<Tok> {
    if w == "DIV"@ {
        Some(Tok::Div)
    } else if w == "MOD"@ {
        Some(Tok::Mod)
    } else if w == "OR"@ {
        Some(Tok::Or)
    } else if w == "OF"@ {
        Some(Tok::Of)
    } else if w == "THEN"@ {
        Some(Tok::Then)
    } else if w == "DO"@ {
        Some(Tok::Do)
    } else if w == "UNTIL"@ {
        Some(Tok::Until)
    } else if w == "END"@ {
        Some(Tok::End)
    } else if w == "ELSE"@ {
        Some(Tok::Else)
    } else if w == "ELSIF"@ {
        Some(Tok::Elsif)
    } else if w == "IF"@ {
        Some(Tok::If)
    } else if w == "WHILE"@ {
        Some(Tok::While)
    } else if w == "REPEAT"@ {
        Some(Tok::Repeat)
    } else if w == "ARRAY"@ {
        Some(Tok::Array)
    } else if w == "RECORD"@ {
        Some(Tok::Record)
    } else if w == "CONST"@ {
        Some(Tok::Const)
    } else if w == "TYPE"@ {
        Some(Tok::Type)
    } else if w == "VAR"@ {
        Some(Tok::Var)
    } else if w == "PROCEDURE"@ {
        Some(Tok::Procedure)
    } else if w == "BEGIN"@ {
        Some(Tok::Begin)
    } else if w == "MODULE"@ {
        Some(Tok::Module)
    } else if w == "TRUE"@ {
        Some(Tok::True)
    } else if w == "FALSE"@ {
        Some(Tok::False)
    } else {
        None
    }
}

/// The token of a word.
pub open spec fn word_token(w: Seq<char>) -> Tok {
    match keyword(w) {
        Some(t) => t,
        None => Tok::Ident(w),
    }
}

/// The token of a character that is a token by itself.
pub open spec fn single_token(c: char) -> Option<Tok> {
    if c == '&' {
        Some(Tok::And)
    } else if c == '+' {
        Some(Tok::Plus)
    } else if c == '-' {
        Some(Tok::Minus)
    } else if c == '=' {
        Some(Tok::Eql)
    } else if c == '#' {
        Some(Tok::Neq)
    } else if c == '*' {
        Some(Tok::Times)
    } else if c == '.' {
        Some(Tok::Period)
    } else if c == ',' {
        Some(Tok::Comma)
    } else if c == ';' {
        Some(Tok::Semicolon)
    } else if c == ')' {
        Some(Tok::Rparen)
    } else if c == ']' {
        Some(Tok::Rbrak)
    } else if c == '[' {
        Some(Tok::Lbrak)
    } else if c == '~' {
        Some(Tok::Not)
    } else {
        None
    }
}

/// The state of a scanner, as a mathematical value: the text, the index of
/// the character it looks at, and the line number.
pub struct ScanState {
    pub text: Seq<char>,
    pub pos: int,
    pub line: u32,
}

impl ScanState {
    pub open spec fn at(self, p: int) -> ScanState {
        ScanState { pos: p, ..self }
    }

    pub open spec fn has(self, p: int, c: char) -> bool {
        0 <= p < self.text.len() && self.text[p] == c
    }
}

/// The next token and the state after it; `Ok(None)` at the end of the
/// text or at a character that starts no token, where the scanner stays.
pub open spec fn r_scan(st: ScanState) -> (ScanState, Result<Option<Tok>, ScanError>)
    decreases st.text.len() - st.pos,
{
    if st.pos < 0 || st.pos >= st.text.len() {
        (st, Ok(None))
    } else {
        let c = st.text[st.pos];
        let p = st.pos;
        if c == ' ' || c == '\t' {
            r_scan(st.at(p + 1))
        } else if c == '\n' {
            r_scan(ScanState { pos: p + 1, line: (st.line + 1) as u32, ..st })
        } else if is_digit(c) {
            let k = digit_run(st.text, p);
            (st.at(p + k), Ok(Some(Tok::Int(digits_value(st.text.subrange(p, p + k)) as u32))))
        } else if alphanumeric(c) {
            let k = alnum_run(st.text, p);
            (st.at(p + k), Ok(Some(word_token(st.text.subrange(p, p + k)))))
        } else if single_token(c) is Some {
            (st.at(p + 1), Ok(Some(single_token(c)->0)))
        } else if c == '(' {
            if st.has(p + 1, '*') {
                r_skip_comment(st.at(p + 1))
            } else {
                (st.at(p + 1), Ok(Some(Tok::Lparen)))
            }
        } else if c == '>' || c == '<' || c == ':' {
            let with_eq = st.has(p + 1, '=');
            let t = if c == '>' {
                if with_eq {
                    Tok::Geq
                } else {
                    Tok::Gtr
                }
            } else if c == '<' {
                if with_eq {
                    Tok::Leq
                } else {
                    Tok::Lss
                }
            } else {
                if with_eq {
                    Tok::Becomes
                } else {
                    Tok::Colon
                }
            };
            (st.at(if with_eq { p + 2 } else { p + 1 }), Ok(Some(t)))
        } else {
            (st, Ok(None))
        }
    }
}

/// Skips a comment whose last character read is at `st.pos`, then scans on.
pub open spec fn r_skip_comment(st: ScanState) -> (ScanState, Result<Option<Tok>, ScanError>)
    decreases st.text.len() - st.pos,
{
    let p1 = st.pos + 1;
    if st.pos < 0 || p1 >= st.text.len() {
        (st.at(st.text.len() as int), Err(ScanError::UnfinishedComment()))
    } else if st.text[p1] == '*' {
        let p2 = p1 + 1;
        if p2 >= st.text.len() {
            (st.at(st.text.len() as int), Err(ScanError::UnfinishedComment()))
        } else if st.text[p2] == ')' {
            r_scan(st.at(p2 + 1))
        } else {
            r_skip_comment(st.at(p2))
        }
    } else {
        r_skip_comment(st.at(p1))
    }
}

/// Where the next scan would read a number that does not fit in 32 bits.
pub open spec fn r_scan_overflows(st: ScanState) -> bool
    decreases st.text.len() - st.pos,
{
    if st.pos < 0 || st.pos >= st.text.len() {
        false
    } else {
        let c = st.text[st.pos];
        let p = st.pos;
        if c == ' ' || c == '\t' {
            r_scan_overflows(st.at(p + 1))
        } else if c == '\n' {
            r_scan_overflows(ScanState { pos: p + 1, line: (st.line + 1) as u32, ..st })
        } else if is_digit(c) {
            digits_value(st.text.subrange(p, p + digit_run(st.text, p))) > u32::MAX
        } else if c == '(' && st.has(p + 1, '*') {
            r_comment_overflows(st.at(p + 1))
        } else {
            false
        }
    }
}

pub open spec fn r_comment_overflows(st: ScanState) -> bool
    decreases st.text.len() - st.pos,
{
    let p1 = st.pos + 1;
    if st.pos < 0 || p1 >= st.text.len() {
        false
    } else if st.text[p1] == '*' {
        let p2 = p1 + 1;
        if p2 >= st.text.len() {
            false
        } else if st.text[p2] == ')' {
            r_scan_overflows(st.at(p2 + 1))
        } else {
            r_comment_overflows(st.at(p2))
        }
    } else {
        r_comment_overflows(st.at(p1))
    }
}

pub struct Scanner {
    line: u32,
    text: Vec<char>,
    pos: usize,
}

impl View for Scanner {
    type V = ScanState;

    closed spec fn view(&self) -> ScanState {
        ScanState { text: self.text@, pos: self.pos as int, line: self.line }
    }
}

/// The characters counted by `alnum_run`.
proof fn lemma_alnum_run(text: Seq<char>, p: int)
    requires
        0 <= p <= text.len(),
    ensures
        p + alnum_run(text, p) <= text.len(),
        forall|j: int| p <= j < p + alnum_run(text, p) ==> alphanumeric(#[trigger] text[j]),
        p + alnum_run(text, p) < text.len() ==> !alphanumeric(text[p + alnum_run(text, p)]),
    decreases text.len() - p,
{
    if p < text.len() && alphanumeric(text[p]) {
        lemma_alnum_run(text, p + 1);
    }
}

/// A scan that gives a token moves on; no scan moves back.
pub proof fn lemma_scan_progress(st: ScanState)
    requires
        0 <= st.pos <= st.text.len(),
    ensures
        st.pos <= r_scan(st).0.pos <= st.text.len(),
        r_scan(st).0.text == st.text,
        r_scan(st).1 matches Ok(Some(_)) ==> r_scan(st).0.pos > st.pos,
    decreases st.text.len() - st.pos,
{
    if st.pos < st.text.len() {
        let c = st.text[st.pos];
        let p = st.pos;
        if c == ' ' || c == '\t' {
            lemma_scan_progress(st.at(p + 1));
        } else if c == '\n' {
            lemma_scan_progress(ScanState { pos: p + 1, line: (st.line + 1) as u32, ..st });
        } else if is_digit(c) {
            lemma_digit_run(st.text, p);
        } else if alphanumeric(c) {
            lemma_alnum_run(st.text, p);
        } else if single_token(c) is None && c == '(' && st.has(p + 1, '*') {
            lemma_comment_progress(st.at(p + 1));
        }
    }
}

proof fn lemma_comment_progress(st: ScanState)
    requires
        0 <= st.pos < st.text.len(),
    ensures
        st.pos <= r_skip_comment(st).0.pos <= st.text.len(),
        r_skip_comment(st).0.text == st.text,
        r_skip_comment(st).1 matches Ok(Some(_)) ==> r_skip_comment(st).0.pos > st.pos,
    decreases st.text.len() - st.pos,
{
    let p1 = st.pos + 1;
    if p1 < st.text.len() {
        if st.text[p1] == '*' {
            let p2 = p1 + 1;
            if p2 < st.text.len() {
                if st.text[p2] == ')' {
                    lemma_scan_progress(st.at(p2 + 1));
                } else {
                    lemma_comment_progress(st.at(p2));
                }
            }
        } else {
            lemma_comment_progress(st.at(p1));
        }
    }
}

fn single_token_exec(c: char) -> (r: Option<Token>)
    ensures
        match r {
            Some(t) => single_token(c) == Some(t@),
            None => single_token(c) is None,
        },
{
    if c == '&' {
        Some(Token::And)
    } else if c == '+' {
        Some(Token::Plus)
    } else if c == '-' {
        Some(Token::Minus)
    } else if c == '=' {
        Some(Token::Eql)
    } else if c == '#' {
        Some(Token::Neq)
    } else if c == '*' {
        Some(Token::Times)
    } else if c == '.' {
        Some(Token::Period)
    } else if c == ',' {
        Some(Token::Comma)
    } else if c == ';' {
        Some(Token::Semicolon)
    } else if c == ')' {
        Some(Token::Rparen)
    } else if c == ']' {
        Some(Token::Rbrak)
    } else if c == '[' {
        Some(Token::Lbrak)
    } else if c == '~' {
        Some(Token::Not)
    } else {
        None
    }
}

fn word_token_exec(w: &Vec<char>) -> (t: Token)
    ensures
        t@ == word_token(w@),
{
    if eq_lit(w, "DIV") {
        Token::Div
    } else if eq_lit(w, "MOD") {
        Token::Mod
    } else if eq_lit(w, "OR") {
        Token::Or
    } else if eq_lit(w, "OF") {
        Token::Of
    } else if eq_lit(w, "THEN") {
        Token::Then
    } else if eq_lit(w, "DO") {
        Token::Do
    } else if eq_lit(w, "UNTIL") {
        Token::Until
    } else if eq_lit(w, "END") {
        Token::End
    } else if eq_lit(w, "ELSE") {
        Token::Else
    } else if eq_lit(w, "ELSIF") {
        Token::Elsif
    } else if eq_lit(w, "IF") {
        Token::If
    } else if eq_lit(w, "WHILE") {
        Token::While
    } else if eq_lit(w, "REPEAT") {
        Token::Repeat
    } else if eq_lit(w, "ARRAY") {
        Token::Array
    } else if eq_lit(w, "RECORD") {
        Token::Record
    } else if eq_lit(w, "CONST") {
        Token::Const
    } else if eq_lit(w, "TYPE") {
        Token::Type
    } else if eq_lit(w, "VAR") {
        Token::Var
    } else if eq_lit(w, "PROCEDURE") {
        Token::Procedure
    } else if eq_lit(w, "BEGIN") {
        Token::Begin
    } else if eq_lit(w, "MODULE") {
        Token::Module
    } else if eq_lit(w, "TRUE") {
        Token::True
    } else if eq_lit(w, "FALSE") {
        Token::False
    } else {
        Token::Ident(string_from_chars(w))
    }
}

/// The view of a scan result.
pub open spec fn scan_view(r: Result<Option<Token>, ScanError>) -> Result<Option<Tok>, ScanError> {
    match r {
        Ok(Some(t)) => Ok(Some(t@)),
        Ok(None) => Ok(None),
        Err(e) => Err(e),
    }
}

impl Scanner {
    /// The internal invariant: the line number cannot overflow.
    pub closed spec fn wf(&self) -> bool {
        &&& self.pos <= self.text.len()
        &&& self.text.len() + 1 <= u32::MAX
        &&& self.line <= self.pos + 1
    }

    pub fn new(content: &String) -> (s: Scanner)
        requires
            content@.len() + 1 <= u32::MAX,
        ensures
            s.wf(),
            s@ == (ScanState { text: content@, pos: 0, line: 1 }),
    {
        let text = chars_of(content.as_str());
        Scanner { line: 1, text, pos: 0 }
    }

    /// A scanner looks at a place in its text.
    pub proof fn lemma_bounds(&self)
        requires
            self.wf(),
        ensures
            0 <= self@.pos <= self@.text.len(),
    {
    }

    /// The number of the line being read.
    pub fn line(&self) -> (l: u32)
        ensures
            l == self@.line,
    {
        self.line
    }

    /// The next token.
    pub fn scan(&mut self) -> (r: Result<Option<Token>, ScanError>)
        requires
            old(self).wf(),
            !r_scan_overflows(old(self)@),
        ensures
            final(self).wf(),
            (final(self)@, scan_view(r)) == r_scan(old(self)@),
    {
        loop
            invariant
                self.wf(),
                r_scan(self@) == r_scan(old(self)@),
                !r_scan_overflows(self@),
            decreases self.text.len() - self.pos,
        {
            if self.pos >= self.text.len() {
                return Ok(None);
            }
            let c = self.text[self.pos];
            if c == ' ' || c == '\t' {
                self.pos = self.pos + 1;
                continue;
            } else if c == '\n' {
                self.line = self.line + 1;
                self.pos = self.pos + 1;
                continue;
            } else if '0' <= c && c <= '9' {
                return self.scan_number();
            } else if is_alphanumeric(c) {
                return self.scan_word();
            }
            match single_token_exec(c) {
                Some(t) => {
                    self.pos = self.pos + 1;
                    return Ok(Some(t));
                },
                None => {},
            }
            if c == '(' {
                if self.pos + 1 < self.text.len() && self.text[self.pos + 1] == '*' {
                    self.pos = self.pos + 1;
                    match self.skip_comment() {
                        true => {
                            continue;
                        },
                        false => {
                            return Err(ScanError::UnfinishedComment());
                        },
                    }
                } else {
                    self.pos = self.pos + 1;
                    return Ok(Some(Token::Lparen));
                }
            } else if c == '>' || c == '<' || c == ':' {
                let with_eq = self.pos + 1 < self.text.len() && self.text[self.pos + 1] == '=';
                let t = if c == '>' {
                    if with_eq { Token::Geq } else { Token::Gtr }
                } else if c == '<' {
                    if with_eq { Token::Leq } else { Token::Lss }
                } else {
                    if with_eq { Token::Becomes } else { Token::Colon }
                };
                self.pos = if with_eq { self.pos + 2 } else { self.pos + 1 };
                return Ok(Some(t));
            } else {
                return Ok(None);
            }
        }
    }

    /// Whether the next scan would read a number that does not fit in 32
    /// bits (where `scan` must not be called).
    pub fn scan_overflows(&self) -> (b: bool)
        requires
            self.wf(),
        ensures
            b == r_scan_overflows(self@),
    {
        let mut p: usize = self.pos;
        let ghost mut line: u32 = self.line;
        loop
            invariant
                self.wf(),
                p <= self.text.len(),
                r_scan_overflows(ScanState { text: self.text@, pos: p as int, line })
                    == r_scan_overflows(self@),
            decreases self.text.len() - p,
        {
            if p >= self.text.len() {
                return false;
            }
            let c = self.text[p];
            if c == ' ' || c == '\t' {
                p = p + 1;
            } else if c == '\n' {
                proof {
                    line = #[verifier::truncate] ((line + 1) as u32);
                }
                p = p + 1;
            } else if '0' <= c && c <= '9' {
                return !run_within(&self.text, p, 0xffff_ffff);
            } else if c == '(' && p + 1 < self.text.len() && self.text[p + 1] == '*' {
                let ghost p0 = p;
                let mut q: usize = p + 1;
                loop
                    invariant_except_break
                        p0 < q < self.text.len(),
                        p == p0,
                        r_comment_overflows(ScanState { text: self.text@, pos: q as int, line })
                            == r_scan_overflows(self@),
                    invariant
                        self.wf(),
                    ensures
                        p0 < p <= self.text.len(),
                        r_scan_overflows(ScanState { text: self.text@, pos: p as int, line })
                            == r_scan_overflows(self@),
                    decreases self.text.len() - q,
                {
                    let q1 = q + 1;
                    if q1 >= self.text.len() {
                        return false;
                    }
                    if self.text[q1] == '*' {
                        let q2 = q1 + 1;
                        if q2 >= self.text.len() {
                            return false;
                        }
                        if self.text[q2] == ')' {
                            p = q2 + 1;
                            break;
                        }
                        q = q2;
                    } else {
                        q = q1;
                    }
                }
            } else {
                return false;
            }
        }
    }

    /// Skips the rest of a comment whose last character read is at `pos`:
    /// true when it is closed, with the state after it.
    fn skip_comment(&mut self) -> (closed: bool)
        requires
            old(self).wf(),
            old(self).pos < old(self).text.len(),
            !r_comment_overflows(old(self)@),
        ensures
            final(self).wf(),
            final(self).text@ == old(self).text@,
            closed ==> final(self).pos > old(self).pos,
            closed ==> r_skip_comment(old(self)@) == r_scan(final(self)@),
            closed ==> !r_scan_overflows(final(self)@),
            !closed ==> r_skip_comment(old(self)@) == (final(self)@, Err::<Option<Tok>, ScanError>(ScanError::UnfinishedComment())),
    {
        loop
            invariant
                self.wf(),
                self.pos < self.text.len(),
                self.pos >= old(self).pos,
                self.text@ == old(self).text@,
                self.line == old(self).line,
                r_skip_comment(self@) == r_skip_comment(old(self)@),
                !r_comment_overflows(self@),
            decreases self.text.len() - self.pos,
        {
            let p1 = self.pos + 1;
            if p1 >= self.text.len() {
                self.pos = self.text.len();
                return false;
            }
            if self.text[p1] == '*' {
                let p2 = p1 + 1;
                if p2 >= self.text.len() {
                    self.pos = self.text.len();
                    return false;
                }
                if self.text[p2] == ')' {
                    self.pos = p2 + 1;
                    return true;
                }
                self.pos = p2;
            } else {
                self.pos = p1;
            }
        }
    }

    /// Scans a decimal number.
    fn scan_number(&mut self) -> (r: Result<Option<Token>, ScanError>)
        requires
            old(self).wf(),
            old(self).pos < old(self).text.len(),
            is_digit(old(self).text@[old(self).pos as int]),
            !r_scan_overflows(old(self)@),
        ensures
            final(self).wf(),
            (final(self)@, scan_view(r)) == r_scan(old(self)@),
    {
        let ghost p0 = self.pos as int;
        let ghost k = digit_run(self.text@, p0);
        let ghost whole = self.text@.subrange(p0, p0 + k);
        proof {
            lemma_digit_run(self.text@, p0);
            assert forall|i: int| 0 <= i < whole.len() implies is_digit(#[trigger] whole[i]) by {
                assert(whole[i] == self.text@[p0 + i]);
            }
            assert(self.text@.subrange(p0, p0) =~= Seq::<char>::empty());
        }
        let mut v: u32 = 0;
        while self.pos < self.text.len() && '0' <= self.text[self.pos] && self.text[self.pos] <= '9'
            invariant
                self.wf(),
                self.text@ == old(self).text@,
                self.line == old(self).line,
                p0 <= self.pos <= p0 + k,
                p0 + k <= self.text.len(),
                k == digit_run(self.text@, p0),
                whole == self.text@.subrange(p0, p0 + k),
                digits_value(whole) <= u32::MAX,
                all_digits(whole),
                forall|j: int| p0 <= j < p0 + k ==> is_digit(#[trigger] self.text@[j]),
                p0 + k < self.text.len() ==> !is_digit(self.text@[p0 + k]),
                v == digits_value(self.text@.subrange(p0, self.pos as int)),
            decreases self.text.len() - self.pos,
        {
            let d = (self.text[self.pos] as u32) - ('0' as u32);
            proof {
                let j = self.pos - p0 + 1;
                assert(whole.take(j) =~= self.text@.subrange(p0, self.pos + 1));
                assert(self.text@.subrange(p0, self.pos + 1).drop_last() =~= self.text@.subrange(p0, self.pos as int));
                lemma_digits_value_prefix(whole, j);
            }
            v = v * 10 + d;
            self.pos = self.pos + 1;
        }
        assert(self.pos == p0 + k);
        Ok(Some(Token::Int(v)))
    }

    /// Scans a word of alphanumeric characters: a keyword or an identifier.
    fn scan_word(&mut self) -> (r: Result<Option<Token>, ScanError>)
        requires
            old(self).wf(),
            old(self).pos < old(self).text.len(),
            alphanumeric(old(self).text@[old(self).pos as int]),
        ensures
            final(self).wf(),
            final(self)@ == old(self)@.at(old(self).pos + alnum_run(old(self).text@, old(self).pos as int)),
            scan_view(r) == Ok::<Option<Tok>, ScanError>(Some(word_token(old(self).text@.subrange(old(self).pos as int, old(self).pos + alnum_run(old(self).text@, old(self).pos as int))))),
    {
        let ghost p0 = self.pos as int;
        let ghost k = alnum_run(self.text@, p0);
        proof {
            lemma_alnum_run(self.text@, p0);
        }
        let mut w: Vec<char> = Vec::new();
        while self.pos < self.text.len() && is_alphanumeric(self.text[self.pos])
            invariant
                self.wf(),
                self.text@ == old(self).text@,
                self.line == old(self).line,
                p0 <= self.pos <= p0 + k,
                p0 + k <= self.text.len(),
                k == alnum_run(self.text@, p0),
                forall|j: int| p0 <= j < p0 + k ==> alphanumeric(#[trigger] self.text@[j]),
                p0 + k < self.text.len() ==> !alphanumeric(self.text@[p0 + k]),
                w@ == self.text@.subrange(p0, self.pos as int),
            decreases self.text.len() - self.pos,
        {
            w.push(self.text[self.pos]);
            self.pos = self.pos + 1;
            assert(w@ =~= self.text@.subrange(p0, self.pos as int));
        }
        assert(self.pos == p0 + k);
        Ok(Some(word_token_exec(&w)))
    }
}

/// Each reserved word scans as its own token, and no two words scan as the
/// same keyword.
pub proof fn law_keywords(w1: Seq<char>, w2: Seq<char>)
    ensures
        keyword("DIV"@) == Some(Tok::Div),
        keyword("MOD"@) == Some(Tok::Mod),
        keyword("OR"@) == Some(Tok::Or),
        keyword("OF"@) == Some(Tok::Of),
        keyword("THEN"@) == Some(Tok::Then),
        keyword("DO"@) == Some(Tok::Do),
        keyword("UNTIL"@) == Some(Tok::Until),
        keyword("END"@) == Some(Tok::End),
        keyword("ELSE"@) == Some(Tok::Else),
        keyword("ELSIF"@) == Some(Tok::Elsif),
        keyword("IF"@) == Some(Tok::If),
        keyword("WHILE"@) == Some(Tok::While),
        keyword("REPEAT"@) == Some(Tok::Repeat),
        keyword("ARRAY"@) == Some(Tok::Array),
        keyword("RECORD"@) == Some(Tok::Record),
        keyword("CONST"@) == Some(Tok::Const),
        keyword("TYPE"@) == Some(Tok::Type),
        keyword("VAR"@) == Some(Tok::Var),
        keyword("PROCEDURE"@) == Some(Tok::Procedure),
        keyword("BEGIN"@) == Some(Tok::Begin),
        keyword("MODULE"@) == Some(Tok::Module),
        keyword("TRUE"@) == Some(Tok::True),
        keyword("FALSE"@) == Some(Tok::False),
        keyword(w1) is Some && keyword(w1) == keyword(w2) ==> w1 == w2,
{
    reveal_strlit("DIV");
    reveal_strlit("MOD");
    reveal_strlit("OR");
    reveal_strlit("OF");
    reveal_strlit("THEN");
    reveal_strlit("DO");
    reveal_strlit("UNTIL");
    reveal_strlit("END");
    reveal_strlit("ELSE");
    reveal_strlit("ELSIF");
    reveal_strlit("IF");
    reveal_strlit("WHILE");
    reveal_strlit("REPEAT");
    reveal_strlit("ARRAY");
    reveal_strlit("RECORD");
    reveal_strlit("CONST");
    reveal_strlit("TYPE");
    reveal_strlit("VAR");
    reveal_strlit("PROCEDURE");
    reveal_strlit("BEGIN");
    reveal_strlit("MODULE");
    reveal_strlit("TRUE");
    reveal_strlit("FALSE");
    assert("MOD"@[0] != "DIV"@[0]);
    assert("OR"@.len() != "DIV"@.len());
    assert("OR"@.len() != "MOD"@.len());
    assert("OF"@.len() != "DIV"@.len());
    assert("OF"@.len() != "MOD"@.len());
    assert("OF"@[1] != "OR"@[1]);
    assert("THEN"@.len() != "DIV"@.len());
    assert("THEN"@.len() != "MOD"@.len());
    assert("THEN"@.len() != "OR"@.len());
    assert("THEN"@.len() != "OF"@.len());
    assert("DO"@.len() != "DIV"@.len());
    assert("DO"@.len() != "MOD"@.len());
    assert("DO"@[0] != "OR"@[0]);
    assert("DO"@[0] != "OF"@[0]);
    assert("DO"@.len() != "THEN"@.len());
    assert("UNTIL"@.len() != "DIV"@.len());
    assert("UNTIL"@.len() != "MOD"@.len());
    assert("UNTIL"@.len() != "OR"@.len());
    assert("UNTIL"@.len() != "OF"@.len());
    assert("UNTIL"@.len() != "THEN"@.len());
    assert("UNTIL"@.len() != "DO"@.len());
    assert("END"@[0] != "DIV"@[0]);
    assert("END"@[0] != "MOD"@[0]);
    assert("END"@.len() != "OR"@.len());
    assert("END"@.len() != "OF"@.len());
    assert("END"@.len() != "THEN"@.len());
    assert("END"@.len() != "DO"@.len());
    assert("END"@.len() != "UNTIL"@.len());
    assert("ELSE"@.len() != "DIV"@.len());
    assert("ELSE"@.len() != "MOD"@.len());
    assert("ELSE"@.len() != "OR"@.len());
    assert("ELSE"@.len() != "OF"@.len());
    assert("ELSE"@[0] != "THEN"@[0]);
    assert("ELSE"@.len() != "DO"@.len());
    assert("ELSE"@.len() != "UNTIL"@.len());
    assert("ELSE"@.len() != "END"@.len());
    assert("ELSIF"@.len() != "DIV"@.len());
    assert("ELSIF"@.len() != "MOD"@.len());
    assert("ELSIF"@.len() != "OR"@.len());
    assert("ELSIF"@.len() != "OF"@.len());
    assert("ELSIF"@.len() != "THEN"@.len());
    assert("ELSIF"@.len() != "DO"@.len());
    assert("ELSIF"@[0] != "UNTIL"@[0]);
    assert("ELSIF"@.len() != "END"@.len());
    assert("ELSIF"@.len() != "ELSE"@.len());
    assert("IF"@.len() != "DIV"@.len());
    assert("IF"@.len() != "MOD"@.len());
    assert("IF"@[0] != "OR"@[0]);
    assert("IF"@[0] != "OF"@[0]);
    assert("IF"@.len() != "THEN"@.len());
    assert("IF"@[0] != "DO"@[0]);
    assert("IF"@.len() != "UNTIL"@.len());
    assert("IF"@.len() != "END"@.len());
    assert("IF"@.len() != "ELSE"@.len());
    assert("IF"@.len() != "ELSIF"@.len());
    assert("WHILE"@.len() != "DIV"@.len());
    assert("WHILE"@.len() != "MOD"@.len());
    assert("WHILE"@.len() != "OR"@.len());
    assert("WHILE"@.len() != "OF"@.len());
    assert("WHILE"@.len() != "THEN"@.len());
    assert("WHILE"@.len() != "DO"@.len());
    assert("WHILE"@[0] != "UNTIL"@[0]);
    assert("WHILE"@.len() != "END"@.len());
    assert("WHILE"@.len() != "ELSE"@.len());
    assert("WHILE"@[0] != "ELSIF"@[0]);
    assert("WHILE"@.len() != "IF"@.len());
    assert("REPEAT"@.len() != "DIV"@.len());
    assert("REPEAT"@.len() != "MOD"@.len());
    assert("REPEAT"@.len() != "OR"@.len());
    assert("REPEAT"@.len() != "OF"@.len());
    assert("REPEAT"@.len() != "THEN"@.len());
    assert("REPEAT"@.len() != "DO"@.len());
    assert("REPEAT"@.len() != "UNTIL"@.len());
    assert("REPEAT"@.len() != "END"@.len());
    assert("REPEAT"@.len() != "ELSE"@.len());
    assert("REPEAT"@.len() != "ELSIF"@.len());
    assert("REPEAT"@.len() != "IF"@.len());
    assert("REPEAT"@.len() != "WHILE"@.len());
    assert("ARRAY"@.len() != "DIV"@.len());
    assert("ARRAY"@.len() != "MOD"@.len());
    assert("ARRAY"@.len() != "OR"@.len());
    assert("ARRAY"@.len() != "OF"@.len());
    assert("ARRAY"@.len() != "THEN"@.len());
    assert("ARRAY"@.len() != "DO"@.len());
    assert("ARRAY"@[0] != "UNTIL"@[0]);
    assert("ARRAY"@.len() != "END"@.len());
    assert("ARRAY"@.len() != "ELSE"@.len());
    assert("ARRAY"@[0] != "ELSIF"@[0]);
    assert("ARRAY"@.len() != "IF"@.len());
    assert("ARRAY"@[0] != "WHILE"@[0]);
    assert("ARRAY"@.len() != "REPEAT"@.len());
    assert("RECORD"@.len() != "DIV"@.len());
    assert("RECORD"@.len() != "MOD"@.len());
    assert("RECORD"@.len() != "OR"@.len());
    assert("RECORD"@.len() != "OF"@.len());
    assert("RECORD"@.len() != "THEN"@.len());
    assert("RECORD"@.len() != "DO"@.len());
    assert("RECORD"@.len() != "UNTIL"@.len());
    assert("RECORD"@.len() != "END"@.len());
    assert("RECORD"@.len() != "ELSE"@.len());
    assert("RECORD"@.len() != "ELSIF"@.len());
    assert("RECORD"@.len() != "IF"@.len());
    assert("RECORD"@.len() != "WHILE"@.len());
    assert("RECORD"@[2] != "REPEAT"@[2]);
    assert("RECORD"@.len() != "ARRAY"@.len());
    assert("CONST"@.len() != "DIV"@.len());
    assert("CONST"@.len() != "MOD"@.len());
    assert("CONST"@.len() != "OR"@.len());
    assert("CONST"@.len() != "OF"@.len());
    assert("CONST"@.len() != "THEN"@.len());
    assert("CONST"@.len() != "DO"@.len());
    assert("CONST"@[0] != "UNTIL"@[0]);
    assert("CONST"@.len() != "END"@.len());
    assert("CONST"@.len() != "ELSE"@.len());
    assert("CONST"@[0] != "ELSIF"@[0]);
    assert("CONST"@.len() != "IF"@.len());
    assert("CONST"@[0] != "WHILE"@[0]);
    assert("CONST"@.len() != "REPEAT"@.len());
    assert("CONST"@[0] != "ARRAY"@[0]);
    assert("CONST"@.len() != "RECORD"@.len());
    assert("TYPE"@.len() != "DIV"@.len());
    assert("TYPE"@.len() != "MOD"@.len());
    assert("TYPE"@.len() != "OR"@.len());
    assert("TYPE"@.len() != "OF"@.len());
    assert("TYPE"@[1] != "THEN"@[1]);
    assert("TYPE"@.len() != "DO"@.len());
    assert("TYPE"@.len() != "UNTIL"@.len());
    assert("TYPE"@.len() != "END"@.len());
    assert("TYPE"@[0] != "ELSE"@[0]);
    assert("TYPE"@.len() != "ELSIF"@.len());
    assert("TYPE"@.len() != "IF"@.len());
    assert("TYPE"@.len() != "WHILE"@.len());
    assert("TYPE"@.len() != "REPEAT"@.len());
    assert("TYPE"@.len() != "ARRAY"@.len());
    assert("TYPE"@.len() != "RECORD"@.len());
    assert("TYPE"@.len() != "CONST"@.len());
    assert("VAR"@[0] != "DIV"@[0]);
    assert("VAR"@[0] != "MOD"@[0]);
    assert("VAR"@.len() != "OR"@.len());
    assert("VAR"@.len() != "OF"@.len());
    assert("VAR"@.len() != "THEN"@.len());
    assert("VAR"@.len() != "DO"@.len());
    assert("VAR"@.len() != "UNTIL"@.len());
    assert("VAR"@[0] != "END"@[0]);
    assert("VAR"@.len() != "ELSE"@.len());
    assert("VAR"@.len() != "ELSIF"@.len());
    assert("VAR"@.len() != "IF"@.len());
    assert("VAR"@.len() != "WHILE"@.len());
    assert("VAR"@.len() != "REPEAT"@.len());
    assert("VAR"@.len() != "ARRAY"@.len());
    assert("VAR"@.len() != "RECORD"@.len());
    assert("VAR"@.len() != "CONST"@.len());
    assert("VAR"@.len() != "TYPE"@.len());
    assert("PROCEDURE"@.len() != "DIV"@.len());
    assert("PROCEDURE"@.len() != "MOD"@.len());
    assert("PROCEDURE"@.len() != "OR"@.len());
    assert("PROCEDURE"@.len() != "OF"@.len());
    assert("PROCEDURE"@.len() != "THEN"@.len());
    assert("PROCEDURE"@.len() != "DO"@.len());
    assert("PROCEDURE"@.len() != "UNTIL"@.len());
    assert("PROCEDURE"@.len() != "END"@.len());
    assert("PROCEDURE"@.len() != "ELSE"@.len());
    assert("PROCEDURE"@.len() != "ELSIF"@.len());
    assert("PROCEDURE"@.len() != "IF"@.len());
    assert("PROCEDURE"@.len() != "WHILE"@.len());
    assert("PROCEDURE"@.len() != "REPEAT"@.len());
    assert("PROCEDURE"@.len() != "ARRAY"@.len());
    assert("PROCEDURE"@.len() != "RECORD"@.len());
    assert("PROCEDURE"@.len() != "CONST"@.len());
    assert("PROCEDURE"@.len() != "TYPE"@.len());
    assert("PROCEDURE"@.len() != "VAR"@.len());
    assert("BEGIN"@.len() != "DIV"@.len());
    assert("BEGIN"@.len() != "MOD"@.len());
    assert("BEGIN"@.len() != "OR"@.len());
    assert("BEGIN"@.len() != "OF"@.len());
    assert("BEGIN"@.len() != "THEN"@.len());
    assert("BEGIN"@.len() != "DO"@.len());
    assert("BEGIN"@[0] != "UNTIL"@[0]);
    assert("BEGIN"@.len() != "END"@.len());
    assert("BEGIN"@.len() != "ELSE"@.len());
    assert("BEGIN"@[0] != "ELSIF"@[0]);
    assert("BEGIN"@.len() != "IF"@.len());
    assert("BEGIN"@[0] != "WHILE"@[0]);
    assert("BEGIN"@.len() != "REPEAT"@.len());
    assert("BEGIN"@[0] != "ARRAY"@[0]);
    assert("BEGIN"@.len() != "RECORD"@.len());
    assert("BEGIN"@[0] != "CONST"@[0]);
    assert("BEGIN"@.len() != "TYPE"@.len());
    assert("BEGIN"@.len() != "VAR"@.len());
    assert("BEGIN"@.len() != "PROCEDURE"@.len());
    assert("MODULE"@.len() != "DIV"@.len());
    assert("MODULE"@.len() != "MOD"@.len());
    assert("MODULE"@.len() != "OR"@.len());
    assert("MODULE"@.len() != "OF"@.len());
    assert("MODULE"@.len() != "THEN"@.len());
    assert("MODULE"@.len() != "DO"@.len());
    assert("MODULE"@.len() != "UNTIL"@.len());
    assert("MODULE"@.len() != "END"@.len());
    assert("MODULE"@.len() != "ELSE"@.len());
    assert("MODULE"@.len() != "ELSIF"@.len());
    assert("MODULE"@.len() != "IF"@.len());
    assert("MODULE"@.len() != "WHILE"@.len());
    assert("MODULE"@[0] != "REPEAT"@[0]);
    assert("MODULE"@.len() != "ARRAY"@.len());
    assert("MODULE"@[0] != "RECORD"@[0]);
    assert("MODULE"@.len() != "CONST"@.len());
    assert("MODULE"@.len() != "TYPE"@.len());
    assert("MODULE"@.len() != "VAR"@.len());
    assert("MODULE"@.len() != "PROCEDURE"@.len());
    assert("MODULE"@.len() != "BEGIN"@.len());
    assert("TRUE"@.len() != "DIV"@.len());
    assert("TRUE"@.len() != "MOD"@.len());
    assert("TRUE"@.len() != "OR"@.len());
    assert("TRUE"@.len() != "OF"@.len());
    assert("TRUE"@[1] != "THEN"@[1]);
    assert("TRUE"@.len() != "DO"@.len());
    assert("TRUE"@.len() != "UNTIL"@.len());
    assert("TRUE"@.len() != "END"@.len());
    assert("TRUE"@[0] != "ELSE"@[0]);
    assert("TRUE"@.len() != "ELSIF"@.len());
    assert("TRUE"@.len() != "IF"@.len());
    assert("TRUE"@.len() != "WHILE"@.len());
    assert("TRUE"@.len() != "REPEAT"@.len());
    assert("TRUE"@.len() != "ARRAY"@.len());
    assert("TRUE"@.len() != "RECORD"@.len());
    assert("TRUE"@.len() != "CONST"@.len());
    assert("TRUE"@[1] != "TYPE"@[1]);
    assert("TRUE"@.len() != "VAR"@.len());
    assert("TRUE"@.len() != "PROCEDURE"@.len());
    assert("TRUE"@.len() != "BEGIN"@.len());
    assert("TRUE"@.len() != "MODULE"@.len());
    assert("FALSE"@.len() != "DIV"@.len());
    assert("FALSE"@.len() != "MOD"@.len());
    assert("FALSE"@.len() != "OR"@.len());
    assert("FALSE"@.len() != "OF"@.len());
    assert("FALSE"@.len() != "THEN"@.len());
    assert("FALSE"@.len() != "DO"@.len());
    assert("FALSE"@[0] != "UNTIL"@[0]);
    assert("FALSE"@.len() != "END"@.len());
    assert("FALSE"@.len() != "ELSE"@.len());
    assert("FALSE"@[0] != "ELSIF"@[0]);
    assert("FALSE"@.len() != "IF"@.len());
    assert("FALSE"@[0] != "WHILE"@[0]);
    assert("FALSE"@.len() != "REPEAT"@.len());
    assert("FALSE"@[0] != "ARRAY"@[0]);
    assert("FALSE"@.len() != "RECORD"@.len());
    assert("FALSE"@[0] != "CONST"@[0]);
    assert("FALSE"@.len() != "TYPE"@.len());
    assert("FALSE"@.len() != "VAR"@.len());
    assert("FALSE"@.len() != "PROCEDURE"@.len());
    assert("FALSE"@[0] != "BEGIN"@[0]);
    assert("FALSE"@.len() != "MODULE"@.len());
    assert("FALSE"@.len() != "TRUE"@.len());
}

/// Each character that is a token by itself scans as the token it names,
/// and no two characters scan as the same token.
pub proof fn law_single_character_tokens(w1: char, w2: char)
    ensures
        single_token('&') == Some(Tok::And),
        single_token('+') == Some(Tok::Plus),
        single_token('-') == Some(Tok::Minus),
        single_token('=') == Some(Tok::Eql),
        single_token('#') == Some(Tok::Neq),
        single_token('*') == Some(Tok::Times),
        single_token('.') == Some(Tok::Period),
        single_token(',') == Some(Tok::Comma),
        single_token(';') == Some(Tok::Semicolon),
        single_token(')') == Some(Tok::Rparen),
        single_token(']') == Some(Tok::Rbrak),
        single_token('[') == Some(Tok::Lbrak),
        single_token('~') == Some(Tok::Not),
        single_token(w1) is Some && single_token(w1) == single_token(w2) ==> w1 == w2,
{
}

} // verus!
