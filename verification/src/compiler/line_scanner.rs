//! A scanner of one line of Oberon text: identifiers, numbers, `:=`, `:`,
//! `;` and parentheses, each placed at the byte offset of its first
//! character.

use vstd::prelude::*;

use crate::compiler::token::{ScanContext, ScanError, ScanErrorType, ScanResult, ScanV, Tok, Token, next_view};
use crate::dom_ast::line_scanner::{
    alpha_run, byte_offset, is_alpha, is_ascii, lemma_alpha_run, lemma_byte_offset_bound,
    utf8_len_exec,
};
use crate::text::{
    all_digits, chars_of, digit_run, digits_value, is_digit, lemma_digit_run, lemma_digits_value_prefix,
    string_from_chars,
};

verus! {

/// The state of a line scanner, as a mathematical value.
pub struct LineState {
    pub text: Seq<char>,
    // Index of the next character.
    pub pos: int,
    pub line_number: u32,
    // Characters stepped over.
    pub column_number: u32,
}

impl LineState {
    /// Steps over `k` characters, counting them.
    pub open spec fn advance(self, k: int) -> LineState {
        LineState { pos: self.pos + k, column_number: (self.column_number + k) as u32, ..self }
    }

    /// Steps over a character without counting it.
    pub open spec fn skip(self) -> LineState {
        LineState { pos: self.pos + 1, ..self }
    }

    pub open spec fn context(self, at: int) -> ScanContext {
        ScanContext { line: self.line_number, column: byte_offset(self.text, at) as u32 }
    }

    pub open spec fn token_at(self, at: int, t: Tok) -> (LineState, Option<Result<ScanV, ScanError>>) {
        (self, Some(Ok(ScanV { context: self.context(at), token: t })))
    }

    pub open spec fn error_at(self, at: int, e: ScanErrorType) -> (LineState, Option<Result<ScanV, ScanError>>) {
        (self, Some(Err(ScanError { context: self.context(at), error_type: e })))
    }
}

/// The next scan of a line and the state after it; `None` at the end of the
/// line. The outer `None` is where a number does not fit in 32 bits.
pub open spec fn cls_next(st: LineState) -> Option<(LineState, Option<Result<ScanV, ScanError>>)>
    decreases st.text.len() - st.pos,
{
    if st.pos < 0 || st.pos >= st.text.len() {
        Some((st, None))
    } else {
        let c = st.text[st.pos];
        let at = st.pos;
        if c == ' ' || c == '\t' {
            cls_next(st.advance(1))
        } else if c == '\n' {
            Some(st.skip().error_at(at, ScanErrorType::UnexpectedNewLine))
        } else if !is_ascii(c) {
            Some(st.skip().error_at(at, ScanErrorType::InvalidChar(c)))
        } else if is_digit(c) {
            let k = digit_run(st.text, st.pos);
            let v = digits_value(st.text.subrange(st.pos, st.pos + k));
            if v <= u32::MAX {
                Some(st.advance(k as int).token_at(at, Tok::Int(v as u32)))
            } else {
                None
            }
        } else if c == ':' {
            if st.pos + 1 < st.text.len() && st.text[st.pos + 1] == '=' {
                Some(st.advance(2).token_at(at, Tok::Becomes))
            } else {
                Some(st.advance(1).token_at(at, Tok::Colon))
            }
        } else if c == ';' {
            Some(st.skip().token_at(at, Tok::Semicolon))
        } else if c == '(' {
            Some(st.skip().token_at(at, Tok::Lparen))
        } else if c == ')' {
            Some(st.skip().token_at(at, Tok::Rparen))
        } else {
            let k = alpha_run(st.text, st.pos);
            Some(st.advance(k as int).token_at(at, Tok::Ident(st.text.subrange(st.pos, st.pos + k))))
        }
    }
}

#[derive(Debug, Clone)]
pub struct LineScanner {
    line_number: u32,
    pub column_number: u32,
    text: Vec<char>,
    pos: usize,
    // Byte offset of the character at `pos`.
    byte: u64,
}

impl View for LineScanner {
    type V = LineState;

    closed spec fn view(&self) -> LineState {
        LineState {
            text: self.text@,
            pos: self.pos as int,
            line_number: self.line_number,
            column_number: self.column_number,
        }
    }
}

impl LineScanner {
    /// The internal invariant: positions in the text, and a column counter
    /// that cannot overflow.
    pub closed spec fn wf(&self) -> bool {
        &&& self.pos <= self.text.len()
        &&& self.text.len() <= u32::MAX
        &&& self.byte == byte_offset(self.text@, self.pos as int)
        &&& self.column_number <= self.pos
    }

    pub fn new(line_number: u32, line: &str) -> (s: LineScanner)
        requires
            line@.len() <= u32::MAX,
        ensures
            s.wf(),
            s@ == (LineState { text: line@, pos: 0, line_number, column_number: 0 }),
    {
        LineScanner::from_chars(line_number, chars_of(line))
    }

    /// A scanner of the line of characters `text`.
    pub fn from_chars(line_number: u32, text: Vec<char>) -> (s: LineScanner)
        requires
            text.len() <= u32::MAX,
        ensures
            s.wf(),
            s@ == (LineState { text: text@, pos: 0, line_number, column_number: 0 }),
    {
        LineScanner { line_number, column_number: 0, text, pos: 0, byte: 0 }
    }

    fn context(&self, column: u64) -> (c: ScanContext)
        ensures
            c == (ScanContext { line: self.line_number, column: column as u32 }),
    {
        ScanContext { line: self.line_number, column: column as u32 }
    }

    /// Steps over the next character; counts it when `count`.
    fn step(&mut self, count: bool)
        requires
            old(self).wf(),
            old(self).pos < old(self).text.len(),
        ensures
            final(self).wf(),
            final(self)@ == if count {
                old(self)@.advance(1)
            } else {
                old(self)@.skip()
            },
    {
        let c = self.text[self.pos];
        proof {
            lemma_byte_offset_bound(self.text@, self.pos as int);
        }
        self.byte = self.byte + utf8_len_exec(c);
        self.pos = self.pos + 1;
        if count {
            self.column_number = self.column_number + 1;
        }
    }

    /// The next scan, or `None` at the end of the line.
    pub fn next(&mut self) -> (r: Option<ScanResult>)
        requires
            old(self).wf(),
            cls_next(old(self)@) is Some,
        ensures
            final(self).wf(),
            (final(self)@, next_view(r)) == cls_next(old(self)@)->0,
    {
        loop
            invariant
                self.wf(),
                cls_next(self@) == cls_next(old(self)@),
                cls_next(self@) is Some,
            decreases self.text.len() - self.pos,
        {
            if self.pos >= self.text.len() {
                return None;
            }
            let c = self.text[self.pos];
            let at = self.byte;
            if c == ' ' || c == '\t' {
                self.step(true);
                continue;
            } else if c == '\n' {
                self.step(false);
                return Some(Err(ScanError { context: self.context(at), error_type: ScanErrorType::UnexpectedNewLine }));
            } else if (c as u32) >= 0x80 {
                self.step(false);
                return Some(Err(ScanError { context: self.context(at), error_type: ScanErrorType::InvalidChar(c) }));
            } else if '0' <= c && c <= '9' {
                return self.scan_integer(at);
            } else if c == ':' {
                self.step(true);
                if self.pos < self.text.len() && self.text[self.pos] == '=' {
                    self.step(true);
                    return Some(Ok(crate::compiler::token::Scan { context: self.context(at), token: Token::Becomes }));
                }
                return Some(Ok(crate::compiler::token::Scan { context: self.context(at), token: Token::Colon }));
            } else if c == ';' || c == '(' || c == ')' {
                self.step(false);
                let t = if c == ';' {
                    Token::Semicolon
                } else if c == '(' {
                    Token::Lparen
                } else {
                    Token::Rparen
                };
                return Some(Ok(crate::compiler::token::Scan { context: self.context(at), token: t }));
            } else {
                return self.scan_ident(at);
            }
        }
    }

    fn scan_integer(&mut self, at: u64) -> (r: Option<ScanResult>)
        requires
            old(self).wf(),
            old(self).pos < old(self).text.len(),
            is_digit(old(self).text[old(self).pos as int]),
            at == byte_offset(old(self).text@, old(self).pos as int),
            cls_next(old(self)@) is Some,
        ensures
            final(self).wf(),
            (final(self)@, next_view(r)) == cls_next(old(self)@)->0,
    {
        let ghost p0 = self.pos as int;
        let ghost k = digit_run(self.text@, p0);
        let ghost whole = self.text@.subrange(p0, p0 + k);
        proof {
            lemma_digit_run(self.text@, p0);
            assert forall|i: int| 0 <= i < whole.len() implies is_digit(#[trigger] whole[i]) by {
                assert(whole[i] == self.text@[p0 + i]);
            }
            assert(self.text@.subrange(p0, p0) =~= Seq::<char>::empty());
        }
        let mut n: u32 = 0;
        while self.pos < self.text.len() && '0' <= self.text[self.pos] && self.text[self.pos] <= '9'
            invariant
                self.wf(),
                self.text@ == old(self).text@,
                self.line_number == old(self).line_number,
                p0 <= self.pos <= p0 + k,
                p0 + k <= self.text.len(),
                self.column_number == old(self).column_number + (self.pos - p0),
                k == digit_run(self.text@, p0),
                whole == self.text@.subrange(p0, p0 + k),
                digits_value(whole) <= u32::MAX,
                all_digits(whole),
                forall|j: int| p0 <= j < p0 + k ==> is_digit(#[trigger] self.text@[j]),
                p0 + k < self.text.len() ==> !is_digit(self.text@[p0 + k]),
                n == digits_value(self.text@.subrange(p0, self.pos as int)),
            decreases self.text.len() - self.pos,
        {
            let d = (self.text[self.pos] as u32) - ('0' as u32);
            proof {
                let j = self.pos - p0 + 1;
                assert(whole.take(j) =~= self.text@.subrange(p0, self.pos + 1));
                assert(self.text@.subrange(p0, self.pos + 1).drop_last() =~= self.text@.subrange(p0, self.pos as int));
                lemma_digits_value_prefix(whole, j);
            }
            n = n * 10 + d;
            self.step(true);
        }
        assert(self.pos == p0 + k);
        Some(Ok(crate::compiler::token::Scan { context: self.context(at), token: Token::Int(n) }))
    }

    /// Scans a word of ASCII letters; a character that starts no token gives
    /// an empty identifier.
    fn scan_ident(&mut self, at: u64) -> (r: Option<ScanResult>)
        requires
            old(self).wf(),
            old(self).pos < old(self).text.len(),
            at == byte_offset(old(self).text@, old(self).pos as int),
        ensures
            final(self).wf(),
            (final(self)@, next_view(r)) == (old(self)@.advance(alpha_run(old(self).text@, old(self).pos as int) as int).token_at(
                old(self).pos as int,
                Tok::Ident(old(self).text@.subrange(old(self).pos as int, old(self).pos + alpha_run(old(self).text@, old(self).pos as int))),
            )),
    {
        let ghost p0 = self.pos as int;
        let ghost k = alpha_run(self.text@, p0);
        proof {
            lemma_alpha_run(self.text@, p0);
        }
        let mut ident: Vec<char> = Vec::new();
        while self.pos < self.text.len() && (('a' <= self.text[self.pos] && self.text[self.pos] <= 'z') || ('A' <= self.text[self.pos] && self.text[self.pos] <= 'Z'))
            invariant
                self.wf(),
                self.text@ == old(self).text@,
                self.line_number == old(self).line_number,
                p0 <= self.pos <= p0 + k,
                p0 + k <= self.text.len(),
                self.column_number == old(self).column_number + (self.pos - p0),
                k == alpha_run(self.text@, p0),
                forall|j: int| p0 <= j < p0 + k ==> is_alpha(#[trigger] self.text@[j]),
                p0 + k < self.text.len() ==> !is_alpha(self.text@[p0 + k]),
                ident@ == self.text@.subrange(p0, self.pos as int),
            decreases self.text.len() - self.pos,
        {
            ident.push(self.text[self.pos]);
            self.step(true);
            assert(ident@ =~= self.text@.subrange(p0, self.pos as int));
        }
        assert(self.pos == p0 + k);
        Some(Ok(crate::compiler::token::Scan { context: self.context(at), token: Token::Ident(string_from_chars(&ident)) }))
    }
}

} // verus!
