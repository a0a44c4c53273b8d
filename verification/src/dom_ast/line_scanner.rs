//! A scanner of one line of Oberon-0 text.
//!
//! Tokens are placed at the byte offset of their first character. Keywords
//! are recognised whatever their case; `(*` starts a comment that `*)` ends.

use vstd::prelude::*;

use std::rc::Rc;

use crate::dom_ast::token::{Scan, ScanContext, ScanError, ScanErrorType, ScanResult, ScanV, Tok, Token, result_view};
use crate::text::{
    all_digits, chars_of, digit_run, digits_value, eq_lit, is_digit, lemma_digit_run, lemma_digits_value_prefix,
    string_from_chars,
};

verus! {

/// The number of bytes of `c` in UTF-8.
pub open spec fn utf8_len(c: char) -> nat {
    if (c as u32) < 0x80 {
        1
    } else if (c as u32) < 0x800 {
        2
    } else if (c as u32) < 0x10000 {
        3
    } else {
        4
    }
}

/// The byte offset of the character at index `i`.
pub open spec fn byte_offset(text: Seq<char>, i: int) -> nat
    decreases i,
{
    if i <= 0 {
        0
    } else {
        byte_offset(text, i - 1) + utf8_len(text[i - 1])
    }
}

/// A character takes at most four bytes.
pub proof fn lemma_byte_offset_bound(text: Seq<char>, i: int)
    ensures
        byte_offset(text, i) <= 4 * (if i < 0 { 0 } else { i }),
    decreases i,
{
    if i > 0 {
        lemma_byte_offset_bound(text, i - 1);
    }
}

/// Byte offsets grow with the index: a later character starts at a later
/// byte.
pub proof fn lemma_byte_offset_increases(text: Seq<char>, i: int, j: int)
    requires
        0 <= i < j,
    ensures
        byte_offset(text, i) < byte_offset(text, j),
    decreases j - i,
{
    if j - 1 > i {
        lemma_byte_offset_increases(text, i, j - 1);
    }
}

pub open spec fn is_ascii(c: char) -> bool {
    (c as u32) < 0x80
}

pub open spec fn is_alpha(c: char) -> bool {
    ('a' <= c && c <= 'z') || ('A' <= c && c <= 'Z')
}

/// `c` in lower case, for an ASCII letter.
pub open spec fn lower(c: char) -> char {
    if 'A' <= c && c <= 'Z' {
        ((c as u32) + 32) as char
    } else {
        c
    }
}

/// The number of ASCII letters from index `p` on.
pub open spec fn alpha_run(text: Seq<char>, p: int) -> nat
    decreases text.len() - p,
{
    if 0 <= p < text.len() && is_alpha(text[p]) {
        1 + alpha_run(text, p + 1)
    } else {
        0
    }
}

/// The keyword that a word is, in lower case.
pub open spec fn keyword(lw: Seq<char>) -> Option<Tok> {
    if lw == "var"@ {
        Some(Tok::Var)
    } else if lw == "module"@ {
        Some(Tok::Module)
    } else if lw == "begin"@ {
        Some(Tok::Begin)
    } else if lw == "end"@ {
        Some(Tok::End)
    } else if lw == "if"@ {
        Some(Tok::If)
    } else if lw == "then"@ {
        Some(Tok::Then)
    } else if lw == "else"@ {
        Some(Tok::Else)
    } else if lw == "elsif"@ {
        Some(Tok::Elsif)
    } else if lw == "while"@ {
        Some(Tok::While)
    } else if lw == "do"@ {
        Some(Tok::Do)
    } else if lw == "array"@ {
        Some(Tok::Array)
    } else if lw == "of"@ {
        Some(Tok::Of)
    } else {
        None
    }
}

/// The token of a word: a keyword whatever its case, or an identifier.
pub open spec fn word_token(w: Seq<char>) -> Tok {
    match keyword(w.map_values(|c: char| lower(c))) {
        Some(t) => t,
        None => Tok::Ident(w),
    }
}

/// The token of a character that is a token by itself.
pub open spec fn single_token(c: char) -> Option<Tok> {
    if c == ';' {
        Some(Tok::Semicolon)
    } else if c == ',' {
        Some(Tok::Comma)
    } else if c == ')' {
        Some(Tok::Rparen)
    } else if c == '+' {
        Some(Tok::Plus)
    } else if c == '-' {
        Some(Tok::Minus)
    } else if c == '*' {
        Some(Tok::Times)
    } else if c == '/' {
        Some(Tok::Div)
    } else if c == '.' {
        Some(Tok::Period)
    } else if c == '=' {
        Some(Tok::Eql)
    } else if c == '#' {
        Some(Tok::Neq)
    } else if c == '[' {
        Some(Tok::Lbrak)
    } else if c == ']' {
        Some(Tok::Rbrak)
    } else {
        None
    }
}

/// The token of `:`, `>` or `<`, followed by `=` or not.
pub open spec fn sigil_token(c: char, with_eq: bool) -> Tok {
    if c == ':' {
        if with_eq {
            Tok::Becomes
        } else {
            Tok::Colon
        }
    } else if c == '>' {
        if with_eq {
            Tok::Geq
        } else {
            Tok::Gtr
        }
    } else {
        if with_eq {
            Tok::Leq
        } else {
            Tok::Lss
        }
    }
}

/// The state of a line scanner, as a mathematical value.
pub struct LineState {
    pub text: Seq<char>,
    // Index of the next character.
    pub pos: int,
    pub line_number: u32,
    // Characters stepped over.
    pub column_number: u32,
    pub current: Option<ScanV>,
}

impl LineState {
    /// Steps over a character, counting it.
    pub open spec fn forward(self) -> LineState {
        LineState {
            pos: if self.pos < self.text.len() {
                self.pos + 1
            } else {
                self.pos
            },
            column_number: (self.column_number + 1) as u32,
            ..self
        }
    }

    /// Steps over a character without counting it.
    pub open spec fn skip(self) -> LineState {
        LineState { pos: self.pos + 1, ..self }
    }

    /// Steps over `k` characters, counting them.
    pub open spec fn advance(self, k: int) -> LineState {
        LineState { pos: self.pos + k, column_number: (self.column_number + k) as u32, ..self }
    }

    pub open spec fn context(self, at: int) -> ScanContext {
        ScanContext { line: self.line_number, column: byte_offset(self.text, at) as u32 }
    }

    /// Yields token `t` placed at index `at`, which becomes the current scan.
    pub open spec fn token_at(self, at: int, t: Tok) -> (LineState, Option<Result<ScanV, ScanError>>) {
        let s = ScanV { context: self.context(at), token: t };
        (LineState { current: Some(s), ..self }, Some(Ok(s)))
    }

    /// Yields an error placed at index `at`.
    pub open spec fn error_at(self, at: int, e: ScanErrorType) -> (LineState, Option<
        Result<ScanV, ScanError>,
    >) {
        (self, Some(Err(ScanError { context: self.context(at), error_type: e })))
    }
}

/// The next scan of a line and the state after it; `None` at the end of the
/// line, which clears the current scan. The outer `None` is where the scan
/// cannot be made: a number that does not fit in 32 bits.
pub open spec fn ls_next(st: LineState) -> Option<(LineState, Option<Result<ScanV, ScanError>>)>
    decreases st.text.len() - st.pos,
{
    if st.pos < 0 || st.pos >= st.text.len() {
        Some((LineState { current: None, ..st }, None))
    } else {
        let c = st.text[st.pos];
        let at = st.pos;
        if c == ' ' || c == '\t' {
            ls_next(st.forward())
        } else if c == '\n' {
            Some(st.skip().error_at(at, ScanErrorType::UnexpectedNewLine))
        } else if !is_ascii(c) {
            Some(st.skip().error_at(at, ScanErrorType::InvalidChar(c)))
        } else if is_digit(c) {
            let k = digit_run(st.text, st.pos);
            let v = digits_value(st.text.subrange(st.pos, st.pos + k));
            if v <= u32::MAX {
                Some(st.advance(k as int).token_at(at, Tok::Int(v as u32)))
            } else {
                None
            }
        } else if c == ':' || c == '>' || c == '<' {
            let st1 = st.forward();
            let with_eq = st1.pos < st1.text.len() && st1.text[st1.pos] == '=';
            let st2 = if with_eq {
                st1.forward()
            } else {
                st1
            };
            Some(st2.token_at(at, sigil_token(c, with_eq)))
        } else if c == '(' {
            let st1 = st.forward();
            if st1.pos < st1.text.len() && st1.text[st1.pos] == '*' {
                ls_skip_comment(st1, at)
            } else {
                Some(st1.token_at(at, Tok::Lparen))
            }
        } else if single_token(c) is Some {
            Some(st.skip().token_at(at, single_token(c)->0))
        } else {
            let k = alpha_run(st.text, st.pos);
            Some(st.advance(k as int).token_at(at, word_token(st.text.subrange(st.pos, st.pos + k))))
        }
    }
}

/// Skips a comment that started at index `at`, then scans on.
pub open spec fn ls_skip_comment(st: LineState, at: int) -> Option<
    (LineState, Option<Result<ScanV, ScanError>>),
>
    decreases st.text.len() - st.pos,
{
    if st.pos < 0 || st.pos >= st.text.len() {
        Some(st.error_at(at, ScanErrorType::UnterminatedComment))
    } else if st.text[st.pos] == '*' {
        let st1 = st.forward();
        if st1.pos < st1.text.len() && st1.text[st1.pos] == ')' {
            ls_next(st1.forward())
        } else {
            ls_skip_comment(st1.forward(), at)
        }
    } else {
        ls_skip_comment(st.forward(), at)
    }
}

/// The view of an optional scan.
pub open spec fn scan_option_view(o: Option<Rc<Scan>>) -> Option<ScanV> {
    match o {
        Some(s) => Some(s@),
        None => None,
    }
}

/// The view of what `next` returns.
pub open spec fn next_view(r: Option<ScanResult>) -> Option<Result<ScanV, ScanError>> {
    match r {
        Some(x) => Some(result_view(x)),
        None => None,
    }
}

#[derive(Debug, Clone)]
pub struct LineScanner {
    line_number: u32,
    column_number: u32,
    text: Vec<char>,
    pos: usize,
    // Byte offset of the character at `pos`.
    byte: u64,
    current: Option<Rc<Scan>>,
}

impl View for LineScanner {
    type V = LineState;

    closed spec fn view(&self) -> LineState {
        LineState {
            text: self.text@,
            pos: self.pos as int,
            line_number: self.line_number,
            column_number: self.column_number,
            current: scan_option_view(self.current),
        }
    }
}

pub(crate) fn utf8_len_exec(c: char) -> (n: u64)
    ensures
        n == utf8_len(c),
{
    let v = c as u32;
    if v < 0x80 {
        1
    } else if v < 0x800 {
        2
    } else if v < 0x10000 {
        3
    } else {
        4
    }
}

/// A copy of a token.
pub fn copy_token(t: &Token) -> (r: Token)
    ensures
        r == *t,
{
    match t {
        Token::Ident(s) => Token::Ident(s.clone()),
        Token::Int(n) => Token::Int(*n),
        Token::Times => Token::Times,
        Token::Div => Token::Div,
        Token::Plus => Token::Plus,
        Token::Minus => Token::Minus,
        Token::Eql => Token::Eql,
        Token::Neq => Token::Neq,
        Token::Lss => Token::Lss,
        Token::Geq => Token::Geq,
        Token::Leq => Token::Leq,
        Token::Gtr => Token::Gtr,
        Token::Period => Token::Period,
        Token::Comma => Token::Comma,
        Token::Colon => Token::Colon,
        Token::Rparen => Token::Rparen,
        Token::Rbrak => Token::Rbrak,
        Token::Of => Token::Of,
        Token::Then => Token::Then,
        Token::Do => Token::Do,
        Token::Lparen => Token::Lparen,
        Token::Lbrak => Token::Lbrak,
        Token::Becomes => Token::Becomes,
        Token::Semicolon => Token::Semicolon,
        Token::End => Token::End,
        Token::Else => Token::Else,
        Token::Elsif => Token::Elsif,
        Token::If => Token::If,
        Token::While => Token::While,
        Token::Array => Token::Array,
        Token::Var => Token::Var,
        Token::Begin => Token::Begin,
        Token::Module => Token::Module,
    }
}

impl LineScanner {
    /// The internal invariant: positions in the text, and counters that
    /// cannot overflow.
    pub closed spec fn wf(&self) -> bool {
        &&& self.pos <= self.text.len()
        &&& self.text.len() + 2 <= u32::MAX
        &&& self.byte == byte_offset(self.text@, self.pos as int)
        &&& self.pos < self.text.len() ==> self.column_number <= self.pos
        &&& self.column_number <= self.pos + 1
    }

    pub fn new(line_number: u32, line: &str) -> (s: LineScanner)
        requires
            line@.len() + 2 <= u32::MAX,
        ensures
            s.wf(),
            s@ == (LineState {
                text: line@,
                pos: 0,
                line_number,
                column_number: 0,
                current: None,
            }),
    {
        let text = chars_of(line);
        LineScanner::from_chars(line_number, text)
    }

    /// A scanner of the line of characters `text`.
    pub fn from_chars(line_number: u32, text: Vec<char>) -> (s: LineScanner)
        requires
            text.len() + 2 <= u32::MAX,
        ensures
            s.wf(),
            s@ == (LineState {
                text: text@,
                pos: 0,
                line_number,
                column_number: 0,
                current: None,
            }),
    {
        LineScanner { line_number, column_number: 0, text, pos: 0, byte: 0, current: None }
    }

    /// The last token scanned, if the line is not done.
    pub fn current(&mut self) -> (r: Option<Rc<Scan>>)
        ensures
            *final(self) == *old(self),
            scan_option_view(r) == old(self)@.current,
    {
        match &self.current {
            Some(s) => Some(crate::sharing::share(s)),
            None => None,
        }
    }

    fn context(&self, column: u64) -> (c: ScanContext)
        ensures
            c == (ScanContext { line: self.line_number, column: column as u32 }),
    {
        ScanContext { line: self.line_number, column: column as u32 }
    }

    /// Steps over the next character, counting it.
    fn forward(&mut self)
        requires
            old(self).wf(),
            old(self).pos < old(self).text.len() ==> old(self).column_number <= old(self).pos,
            old(self).pos == old(self).text.len() ==> old(self).column_number <= old(self).pos,
        ensures
            final(self)@ == old(self)@.forward(),
            final(self).text@ == old(self).text@,
            final(self).pos <= final(self).text.len(),
            final(self).byte == byte_offset(final(self).text@, final(self).pos as int),
            final(self).column_number <= final(self).pos + 1,
            old(self).pos < old(self).text.len() ==> final(self).column_number <= final(self).pos,
            final(self).text.len() + 2 <= u32::MAX,
            final(self).current == old(self).current,
            final(self).line_number == old(self).line_number,
            final(self).pos >= old(self).pos,
    {
        if self.pos < self.text.len() {
            let c = self.text[self.pos];
            proof {
                lemma_byte_offset_bound(self.text@, self.pos as int);
            }
            self.byte = self.byte + utf8_len_exec(c);
            self.pos = self.pos + 1;
        }
        self.column_number = self.column_number + 1;
    }

    /// Steps over the next character without counting it.
    fn skip_char(&mut self)
        requires
            old(self).wf(),
            old(self).pos < old(self).text.len(),
        ensures
            final(self).wf(),
            final(self)@ == old(self)@.skip(),
    {
        let c = self.text[self.pos];
        proof {
            lemma_byte_offset_bound(self.text@, self.pos as int);
        }
        self.byte = self.byte + utf8_len_exec(c);
        self.pos = self.pos + 1;
    }

    /// Yields `token` at byte offset `at`, as the current scan.
    fn token_at(&mut self, at: u64, token: Token) -> (r: Option<ScanResult>)
        ensures
            final(self)@ == (LineState { current: Some(ScanV { context: ScanContext { line: old(self).line_number, column: at as u32 }, token: token@ }), ..old(self)@ }),
            next_view(r) == Some(Ok::<ScanV, ScanError>(ScanV { context: ScanContext { line: old(self).line_number, column: at as u32 }, token: token@ })),
            final(self).text == old(self).text,
            final(self).pos == old(self).pos,
            final(self).byte == old(self).byte,
            final(self).column_number == old(self).column_number,
    {
        let context = self.context(at);
        let copy = copy_token(&token);
        let scan = Rc::new(Scan { context, token });
        self.current = Some(Rc::new(Scan { context, token: copy }));
        Some(Ok(scan))
    }

    /// The next scan, or `None` at the end of the line.
    pub fn next(&mut self) -> (r: Option<ScanResult>)
        requires
            old(self).wf(),
            ls_next(old(self)@) is Some,
        ensures
            final(self).wf(),
            (final(self)@, next_view(r)) == ls_next(old(self)@)->0,
    {
        loop
            invariant
                self.wf(),
                ls_next(self@) == ls_next(old(self)@),
                ls_next(self@) is Some,
            decreases self.text.len() - self.pos,
        {
            if self.pos >= self.text.len() {
                self.current = None;
                return None;
            }
            let c = self.text[self.pos];
            let at = self.byte;
            let ghost at_idx = self.pos as int;
            if c == ' ' || c == '\t' {
                self.forward();
                continue;
            } else if c == '\n' {
                self.skip_char();
                return Some(Err(ScanError { context: self.context(at), error_type: ScanErrorType::UnexpectedNewLine }));
            } else if (c as u32) >= 0x80 {
                self.skip_char();
                return Some(Err(ScanError { context: self.context(at), error_type: ScanErrorType::InvalidChar(c) }));
            } else if '0' <= c && c <= '9' {
                return self.scan_integer(at);
            } else if c == ':' || c == '>' || c == '<' {
                return self.scan_sigil(at, c);
            } else if c == '(' {
                let ghost s_paren = self@;
                self.forward();
                assert(self@ == s_paren.forward());
                if self.pos < self.text.len() && self.text[self.pos] == '*' {
                    if self.skip_comment(Ghost(at_idx)) {
                        continue;
                    } else {
                        return Some(Err(ScanError { context: self.context(at), error_type: ScanErrorType::UnterminatedComment }));
                    }
                } else {
                    return self.token_at(at, Token::Lparen);
                }
            } else {
                match single_token_exec(c) {
                    Some(t) => {
                        self.skip_char();
                        return self.token_at(at, t);
                    },
                    None => {
                        return self.scan_word(at);
                    },
                }
            }
        }
    }

    /// Skips the rest of a comment that started at index `at_idx`: true when
    /// it is closed, with the state after it; false when the line ends first.
    fn skip_comment(&mut self, Ghost(at_idx): Ghost<int>) -> (closed: bool)
        requires
            old(self).pos <= old(self).text.len(),
            old(self).text.len() + 2 <= u32::MAX,
            old(self).byte == byte_offset(old(self).text@, old(self).pos as int),
            old(self).column_number <= old(self).pos,
        ensures
            final(self).wf(),
            final(self).text@ == old(self).text@,
            final(self).line_number == old(self).line_number,
            closed ==> final(self).pos > old(self).pos,
            ls_skip_comment(old(self)@, at_idx) == if closed {
                ls_next(final(self)@)
            } else {
                Some(final(self)@.error_at(at_idx, ScanErrorType::UnterminatedComment))
            },
    {
        loop
            invariant
                self.pos <= self.text.len(),
                self.text.len() + 2 <= u32::MAX,
                self.byte == byte_offset(self.text@, self.pos as int),
                self.column_number <= self.pos + 1,
                self.pos < self.text.len() ==> self.column_number <= self.pos,
                ls_skip_comment(self@, at_idx) == ls_skip_comment(old(self)@, at_idx),
                self.text@ == old(self).text@,
                self.line_number == old(self).line_number,
                self.pos >= old(self).pos,
            decreases self.text.len() - self.pos,
        {
            if self.pos >= self.text.len() {
                return false;
            }
            if self.text[self.pos] == '*' {
                self.forward();
                if self.pos < self.text.len() && self.text[self.pos] == ')' {
                    self.forward();
                    return true;
                }
            }
            self.forward();
        }
    }

    /// Scans `:`, `:=`, `>`, `>=`, `<` or `<=`.
    fn scan_sigil(&mut self, at: u64, first_char: char) -> (r: Option<ScanResult>)
        requires
            old(self).wf(),
            old(self).pos < old(self).text.len(),
            old(self).text[old(self).pos as int] == first_char,
            first_char == ':' || first_char == '>' || first_char == '<',
            at == byte_offset(old(self).text@, old(self).pos as int),
        ensures
            final(self).wf(),
            (final(self)@, next_view(r)) == ls_next(old(self)@)->0,
    {
        self.forward();
        let with_eq = self.pos < self.text.len() && self.text[self.pos] == '=';
        if with_eq {
            self.forward();
        }
        let t = if first_char == ':' {
            if with_eq { Token::Becomes } else { Token::Colon }
        } else if first_char == '>' {
            if with_eq { Token::Geq } else { Token::Gtr }
        } else {
            if with_eq { Token::Leq } else { Token::Lss }
        };
        self.token_at(at, t)
    }

    /// Scans a decimal number.
    fn scan_integer(&mut self, at: u64) -> (r: Option<ScanResult>)
        requires
            old(self).wf(),
            old(self).pos < old(self).text.len(),
            is_digit(old(self).text[old(self).pos as int]),
            at == byte_offset(old(self).text@, old(self).pos as int),
            ls_next(old(self)@) is Some,
        ensures
            final(self).wf(),
            (final(self)@, next_view(r)) == ls_next(old(self)@)->0,
    {
        let ghost p0 = self.pos as int;
        let ghost k = digit_run(self.text@, p0);
        let ghost whole = self.text@.subrange(p0, p0 + k);
        proof {
            lemma_digit_run(self.text@, p0);
            assert forall|i: int| 0 <= i < whole.len() implies is_digit(#[trigger] whole[i]) by {
                assert(whole[i] == self.text@[p0 + i]);
            }
            assert(self.text@.subrange(p0, p0) =~= Seq::<char>::empty());
        }
        let mut n: u32 = 0;
        while self.pos < self.text.len() && '0' <= self.text[self.pos] && self.text[self.pos] <= '9'
            invariant
                self.wf(),
                self.text@ == old(self).text@,
                self.line_number == old(self).line_number,
                self.current == old(self).current,
                p0 <= self.pos <= p0 + k,
                p0 + k <= self.text.len(),
                self.column_number == old(self).column_number + (self.pos - p0),
                k == digit_run(self.text@, p0),
                whole == self.text@.subrange(p0, p0 + k),
                digits_value(whole) <= u32::MAX,
                all_digits(whole),
                forall|j: int| p0 <= j < p0 + k ==> is_digit(#[trigger] self.text@[j]),
                p0 + k < self.text.len() ==> !is_digit(self.text@[p0 + k]),
                n == digits_value(self.text@.subrange(p0, self.pos as int)),
            decreases self.text.len() - self.pos,
        {
            let d = (self.text[self.pos] as u32) - ('0' as u32);
            proof {
                let j = self.pos - p0 + 1;
                assert(whole.take(j) =~= self.text@.subrange(p0, self.pos + 1));
                assert(self.text@.subrange(p0, self.pos + 1).drop_last() =~= self.text@.subrange(p0, self.pos as int));
                lemma_digits_value_prefix(whole, j);
            }
            n = n * 10 + d;
            self.forward();
        }
        assert(self.pos == p0 + k);
        self.token_at(at, Token::Int(n))
    }

    /// Scans a word of ASCII letters: a keyword whatever its case, or an
    /// identifier; a character that starts no token gives an empty identifier.
    fn scan_word(&mut self, at: u64) -> (r: Option<ScanResult>)
        requires
            old(self).wf(),
            old(self).pos < old(self).text.len(),
            at == byte_offset(old(self).text@, old(self).pos as int),
        ensures
            final(self).wf(),
            (final(self)@, next_view(r)) == (old(self)@.advance(alpha_run(old(self).text@, old(self).pos as int) as int).token_at(
                old(self).pos as int,
                word_token(old(self).text@.subrange(old(self).pos as int, old(self).pos + alpha_run(old(self).text@, old(self).pos as int))),
            )),
    {
        let ghost p0 = self.pos as int;
        let ghost k = alpha_run(self.text@, p0);
        proof {
            lemma_alpha_run(self.text@, p0);
        }
        let mut ident: Vec<char> = Vec::new();
        let mut lowered: Vec<char> = Vec::new();
        while self.pos < self.text.len() && (('a' <= self.text[self.pos] && self.text[self.pos] <= 'z') || ('A' <= self.text[self.pos] && self.text[self.pos] <= 'Z'))
            invariant
                self.wf(),
                self.text@ == old(self).text@,
                self.line_number == old(self).line_number,
                self.current == old(self).current,
                p0 <= self.pos <= p0 + k,
                p0 + k <= self.text.len(),
                self.column_number == old(self).column_number + (self.pos - p0),
                k == alpha_run(self.text@, p0),
                forall|j: int| p0 <= j < p0 + k ==> is_alpha(#[trigger] self.text@[j]),
                p0 + k < self.text.len() ==> !is_alpha(self.text@[p0 + k]),
                ident@ == self.text@.subrange(p0, self.pos as int),
                lowered@ == ident@.map_values(|c: char| lower(c)),
            decreases self.text.len() - self.pos,
        {
            let c = self.text[self.pos];
            ident.push(c);
            let lc = if 'A' <= c && c <= 'Z' { ((c as u8) + 32) as char } else { c };
            lowered.push(lc);
            proof {
                assert(ident@ =~= self.text@.subrange(p0, self.pos + 1));
                assert(lowered@ =~= ident@.map_values(|c: char| lower(c)));
            }
            self.forward();
        }
        assert(self.pos == p0 + k);
        let t = if eq_lit(&lowered, "var") {
            Token::Var
        } else if eq_lit(&lowered, "module") {
            Token::Module
        } else if eq_lit(&lowered, "begin") {
            Token::Begin
        } else if eq_lit(&lowered, "end") {
            Token::End
        } else if eq_lit(&lowered, "if") {
            Token::If
        } else if eq_lit(&lowered, "then") {
            Token::Then
        } else if eq_lit(&lowered, "else") {
            Token::Else
        } else if eq_lit(&lowered, "elsif") {
            Token::Elsif
        } else if eq_lit(&lowered, "while") {
            Token::While
        } else if eq_lit(&lowered, "do") {
            Token::Do
        } else if eq_lit(&lowered, "array") {
            Token::Array
        } else if eq_lit(&lowered, "of") {
            Token::Of
        } else {
            Token::Ident(string_from_chars(&ident))
        };
        self.token_at(at, t)
    }
}

/// The token of a character that is a token by itself.
fn single_token_exec(c: char) -> (r: Option<Token>)
    ensures
        match r {
            Some(t) => single_token(c) == Some(t@),
            None => single_token(c) is None,
        },
{
    if c == ';' {
        Some(Token::Semicolon)
    } else if c == ',' {
        Some(Token::Comma)
    } else if c == ')' {
        Some(Token::Rparen)
    } else if c == '+' {
        Some(Token::Plus)
    } else if c == '-' {
        Some(Token::Minus)
    } else if c == '*' {
        Some(Token::Times)
    } else if c == '/' {
        Some(Token::Div)
    } else if c == '.' {
        Some(Token::Period)
    } else if c == '=' {
        Some(Token::Eql)
    } else if c == '#' {
        Some(Token::Neq)
    } else if c == '[' {
        Some(Token::Lbrak)
    } else if c == ']' {
        Some(Token::Rbrak)
    } else {
        None
    }
}

/// The letters counted by `alpha_run`.
pub proof fn lemma_alpha_run(text: Seq<char>, p: int)
    requires
        0 <= p <= text.len(),
    ensures
        p + alpha_run(text, p) <= text.len(),
        forall|j: int| p <= j < p + alpha_run(text, p) ==> is_alpha(#[trigger] text[j]),
        p + alpha_run(text, p) < text.len() ==> !is_alpha(text[p + alpha_run(text, p)]),
    decreases text.len() - p,
{
    if p < text.len() && is_alpha(text[p]) {
        lemma_alpha_run(text, p + 1);
    }
}

/// What a call of `next` that started at index `p0` of the text of `st`
/// gave, as the state `st1` and result `r`: the text and line stay; the
/// position does not move back and stays in the text; at the end of the
/// line the result is `None`. A scan or an error is placed at the byte
/// offset of a character at or after `p0` that is no blank, before the new
/// position; a scan moves past at least one character unless it is the
/// empty name, which a character that starts no token gives; an error is
/// placed before the new position, and always moves on.
pub open spec fn moved_from(st: LineState, p0: int, o: (LineState, Option<Result<ScanV, ScanError>>)) -> bool {
    let (st1, r) = o;
    &&& st1.text == st.text
    &&& st1.line_number == st.line_number
    &&& p0 <= st1.pos <= st.text.len()
    &&& r is None ==> st1.pos == st.text.len()
    &&& p0 == st.text.len() ==> r is None
    &&& r matches Some(Ok(s)) ==> exists|at: int|
        p0 <= at < st.text.len() && at <= st1.pos && #[trigger] st.context(at) == s.context && st.text[at] != ' '
            && st.text[at] != '\t' && (at < st1.pos || s.token == Tok::Ident(Seq::empty()))
    &&& r matches Some(Err(e)) ==> p0 < st1.pos && exists|at: int|
        p0 <= at < st.text.len() && at < st1.pos && #[trigger] st.context(at) == e.context
}

proof fn lemma_moved_from_earlier(st: LineState, p: int, p0: int, st1: LineState, r: Option<Result<ScanV, ScanError>>)
    requires
        p0 < p,
        moved_from(st, p, (st1, r)),
    ensures
        moved_from(st, p0, (st1, r)),
{
    if let Some(Ok(s)) = r {
        let at = choose|at: int|
            p <= at < st.text.len() && at <= st1.pos && #[trigger] st.context(at) == s.context && st.text[at] != ' '
                && st.text[at] != '\t' && (at < st1.pos || s.token == Tok::Ident(Seq::empty()));
        assert(p0 <= at < st.text.len() && at <= st1.pos && st.context(at) == s.context);
    }
    if let Some(Err(e)) = r {
        let at = choose|at: int| p <= at < st.text.len() && at < st1.pos && #[trigger] st.context(at) == e.context;
        assert(p0 <= at < st.text.len() && at < st1.pos && st.context(at) == e.context);
    }
}

/// Each call of `next` moves on through the line: see `moved_from`.
pub proof fn law_next_moves_on(st: LineState)
    requires
        0 <= st.pos <= st.text.len(),
        ls_next(st) is Some,
    ensures
        moved_from(st, st.pos, ls_next(st)->0),
    decreases st.text.len() - st.pos, 1int,
{
    if st.pos < st.text.len() {
        let c = st.text[st.pos];
        let at = st.pos;
        if c == ' ' || c == '\t' {
            law_next_moves_on(st.forward());
            let (st1, r) = ls_next(st)->0;
            if st.forward().pos == st.text.len() {
                assert(r is None);
            } else {
                lemma_moved_from_earlier(st.forward(), st.pos + 1, st.pos, st1, r);
            }
            assert forall|j: int| #[trigger] st.forward().context(j) == st.context(j) by {}
            assert(moved_from(st, st.pos, ls_next(st)->0));
        } else if c == '\n' || !is_ascii(c) {
            assert(st.skip().context(at) == st.context(at));
            assert(moved_from(st, st.pos, ls_next(st)->0));
        } else if is_digit(c) {
            lemma_digit_run(st.text, st.pos);
            let k = digit_run(st.text, st.pos);
            assert(k >= 1);
            assert(st.advance(k as int).context(at) == st.context(at));
            assert(moved_from(st, st.pos, ls_next(st)->0));
        } else if c == ':' || c == '>' || c == '<' {
            assert(st.forward().context(at) == st.context(at));
            assert(st.forward().forward().context(at) == st.context(at));
            assert(moved_from(st, st.pos, ls_next(st)->0));
        } else if c == '(' {
            let st1 = st.forward();
            if st1.pos < st1.text.len() && st1.text[st1.pos] == '*' {
                lemma_skip_comment_moves_on(st1, at);
                assert forall|j: int| #[trigger] st1.context(j) == st.context(j) by {}
                assert(moved_from(st, st.pos, ls_next(st)->0));
            } else {
                assert(st1.context(at) == st.context(at));
                assert(moved_from(st, st.pos, ls_next(st)->0));
            }
        } else if single_token(c) is Some {
            assert(st.skip().context(at) == st.context(at));
            assert(moved_from(st, st.pos, ls_next(st)->0));
        } else {
            lemma_alpha_run(st.text, st.pos);
            let k = alpha_run(st.text, st.pos);
            if k == 0 {
                assert(st.text.subrange(st.pos, st.pos) =~= Seq::<char>::empty());
                lemma_empty_word();
            }
            assert(st.advance(k as int).context(at) == st.context(at));
            assert(moved_from(st, st.pos, ls_next(st)->0));
        }
    }
}

/// The empty name is no keyword.
pub proof fn lemma_empty_word()
    ensures
        word_token(Seq::<char>::empty()) == Tok::Ident(Seq::<char>::empty()),
{
    let e = Seq::<char>::empty();
    assert(e.map_values(|c: char| lower(c)) =~= e);
    reveal_strlit("var");
    reveal_strlit("module");
    reveal_strlit("begin");
    reveal_strlit("end");
    reveal_strlit("if");
    reveal_strlit("then");
    reveal_strlit("else");
    reveal_strlit("elsif");
    reveal_strlit("while");
    reveal_strlit("do");
    reveal_strlit("array");
    reveal_strlit("of");
    assert(keyword(e) is None);
}

proof fn lemma_skip_comment_moves_on(st: LineState, at: int)
    requires
        0 <= at < st.pos <= st.text.len(),
        st.text[at] == '(',
        ls_skip_comment(st, at) is Some,
    ensures
        moved_from(st, at, ls_skip_comment(st, at)->0),
    decreases st.text.len() - st.pos, 0int,
{
    if st.pos < st.text.len() {
        let (st2, r) = ls_skip_comment(st, at)->0;
        if st.text[st.pos] == '*' {
            let st1 = st.forward();
            if st1.pos < st1.text.len() && st1.text[st1.pos] == ')' {
                law_next_moves_on(st1.forward());
                lemma_moved_from_earlier(st1.forward(), st1.pos + 1, at, st2, r);
                assert forall|j: int| #[trigger] st1.forward().context(j) == st.context(j) by {}
            } else {
                lemma_skip_comment_moves_on(st1.forward(), at);
                assert forall|j: int| #[trigger] st1.forward().context(j) == st.context(j) by {}
            }
        } else {
            lemma_skip_comment_moves_on(st.forward(), at);
            assert forall|j: int| #[trigger] st.forward().context(j) == st.context(j) by {}
        }
    }
}

/// Whether a result of `next` is the empty name.
pub open spec fn is_empty_name(r: Option<Result<ScanV, ScanError>>) -> bool {
    r matches Some(Ok(s)) && s.token == Tok::Ident(Seq::empty())
}

/// The state after `n` calls of `next` from `st`, where each of them can be
/// made and none gives the empty name.
pub open spec fn after_calls(st: LineState, n: nat) -> Option<LineState>
    decreases n,
{
    if n == 0 {
        Some(st)
    } else {
        match after_calls(st, (n - 1) as nat) {
            None => None,
            Some(s1) => match ls_next(s1) {
                Some((s2, r)) => if is_empty_name(r) {
                    None
                } else {
                    Some(s2)
                },
                None => None,
            },
        }
    }
}

/// Calls of `next` that give no empty name each move at least one character
/// on, or stand at the end of the line: after as many calls as characters
/// are left, the line is done, and every further call gives `None`.
pub proof fn law_calls_reach_the_end(st: LineState, n: nat)
    requires
        0 <= st.pos <= st.text.len(),
        after_calls(st, n) is Some,
    ensures
        after_calls(st, n)->0.text == st.text,
        after_calls(st, n)->0.line_number == st.line_number,
        st.pos <= after_calls(st, n)->0.pos <= st.text.len(),
        after_calls(st, n)->0.pos >= st.pos + n || after_calls(st, n)->0.pos == st.text.len(),
        n >= st.text.len() - st.pos ==> (ls_next(after_calls(st, n)->0) matches Some((_, r)) ==> r is None),
    decreases n,
{
    if n > 0 {
        law_calls_reach_the_end(st, (n - 1) as nat);
        let s1 = after_calls(st, (n - 1) as nat)->0;
        law_next_moves_on(s1);
    }
    let s2 = after_calls(st, n)->0;
    if ls_next(s2) is Some {
        law_next_moves_on(s2);
    }
}

/// What call `k` of `next` from `st` gives, the calls before it made.
pub open spec fn call_result(st: LineState, k: nat) -> Option<Result<ScanV, ScanError>> {
    match after_calls(st, k) {
        Some(s1) => match ls_next(s1) {
            Some((_, r)) => r,
            None => None,
        },
        None => None,
    }
}

/// Where a result of `next` is placed, if it is a scan or an error.
pub open spec fn placed_at(r: Option<Result<ScanV, ScanError>>) -> Option<ScanContext> {
    match r {
        Some(Ok(s)) => Some(s.context),
        Some(Err(e)) => Some(e.context),
        None => None,
    }
}

proof fn lemma_after_calls_prefix(st: LineState, i: nat, j: nat)
    requires
        i <= j,
        after_calls(st, j) is Some,
    ensures
        after_calls(st, i) is Some,
        j > i ==> ls_next(after_calls(st, i)->0) is Some,
    decreases j - i,
{
    if j > i {
        lemma_after_calls_prefix(st, i + 1, j);
    }
}

proof fn lemma_after_calls_mono(st: LineState, i: nat, j: nat)
    requires
        0 <= st.pos <= st.text.len(),
        i <= j,
        after_calls(st, j) is Some,
    ensures
        after_calls(st, i)->0.pos <= after_calls(st, j)->0.pos,
    decreases j - i,
{
    if j > i {
        lemma_after_calls_prefix(st, i, j);
        lemma_after_calls_prefix(st, i + 1, j);
        lemma_after_calls_mono(st, i + 1, j);
        law_calls_reach_the_end(st, i);
        law_next_moves_on(after_calls(st, i)->0);
    }
}

/// Call `k`, where it gives a scan or an error, places it at a character at
/// or after where the call starts and before where the next one starts.
proof fn lemma_call_placed(st: LineState, n: nat, k: nat)
    requires
        0 <= st.pos <= st.text.len(),
        k < n,
        after_calls(st, n) is Some,
        placed_at(call_result(st, k)) is Some,
    ensures
        exists|at: int|
            after_calls(st, k)->0.pos <= at < after_calls(st, k + 1)->0.pos && at < st.text.len() && #[trigger] st.context(at)
                == placed_at(call_result(st, k))->0,
{
    lemma_after_calls_prefix(st, k, n);
    lemma_after_calls_prefix(st, k + 1, n);
    law_calls_reach_the_end(st, k);
    let sk = after_calls(st, k)->0;
    law_next_moves_on(sk);
    assert forall|j: int| #[trigger] sk.context(j) == st.context(j) by {}
    let r = call_result(st, k);
    if let Some(Ok(x)) = r {
        assert(!is_empty_name(r));
        let at = choose|at: int|
            sk.pos <= at < sk.text.len() && at <= after_calls(st, k + 1)->0.pos && #[trigger] sk.context(at) == x.context
                && sk.text[at] != ' ' && sk.text[at] != '\t' && (at < after_calls(st, k + 1)->0.pos || x.token == Tok::Ident(
                Seq::empty(),
            ));
        assert(st.context(at) == x.context);
    }
    if let Some(Err(e)) = r {
        let at = choose|at: int|
            sk.pos <= at < sk.text.len() && at < after_calls(st, k + 1)->0.pos && #[trigger] sk.context(at) == e.context;
        assert(st.context(at) == e.context);
    }
}

/// Calls of `next` on a line, none of which gives the empty name: once as
/// many calls as characters are left have been made, every call gives
/// `None`; every scan and error is placed on the scanner's line, and those
/// of later calls stand at later columns (where the line's bytes can be
/// counted in 32 bits).
pub proof fn law_scans_fit_the_line(st: LineState, n: nat)
    requires
        0 <= st.pos <= st.text.len(),
        after_calls(st, n) is Some,
        byte_offset(st.text, st.text.len() as int) <= u32::MAX,
    ensures
        forall|k: nat| st.text.len() - st.pos <= k < n ==> #[trigger] call_result(st, k) is None,
        forall|k: nat|
            k < n && placed_at(#[trigger] call_result(st, k)) is Some ==> placed_at(call_result(st, k))->0.line
                == st.line_number,
        forall|i: nat, j: nat|
            i < j < n && placed_at(#[trigger] call_result(st, i)) is Some && placed_at(#[trigger] call_result(st, j))
                is Some ==> placed_at(call_result(st, i))->0.column < placed_at(call_result(st, j))->0.column,
{
    assert forall|k: nat| st.text.len() - st.pos <= k < n implies #[trigger] call_result(st, k) is None by {
        lemma_after_calls_prefix(st, k, n);
        law_calls_reach_the_end(st, k);
    }
    assert forall|k: nat| k < n && placed_at(#[trigger] call_result(st, k)) is Some implies placed_at(
        call_result(st, k),
    )->0.line == st.line_number by {
        lemma_call_placed(st, n, k);
    }
    assert forall|i: nat, j: nat|
        i < j < n && placed_at(#[trigger] call_result(st, i)) is Some && placed_at(#[trigger] call_result(st, j))
            is Some implies placed_at(call_result(st, i))->0.column < placed_at(call_result(st, j))->0.column by {
        lemma_call_placed(st, n, i);
        lemma_call_placed(st, n, j);
        lemma_after_calls_mono(st, i + 1, j);
        let ai = choose|at: int|
            after_calls(st, i)->0.pos <= at < after_calls(st, i + 1)->0.pos && at < st.text.len() && #[trigger] st.context(at)
                == placed_at(call_result(st, i))->0;
        let aj = choose|at: int|
            after_calls(st, j)->0.pos <= at < after_calls(st, j + 1)->0.pos && at < st.text.len() && #[trigger] st.context(at)
                == placed_at(call_result(st, j))->0;
        lemma_byte_offset_increases(st.text, ai, aj);
        lemma_byte_offset_increases(st.text, aj, st.text.len() as int);
    }
}

/// Each reserved word, in lower case, scans as its own token, and no two
/// words scan as the same keyword.
pub proof fn law_keywords(w1: Seq<char>, w2: Seq<char>)
    ensures
        keyword("var"@) == Some(Tok::Var),
        keyword("module"@) == Some(Tok::Module),
        keyword("begin"@) == Some(Tok::Begin),
        keyword("end"@) == Some(Tok::End),
        keyword("if"@) == Some(Tok::If),
        keyword("then"@) == Some(Tok::Then),
        keyword("else"@) == Some(Tok::Else),
        keyword("elsif"@) == Some(Tok::Elsif),
        keyword("while"@) == Some(Tok::While),
        keyword("do"@) == Some(Tok::Do),
        keyword("array"@) == Some(Tok::Array),
        keyword("of"@) == Some(Tok::Of),
        keyword(w1) is Some && keyword(w1) == keyword(w2) ==> w1 == w2,
{
    reveal_strlit("var");
    reveal_strlit("module");
    reveal_strlit("begin");
    reveal_strlit("end");
    reveal_strlit("if");
    reveal_strlit("then");
    reveal_strlit("else");
    reveal_strlit("elsif");
    reveal_strlit("while");
    reveal_strlit("do");
    reveal_strlit("array");
    reveal_strlit("of");
    assert("module"@.len() != "var"@.len());
    assert("begin"@.len() != "var"@.len());
    assert("begin"@.len() != "module"@.len());
    assert("end"@[0] != "var"@[0]);
    assert("end"@.len() != "module"@.len());
    assert("end"@.len() != "begin"@.len());
    assert("if"@.len() != "var"@.len());
    assert("if"@.len() != "module"@.len());
    assert("if"@.len() != "begin"@.len());
    assert("if"@.len() != "end"@.len());
    assert("then"@.len() != "var"@.len());
    assert("then"@.len() != "module"@.len());
    assert("then"@.len() != "begin"@.len());
    assert("then"@.len() != "end"@.len());
    assert("then"@.len() != "if"@.len());
    assert("else"@.len() != "var"@.len());
    assert("else"@.len() != "module"@.len());
    assert("else"@.len() != "begin"@.len());
    assert("else"@.len() != "end"@.len());
    assert("else"@.len() != "if"@.len());
    assert("else"@[0] != "then"@[0]);
    assert("elsif"@.len() != "var"@.len());
    assert("elsif"@.len() != "module"@.len());
    assert("elsif"@[0] != "begin"@[0]);
    assert("elsif"@.len() != "end"@.len());
    assert("elsif"@.len() != "if"@.len());
    assert("elsif"@.len() != "then"@.len());
    assert("elsif"@.len() != "else"@.len());
    assert("while"@.len() != "var"@.len());
    assert("while"@.len() != "module"@.len());
    assert("while"@[0] != "begin"@[0]);
    assert("while"@.len() != "end"@.len());
    assert("while"@.len() != "if"@.len());
    assert("while"@.len() != "then"@.len());
    assert("while"@.len() != "else"@.len());
    assert("while"@[0] != "elsif"@[0]);
    assert("do"@.len() != "var"@.len());
    assert("do"@.len() != "module"@.len());
    assert("do"@.len() != "begin"@.len());
    assert("do"@.len() != "end"@.len());
    assert("do"@[0] != "if"@[0]);
    assert("do"@.len() != "then"@.len());
    assert("do"@.len() != "else"@.len());
    assert("do"@.len() != "elsif"@.len());
    assert("do"@.len() != "while"@.len());
    assert("array"@.len() != "var"@.len());
    assert("array"@.len() != "module"@.len());
    assert("array"@[0] != "begin"@[0]);
    assert("array"@.len() != "end"@.len());
    assert("array"@.len() != "if"@.len());
    assert("array"@.len() != "then"@.len());
    assert("array"@.len() != "else"@.len());
    assert("array"@[0] != "elsif"@[0]);
    assert("array"@[0] != "while"@[0]);
    assert("array"@.len() != "do"@.len());
    assert("of"@.len() != "var"@.len());
    assert("of"@.len() != "module"@.len());
    assert("of"@.len() != "begin"@.len());
    assert("of"@.len() != "end"@.len());
    assert("of"@[0] != "if"@[0]);
    assert("of"@.len() != "then"@.len());
    assert("of"@.len() != "else"@.len());
    assert("of"@.len() != "elsif"@.len());
    assert("of"@.len() != "while"@.len());
    assert("of"@[0] != "do"@[0]);
    assert("of"@.len() != "array"@.len());
}

/// Each character that is a token by itself scans as the token it names,
/// and no two characters scan as the same token.
pub proof fn law_single_character_tokens(w1: char, w2: char)
    ensures
        single_token(';') == Some(Tok::Semicolon),
        single_token(',') == Some(Tok::Comma),
        single_token(')') == Some(Tok::Rparen),
        single_token('+') == Some(Tok::Plus),
        single_token('-') == Some(Tok::Minus),
        single_token('*') == Some(Tok::Times),
        single_token('/') == Some(Tok::Div),
        single_token('.') == Some(Tok::Period),
        single_token('=') == Some(Tok::Eql),
        single_token('#') == Some(Tok::Neq),
        single_token('[') == Some(Tok::Lbrak),
        single_token(']') == Some(Tok::Rbrak),
        single_token(w1) is Some && single_token(w1) == single_token(w2) ==> w1 == w2,
{
}

/// `:`, `>` and `<` scan as colon, greater and less, and followed by `=` as
/// becomes, greater or equal, and less or equal.
pub proof fn law_relation_tokens()
    ensures
        sigil_token(':', false) == Tok::Colon,
        sigil_token(':', true) == Tok::Becomes,
        sigil_token('>', false) == Tok::Gtr,
        sigil_token('>', true) == Tok::Geq,
        sigil_token('<', false) == Tok::Lss,
        sigil_token('<', true) == Tok::Leq,
{
}

} // verus!
