//! A parser of Oberon expressions and selectors, one token ahead.

use vstd::prelude::*;

use crate::oberon::scanner::{ScanError, ScanState, Scanner, Tok, Token, lemma_scan_progress, r_scan, r_scan_overflows, scan_view};

verus! {

#[derive(Debug, Copy, Clone, PartialEq, Eq, Structural)]
pub enum ParseError {
    ScanError,
    UnexpectedToken,
    PrematureEOF,
}

pub struct Parser {
    scanner: Scanner,
    token: Token,
    result: Result<(), ParseError>,
}

/// The state of a parser, as a mathematical value: the scanner, the token
/// looked at, and the result of the last scan.
pub struct ParserState {
    pub scanner: ScanState,
    pub token: Tok,
    pub result: Result<(), ParseError>,
}

impl View for Parser {
    type V = ParserState;

    closed spec fn view(&self) -> ParserState {
        ParserState { scanner: self.scanner@, token: self.token@, result: self.result }
    }
}

/// Scans the next token: it replaces the one looked at, unless the scan
/// found none; a scan error is recorded.
pub open spec fn p_next(p: ParserState) -> ParserState {
    let (s1, r) = r_scan(p.scanner);
    match r {
        Ok(Some(t)) => ParserState { scanner: s1, token: t, result: Ok(()) },
        Ok(None) => ParserState { scanner: s1, result: Ok(()), ..p },
        Err(_) => ParserState { scanner: s1, result: Err(ParseError::ScanError), ..p },
    }
}

/// A term: a number.
pub open spec fn p_term(p: ParserState) -> (ParserState, Result<(), ParseError>) {
    match p.token {
        Tok::Int(_) => {
            let p1 = p_next(p);
            (p1, p1.result)
        },
        _ => (p, Err(ParseError::UnexpectedToken)),
    }
}

/// An expression: a term.
pub open spec fn p_expression(p: ParserState) -> (ParserState, Result<(), ParseError>) {
    p_term(p)
}

/// What is left of the text.
pub open spec fn left(p: ParserState) -> int {
    p.scanner.text.len() - p.scanner.pos
}

/// A selector: `.name` steps and at most one `[expression]`, which ends it.
pub open spec fn p_selector(p: ParserState) -> (ParserState, Result<(), ParseError>)
    decreases left(p),
{
    match p.token {
        Tok::Lbrak => {
            let p1 = p_next(p);
            if p1.result is Ok {
                let (p2, e) = p_expression(p1);
                if e is Ok {
                    match p2.token {
                        Tok::Rbrak => {
                            let p3 = p_next(p2);
                            (p3, p3.result)
                        },
                        _ => (p2, Err(ParseError::UnexpectedToken)),
                    }
                } else {
                    (p2, p2.result)
                }
            } else {
                (p1, p1.result)
            }
        },
        Tok::Period => {
            let p1 = p_next(p);
            if p1.result is Ok {
                match p1.token {
                    Tok::Ident(_) => {
                        let p2 = p_next(p1);
                        if p2.result is Ok {
                            if left(p2) < left(p) && left(p2) >= 0 {
                                p_selector(p2)
                            } else {
                                (p2, p2.result)
                            }
                        } else {
                            (p2, p2.result)
                        }
                    },
                    _ => (p1, Err(ParseError::UnexpectedToken)),
                }
            } else {
                (p1, p1.result)
            }
        },
        _ => (p, Err(ParseError::UnexpectedToken)),
    }
}

/// The state of the parser of `content`, once its first token is read.
pub open spec fn start(content: Seq<char>) -> (ScanState, Result<Option<Tok>, ScanError>) {
    r_scan(ScanState { text: content, pos: 0, line: 1 })
}

/// Where scanning the parts that `parse` reads would overflow a number.
pub open spec fn parse_overflows(content: Seq<char>, selector: bool) -> bool {
    let s0 = ScanState { text: content, pos: 0, line: 1 };
    r_scan_overflows(s0) || match start(content) {
        (s1, Ok(Some(t))) => {
            let p = ParserState { scanner: s1, token: t, result: Ok(()) };
            if selector {
                selector_overflows(p)
            } else {
                expression_overflows(p)
            }
        },
        _ => false,
    }
}

pub open spec fn expression_overflows(p: ParserState) -> bool {
    p.token is Int && r_scan_overflows(p.scanner)
}

pub open spec fn selector_overflows(p: ParserState) -> bool
    decreases left(p),
{
    match p.token {
        Tok::Lbrak => {
            let p1 = p_next(p);
            r_scan_overflows(p.scanner) || (p1.result is Ok && (expression_overflows(p1) || {
                let (p2, e) = p_expression(p1);
                e is Ok && p2.token is Rbrak && r_scan_overflows(p2.scanner)
            }))
        },
        Tok::Period => {
            let p1 = p_next(p);
            r_scan_overflows(p.scanner) || (p1.result is Ok && p1.token is Ident && (r_scan_overflows(
                p1.scanner,
            ) || {
                let p2 = p_next(p1);
                p2.result is Ok && left(p2) < left(p) && left(p2) >= 0 && selector_overflows(p2)
            }))
        },
        _ => false,
    }
}

/// The result of parsing `content` with the expression or the selector rule.
pub open spec fn spec_parse(content: Seq<char>, selector: bool) -> Result<(), ParseError> {
    match start(content) {
        (s1, Ok(Some(t))) => {
            let p = ParserState { scanner: s1, token: t, result: Ok(()) };
            let r = if selector {
                p_selector(p).1
            } else {
                p_expression(p).1
            };
            match r {
                Ok(_) => Ok(()),
                Err(_) => Err(ParseError::ScanError),
            }
        },
        (_, Ok(None)) => Err(ParseError::PrematureEOF),
        (_, Err(_)) => Err(ParseError::ScanError),
    }
}

impl Parser {
    pub closed spec fn wf(&self) -> bool {
        self.scanner.wf()
    }

    /// Parses an expression at the start of `content`.
    pub fn parse(content: &String) -> (r: Result<(), ParseError>)
        requires
            content@.len() + 1 <= u32::MAX,
            !parse_overflows(content@, false),
        ensures
            r == spec_parse(content@, false),
    {
        Parser::parse_with(content, false)
    }

    /// Parses a selector at the start of `content`.
    pub fn parse_selector(content: &String) -> (r: Result<(), ParseError>)
        requires
            content@.len() + 1 <= u32::MAX,
            !parse_overflows(content@, true),
        ensures
            r == spec_parse(content@, true),
    {
        Parser::parse_with(content, true)
    }

    fn parse_with(content: &String, selector: bool) -> (r: Result<(), ParseError>)
        requires
            content@.len() + 1 <= u32::MAX,
            !parse_overflows(content@, selector),
        ensures
            r == spec_parse(content@, selector),
    {
        let mut scanner = Scanner::new(content);
        match scanner.scan() {
            Ok(Some(token)) => {
                let mut parser = Parser { scanner, token, result: Ok(()) };
                let parsed = if selector {
                    parser.selector()
                } else {
                    parser.expression()
                };
                match parsed {
                    Ok(_) => Ok(()),
                    Err(_) => Err(ParseError::ScanError),
                }
            },
            Ok(None) => Err(ParseError::PrematureEOF),
            Err(_scan_error) => Err(ParseError::ScanError),
        }
    }

    fn next(&mut self)
        requires
            old(self).wf(),
            !r_scan_overflows(old(self)@.scanner),
        ensures
            final(self).wf(),
            final(self)@ == p_next(old(self)@),
    {
        match self.scanner.scan() {
            Ok(Some(token)) => {
                self.token = token;
                self.result = Ok(());
            },
            Ok(None) => {
                self.result = Ok(());
            },
            Err(_scan_error) => {
                self.result = Err(ParseError::ScanError);
            },
        }
    }

    fn current(&mut self) -> (r: Result<(), ParseError>)
        ensures
            *final(self) == *old(self),
            r == old(self)@.result,
    {
        self.result
    }

    fn expression(&mut self) -> (r: Result<(), ParseError>)
        requires
            old(self).wf(),
            !expression_overflows(old(self)@),
        ensures
            final(self).wf(),
            (final(self)@, r) == p_expression(old(self)@),
    {
        self.term()
    }

    fn selector(&mut self) -> (r: Result<(), ParseError>)
        requires
            old(self).wf(),
            !selector_overflows(old(self)@),
        ensures
            final(self).wf(),
            (final(self)@, r) == p_selector(old(self)@),
    {
        let ghost target = p_selector(old(self)@);
        proof {
            self.scanner.lemma_bounds();
        }
        loop
            invariant
                self.wf(),
                p_selector(self@) == target,
                p_selector(old(self)@) == target,
                !selector_overflows(self@),
                0 <= left(self@),
            decreases left(self@),
        {
            match self.token {
                Token::Lbrak => {
                    self.next();
                    if let Ok(_) = self.current() {
                        if let Ok(_) = self.expression() {
                            match self.token {
                                Token::Rbrak => {
                                    self.next();
                                    return self.current();
                                },
                                _ => {
                                    return Err(ParseError::UnexpectedToken);
                                },
                            }
                        }
                    }
                    return self.current();
                },
                Token::Period => {
                    let ghost p0 = self@;
                    proof {
                        self.scanner.lemma_bounds();
                        lemma_scan_progress(p0.scanner);
                    }
                    self.next();
                    if let Ok(_) = self.current() {
                        match self.token {
                            Token::Ident(_) => {
                                let ghost p1 = self@;
                                proof {
                                    self.scanner.lemma_bounds();
                                    lemma_scan_progress(p1.scanner);
                                }
                                self.next();
                                assert(left(self@) < left(p0));
                                if let Ok(_) = self.current() {
                                    continue;
                                } else {
                                    return self.current();
                                }
                            },
                            _ => {
                                return Err(ParseError::UnexpectedToken);
                            },
                        }
                    }
                    return self.current();
                },
                _ => {
                    return Err(ParseError::UnexpectedToken);
                },
            }
        }
    }

    fn term(&mut self) -> (r: Result<(), ParseError>)
        requires
            old(self).wf(),
            !expression_overflows(old(self)@),
        ensures
            final(self).wf(),
            (final(self)@, r) == p_term(old(self)@),
    {
        match self.token {
            Token::Int(_n) => {
                self.next();
                self.current()
            },
            _ => Err(ParseError::UnexpectedToken),
        }
    }
}

/// Parses the selector `.Bar[0]`.
pub fn run() -> (r: Result<(), ParseError>)
    ensures
        r == spec_parse(".Bar[0]"@, true),
{
    let content = crate::text::string_from_chars(&crate::text::chars_of(".Bar[0]"));
    proof {
        reveal_strlit(".Bar[0]");
        let t = content@;
        assert(t =~= seq!['.', 'B', 'a', 'r', '[', '0', ']']);
        let s0 = ScanState { text: t, pos: 0, line: 1 };
        assert(!r_scan_overflows(s0));
        assert(r_scan(s0) == (s0.at(1), Ok::<Option<Tok>, ScanError>(Some(Tok::Period))));
        let s1 = s0.at(1);
        assert(!r_scan_overflows(s1));
        assert(crate::oberon::scanner::alnum_run(t, 4) == 0);
        assert(crate::oberon::scanner::alnum_run(t, 3) == 1);
        assert(crate::oberon::scanner::alnum_run(t, 2) == 2);
        assert(crate::oberon::scanner::alnum_run(t, 1) == 3);
        assert(r_scan(s1).0 == s0.at(4));
        let s4 = s0.at(4);
        assert(!r_scan_overflows(s4));
        assert(r_scan(s4) == (s0.at(5), Ok::<Option<Tok>, ScanError>(Some(Tok::Lbrak))));
        let s5 = s0.at(5);
        assert(crate::text::digit_run(t, 6) == 0);
        assert(crate::text::digit_run(t, 5) == 1);
        assert(t.subrange(5, 6) =~= seq!['0']);
        assert(crate::text::digits_value(seq!['0']) == 0) by {
            let z = seq!['0'];
            assert(z.len() == 1);
            assert(z.last() == '0');
            assert(z.drop_last() =~= Seq::<char>::empty());
            assert(crate::text::digits_value(Seq::<char>::empty()) == 0);
            assert(crate::text::digit_value('0') == 0);
        }
        assert(!r_scan_overflows(s5));
        assert(r_scan(s5) == (s0.at(6), Ok::<Option<Tok>, ScanError>(Some(Tok::Int(0)))));
        let s6 = s0.at(6);
        assert(!r_scan_overflows(s6));
        assert(r_scan(s6) == (s0.at(7), Ok::<Option<Tok>, ScanError>(Some(Tok::Rbrak))));
        assert(!r_scan_overflows(s0.at(7)));
        let p2 = ParserState { scanner: s5, token: Tok::Lbrak, result: Ok(()) };
        assert(!selector_overflows(p2));
        assert(!parse_overflows(t, true));
    }
    Parser::parse_selector(&content)
}

} // verus!
