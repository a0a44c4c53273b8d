//! A first parser of Oberon statements: assignments of a number or of a
//! variable, separated by `;`. It takes each token from the scanner as it
//! goes, and looks symbols up in the scope.

use vstd::prelude::*;

use std::rc::Rc;

use crate::compiler::ast::{tree_view, Info, Node, NodeInfo, Tree, TreeV};
use crate::compiler::line_scanner::{cls_next, LineState};
use crate::compiler::scanner::{cs_next, line_start, Scanner, ScannerState};
use crate::dom_ast::line_scanner::{alpha_run, lemma_alpha_run};
use crate::dom_ast::progress::numbers_fit;
use crate::text::{digit_run, is_digit, lemma_digit_run};
use crate::compiler::scope::{Scope, Symbol};
use crate::compiler::token::{Scan, ScanContext, ScanError, ScanV, Tok, Token};

verus! {

#[derive(Debug)]
pub enum ParseError {
    ScanError(ScanError),
    UndefinedSymbol(String),
    PrematureEof,
    UnexpectedToken(ScanContext),
    Todo,
}

/// A parse error as a mathematical value.
pub enum PErr {
    ScanError(ScanError),
    UndefinedSymbol(Seq<char>),
    PrematureEof,
    UnexpectedToken(ScanContext),
    Todo,
}

impl View for ParseError {
    type V = PErr;

    open spec fn view(&self) -> PErr {
        match self {
            ParseError::ScanError(e) => PErr::ScanError(*e),
            ParseError::UndefinedSymbol(s) => PErr::UndefinedSymbol(s@),
            ParseError::PrematureEof => PErr::PrematureEof,
            ParseError::UnexpectedToken(c) => PErr::UnexpectedToken(*c),
            ParseError::Todo => PErr::Todo,
        }
    }
}

pub type ParseResult<'a> = Result<Rc<Tree<'a>>, ParseError>;

/// The view of a parse result.
pub open spec fn parse_view<'a>(r: ParseResult<'a>) -> Result<TreeV, PErr> {
    match r {
        Ok(t) => Ok((*t)@),
        Err(e) => Err(e@),
    }
}

/// What parsing leaves: the scanner and the tree or error.
pub type Outcome = Option<(ScannerState, Result<TreeV, PErr>)>;

pub open spec fn leaf(i: Info) -> TreeV {
    TreeV::Node(i, Box::new(TreeV::Nil), Box::new(TreeV::Nil))
}

pub open spec fn node(i: Info, c: TreeV, s: TreeV) -> TreeV {
    TreeV::Node(i, Box::new(c), Box::new(s))
}

/// The characters left to scan, counting line ends.
pub open spec fn rest_len(lines: Seq<Seq<char>>, from: int) -> nat
    decreases lines.len() - from,
{
    if 0 <= from < lines.len() {
        lines[from].len() + 1 + rest_len(lines, from + 1)
    } else {
        0
    }
}

pub open spec fn rem(st: ScannerState) -> nat {
    (if 0 <= st.line.pos <= st.line.text.len() {
        (st.line.text.len() - st.line.pos) as nat
    } else {
        0nat
    }) + rest_len(st.lines, st.next_line)
}

/// The next token; the end of the text is an error. `None` where the scan
/// of a number overflows.
pub open spec fn c_scan(st: ScannerState) -> Option<(ScannerState, Result<ScanV, PErr>)> {
    match cs_next(st) {
        None => None,
        Some((st1, None)) => Some((st1, Err(PErr::PrematureEof))),
        Some((st1, Some(Ok(s)))) => Some((st1, Ok(s))),
        Some((st1, Some(Err(e)))) => Some((st1, Err(PErr::ScanError(e)))),
    }
}

/// What a lookup of `ident` finds among the symbol names: the first one,
/// whatever it is.
pub open spec fn c_lookup(names: Seq<Seq<char>>, ident: Seq<char>) -> Result<Seq<char>, PErr> {
    if names.len() > 0 {
        Ok(names[0])
    } else {
        Err(PErr::UndefinedSymbol(ident))
    }
}

/// An expression: a number or a variable. An unexpected token is reported
/// at `context`.
pub open spec fn c_expression(st: ScannerState, names: Seq<Seq<char>>, context: ScanContext) -> Outcome {
    match c_scan(st) {
        None => None,
        Some((st1, Err(e))) => Some((st1, Err(e))),
        Some((st1, Ok(s))) => match s.token {
            Tok::Int(v) => Some((st1, Ok(leaf(Info::Constant(v))))),
            Tok::Ident(id) => Some(
                (
                    st1,
                    match c_lookup(names, id) {
                        Ok(n) => Ok(leaf(Info::Ident(n))),
                        Err(e) => Err(e),
                    },
                ),
            ),
            _ => Some((st1, Err(PErr::UnexpectedToken(context)))),
        },
    }
}

/// A statement: an assignment `x := e`; other statements are to come.
pub open spec fn c_statement(st: ScannerState, names: Seq<Seq<char>>) -> Outcome {
    match c_scan(st) {
        None => None,
        Some((st1, Err(e))) => Some((st1, Err(e))),
        Some((st1, Ok(s))) => match s.token {
            Tok::Ident(id) => match c_lookup(names, id) {
                Err(e) => Some((st1, Err(e))),
                Ok(n) => match c_scan(st1) {
                    None => None,
                    Some((st2, Err(e))) => Some((st2, Err(e))),
                    Some((st2, Ok(s2))) => if s2.token is Becomes {
                        match c_expression(st2, names, s2.context) {
                            None => None,
                            Some((st3, Err(e))) => Some((st3, Err(e))),
                            Some((st3, Ok(o))) => Some((st3, Ok(node(Info::Assignement, leaf(Info::Ident(n)), o)))),
                        }
                    } else {
                        Some((st2, Err(PErr::UnexpectedToken(s.context))))
                    },
                },
            },
            _ => Some((st1, Err(PErr::Todo))),
        },
    }
}

/// Statements separated by `;`. The token after a statement is read
/// whatever it is; where it is no `;`, or cannot be read, the sequence
/// ends. The sequence goes on only after less text is left.
pub open spec fn c_statement_sequence(st: ScannerState, names: Seq<Seq<char>>) -> Outcome
    decreases rem(st),
{
    match c_statement(st, names) {
        None => None,
        Some((st1, Err(e))) => Some((st1, Err(e))),
        Some((st1, Ok(first))) => match c_scan(st1) {
            None => None,
            Some((st2, Ok(s))) => if s.token is Semicolon {
                if rem(st2) < rem(st) {
                    match c_statement_sequence(st2, names) {
                        None => None,
                        Some((st3, Err(e))) => Some((st3, Err(e))),
                        Some((st3, Ok(next))) => Some((st3, Ok(node(Info::StatementSequence, first, next)))),
                    }
                } else {
                    None
                }
            } else {
                Some((st2, Ok(node(Info::StatementSequence, first, TreeV::Nil))))
            },
            Some((st2, Err(_))) => Some((st2, Ok(node(Info::StatementSequence, first, TreeV::Nil)))),
        },
    }
}

/// A scanner state that stands within its text, in which every number
/// left to read fits in 32 bits.
pub open spec fn scanner_ok(st: ScannerState) -> bool {
    &&& 0 <= st.line.pos <= st.line.text.len()
    &&& 0 <= st.next_line <= st.lines.len()
    &&& numbers_fit(st.line.text, st.line.pos)
    &&& forall|j: int| st.next_line <= j < st.lines.len() ==> #[trigger] numbers_fit(st.lines[j], 0)
}

proof fn lemma_cls_next(st: LineState)
    requires
        0 <= st.pos <= st.text.len(),
        numbers_fit(st.text, st.pos),
    ensures
        cls_next(st) matches Some((l1, r)) && l1.text == st.text && st.pos <= l1.pos <= l1.text.len() && (r
            is None ==> l1.pos == l1.text.len()) && (r matches Some(Ok(s)) ==> (l1.pos > st.pos || s.token
            == Tok::Ident(Seq::empty()))),
    decreases st.text.len() - st.pos,
{
    if st.pos < st.text.len() {
        let c = st.text[st.pos];
        if c == ' ' || c == '\t' {
            lemma_cls_next(st.advance(1));
        } else if is_digit(c) {
            lemma_digit_run(st.text, st.pos);
        } else {
            lemma_alpha_run(st.text, st.pos);
            assert(st.text.subrange(st.pos, st.pos) =~= Seq::<char>::empty());
        }
    }
}

proof fn lemma_rest_len_step(lines: Seq<Seq<char>>, j: int)
    requires
        0 <= j < lines.len(),
    ensures
        rest_len(lines, j) == lines[j].len() + 1 + rest_len(lines, j + 1),
{
}

/// A scan keeps the scanner fit to scan and never leaves more text; where
/// it reads a token other than an empty word, it leaves less.
proof fn lemma_cs_next(st: ScannerState)
    requires
        scanner_ok(st),
    ensures
        cs_next(st) matches Some((st1, r)) && scanner_ok(st1) && rem(st1) <= rem(st) && (r matches Some(
            Ok(s),
        ) && s.token != Tok::Ident(Seq::empty()) ==> rem(st1) < rem(st)),
    decreases st.lines.len() - st.next_line,
{
    lemma_cls_next(st.line);
    let (l1, r) = cls_next(st.line)->0;
    if r is None && 0 <= st.next_line < st.lines.len() {
        let n = (st.line_number + 1) as u32;
        let st2 = ScannerState {
            lines: st.lines,
            next_line: st.next_line + 1,
            line_number: n,
            line: line_start(n, st.lines[st.next_line]),
        };
        lemma_rest_len_step(st.lines, st.next_line);
        assert(numbers_fit(st.lines[st.next_line], 0));
        lemma_cs_next(st2);
    }
}

/// What the parser takes from a scan: the scanner stays fit to scan and
/// has not moved back.
pub open spec fn scanned(st: ScannerState, o: Option<(ScannerState, Result<TreeV, PErr>)>) -> bool {
    o matches Some((st1, _)) && scanner_ok(st1) && rem(st1) <= rem(st)
}

proof fn lemma_c_statement(st: ScannerState, names: Seq<Seq<char>>)
    requires
        scanner_ok(st),
    ensures
        scanned(st, c_statement(st, names)),
{
    lemma_cs_next(st);
    let (st1, r1) = c_scan(st)->0;
    if r1 is Ok {
        lemma_cs_next(st1);
        let (st2, r2) = c_scan(st1)->0;
        if r2 is Ok {
            lemma_cs_next(st2);
        }
    }
}

/// Parsing statements from a scanner in which every number fits reaches a
/// result: each `;` that the sequence goes on after leaves less text.
pub proof fn lemma_c_statement_sequence(st: ScannerState, names: Seq<Seq<char>>)
    requires
        scanner_ok(st),
    ensures
        scanned(st, c_statement_sequence(st, names)),
    decreases rem(st),
{
    lemma_c_statement(st, names);
    let (st1, r1) = c_statement(st, names)->0;
    if r1 is Ok {
        lemma_cs_next(st1);
        let (st2, r2) = c_scan(st1)->0;
        if r2 is Ok && r2->Ok_0.token is Semicolon {
            lemma_c_statement_sequence(st2, names);
        }
    }
}

pub struct Parser {}

/// The view of a scan as the parser takes it.
pub open spec fn scan_view(r: Result<Scan, ParseError>) -> Result<ScanV, PErr> {
    match r {
        Ok(s) => Ok(s@),
        Err(e) => Err(e@),
    }
}

impl Parser {
    pub fn new() -> (p: Parser)
        ensures
            p == (Parser {}),
    {
        Parser {}
    }

    /// Statements separated by `;`, from the next token on.
    pub fn parse_statement_sequence<'a>(&self, scanner: &mut Scanner, scope: &'a Scope) -> (r: ParseResult<'a>)
        requires
            old(scanner).wf(),
            c_statement_sequence(old(scanner)@, scope@) is Some,
        ensures
            final(scanner).wf(),
            c_statement_sequence(old(scanner)@, scope@) == Some((final(scanner)@, parse_view(r))),
        decreases rem(old(scanner)@),
    {
        let first_statement = self.parse_statement(scanner, scope)?;
        let next = self.scan_next(scanner);
        if let Ok(Scan { token: Token::Semicolon, context: _context }) = next {
            let sibling = self.parse_statement_sequence(scanner, scope)?;
            return Ok(
                Rc::new(Tree::Node(Node { info: NodeInfo::StatementSequence, child: first_statement, sibling })),
            );
        } else {
            let nil: Rc<Tree<'a>> = Rc::new(Tree::Nil);
            assert(tree_view(&*nil) == TreeV::Nil);
            return Ok(
                Rc::new(Tree::Node(Node { info: NodeInfo::StatementSequence, child: first_statement, sibling: nil })),
            );
        }
    }

    /// A statement, from the next token on.
    pub fn parse_statement<'a>(&self, scanner: &mut Scanner, scope: &'a Scope) -> (r: ParseResult<'a>)
        requires
            old(scanner).wf(),
            c_statement(old(scanner)@, scope@) is Some,
        ensures
            final(scanner).wf(),
            c_statement(old(scanner)@, scope@) == Some((final(scanner)@, parse_view(r))),
    {
        let next = self.scan_next(scanner)?;
        if let Scan { token: Token::Ident(ident), context } = next {
            let ident_symbol = self.lookup(scope, ident.as_str())?;
            let n = Node::ident(ident_symbol);
            assert(tree_view(&*n.child) == TreeV::Nil && tree_view(&*n.sibling) == TreeV::Nil);
            let subject = Rc::new(Tree::Node(n));
            let next = self.scan_next(scanner)?;
            if let Scan { token: Token::Becomes, context: becomes_context } = next {
                return self.parse_assignment(subject, becomes_context, scanner, scope);
            }
            return Err(ParseError::UnexpectedToken(context));
        }
        Err(ParseError::Todo)
    }

    fn parse_assignment<'a>(
        &self,
        subject: Rc<Tree<'a>>,
        context: ScanContext,
        scanner: &mut Scanner,
        scope: &'a Scope,
    ) -> (r: ParseResult<'a>)
        requires
            old(scanner).wf(),
            c_expression(old(scanner)@, scope@, context) is Some,
        ensures
            final(scanner).wf(),
            c_expression(old(scanner)@, scope@, context) matches Some((st, e)) && st == final(scanner)@
                && parse_view(r) == match e {
                Ok(o) => Ok(node(Info::Assignement, (*subject)@, o)),
                Err(x) => Err(x),
            },
    {
        let object = self.parse_expression(context, scanner, scope)?;
        Ok(Rc::new(Tree::Node(Node { info: NodeInfo::Assignement, child: subject, sibling: object })))
    }

    fn parse_expression<'a>(&self, context: ScanContext, scanner: &mut Scanner, scope: &'a Scope) -> (r: ParseResult<'a>)
        requires
            old(scanner).wf(),
            c_expression(old(scanner)@, scope@, context) is Some,
        ensures
            final(scanner).wf(),
            c_expression(old(scanner)@, scope@, context) == Some((final(scanner)@, parse_view(r))),
    {
        let next = self.scan_next(scanner)?;
        if let Scan { token: Token::Int(constant_value), context: _context } = next {
            let n = Node::constant(constant_value);
            assert(tree_view(&*n.child) == TreeV::Nil && tree_view(&*n.sibling) == TreeV::Nil);
            return Ok(Rc::new(Tree::Node(n)));
        }
        if let Scan { token: Token::Ident(ident), context: _context } = next {
            let symbol = self.lookup(scope, ident.as_str())?;
            let n = Node::ident(symbol);
            assert(tree_view(&*n.child) == TreeV::Nil && tree_view(&*n.sibling) == TreeV::Nil);
            return Ok(Rc::new(Tree::Node(n)));
        }
        Err(ParseError::UnexpectedToken(context))
    }

    fn scan_next(&self, scanner: &mut Scanner) -> (r: Result<Scan, ParseError>)
        requires
            old(scanner).wf(),
            c_scan(old(scanner)@) is Some,
        ensures
            final(scanner).wf(),
            c_scan(old(scanner)@) == Some((final(scanner)@, scan_view(r))),
    {
        match scanner.next() {
            None => Err(ParseError::PrematureEof),
            Some(Ok(scan)) => Ok(scan),
            Some(Err(scan_error)) => Err(ParseError::ScanError(scan_error)),
        }
    }

    fn lookup<'a>(&self, scope: &'a Scope, ident: &str) -> (r: Result<&'a Symbol, ParseError>)
        ensures
            match r {
                Ok(s) => c_lookup(scope@, ident@) == Ok::<Seq<char>, PErr>(s.name@),
                Err(e) => c_lookup(scope@, ident@) == Err::<Seq<char>, PErr>(e@),
            },
    {
        match scope.lookup(ident) {
            Some(symbol) => Ok(symbol),
            None => Err(ParseError::UndefinedSymbol(crate::text::string_from_chars(&crate::text::chars_of(ident)))),
        }
    }
}

} // verus!
