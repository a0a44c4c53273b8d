//! A recursive descent parser of Oberon-0.
//!
//! Each function starts on the current token of the scanner and leaves it on
//! the first token that it did not use. Declarations add their variables to
//! the scope; identifiers are looked up in it.

use vstd::prelude::*;

use std::rc::Rc;

use crate::dom_ast::ast::{self, Ast};
use crate::dom_ast::grammar::{
    Continuation, PErr, cur, flag, leaf, lex_le, lex_lt, node, p_add_all, p_add_symbol,
    p_array_decl, p_assignment, p_begin_end, p_close_bracket, p_declarations, p_declare,
    p_expression, p_expression_relation, p_factor, p_ident_list, p_ident_with_selector, p_if_end, p_if_statement,
    p_integer_decl, p_module, p_module_end, p_recur_declaration, p_simple_expression,
    p_simple_rest, p_statement, p_statement_sequence, p_term, p_term_rest, p_var_declarations,
    p_var_declarations_then, p_while_statement, rem, spec_scan_next,
};
use crate::dom_ast::scanner::Scanner;
use crate::dom_ast::scope::{Scope, Symbol};
use crate::dom_ast::token::{Scan, ScanContext, ScanError, Token};
use crate::dom_ast::tree::{ExpressionOp, NodeInfo, SimpleExpressionOp, TermOp, Tree, TreeNode, TreeV, VarType};
use crate::dom_ast::line_scanner::next_view;
use crate::dom_ast::progress::{
    lemma_below_fits, lemma_module, lemma_room_cap, lemma_scan_next, lemma_start, lemma_start_below, numbers_below, numbers_fit, room_cap, roomy, text_below,
    text_fits,
};
use crate::dom_ast::scanner::scanner_start;
use crate::dom_ast::scope::ScopeV;
use crate::text::{chars_of, digit_run, eq_lit, is_digit, lines, lines_exec, run_within, string_from_chars, views};

verus! {

#[derive(Debug)]
pub enum ParseError {
    ScanError(ScanError),
    UndefinedSymbol(String),
    PrematureEof,
    UnexpectedToken(Rc<Scan>),
    SymbolAlreadyDeclared(String, ScanContext),
    UnexpectedBlockEnding { expected: String, found: String },
    Todo,
}

impl View for ParseError {
    type V = PErr;

    open spec fn view(&self) -> PErr {
        match self {
            ParseError::ScanError(e) => PErr::ScanError(*e),
            ParseError::UndefinedSymbol(s) => PErr::UndefinedSymbol(s@),
            ParseError::PrematureEof => PErr::PrematureEof,
            ParseError::UnexpectedToken(s) => PErr::UnexpectedToken((**s)@),
            ParseError::SymbolAlreadyDeclared(s, c) => PErr::SymbolAlreadyDeclared(s@, *c),
            ParseError::UnexpectedBlockEnding { expected, found } => PErr::UnexpectedBlockEnding {
                expected: expected@,
                found: found@,
            },
            ParseError::Todo => PErr::Todo,
        }
    }
}

pub type ParseResult = Result<Rc<Tree>, ParseError>;

/// The view of a parse result.
pub open spec fn parse_view(r: ParseResult) -> Result<TreeV, PErr> {
    match r {
        Ok(t) => Ok((*t)@),
        Err(e) => Err(e@),
    }
}

/// Moves the scanner to the next token; a scan error is returned.
pub fn scan_next(scanner: &mut Scanner) -> (r: Result<(), ParseError>)
    requires
        old(scanner).wf(),
        spec_scan_next(old(scanner)@) is Some,
    ensures
        final(scanner).wf(),
        spec_scan_next(old(scanner)@) == Some(
            (
                final(scanner)@,
                match r {
                    Ok(_) => Ok::<(), PErr>(()),
                    Err(e) => Err(e@),
                },
            ),
        ),
        r matches Err(e) ==> e is ScanError,
{
    match scanner.next() {
        None => Ok(()),
        Some(scan_result) => match scan_result {
            Ok(_scan) => Ok(()),
            Err(scan_error) => Err(ParseError::ScanError(scan_error)),
        },
    }
}

fn current_token(scanner: &mut Scanner) -> (r: Result<Rc<Scan>, ParseError>)
    ensures
        *final(scanner) == *old(scanner),
        match r {
            Ok(s) => cur(old(scanner)@) == Some((*s)@),
            Err(e) => cur(old(scanner)@) is None && e is PrematureEof,
        },
{
    match scanner.current() {
        Some(scan) => Ok(scan),
        None => Err(ParseError::PrematureEof),
    }
}

fn current_token_or_none(scanner: &mut Scanner) -> (r: Option<Rc<Scan>>)
    ensures
        *final(scanner) == *old(scanner),
        match r {
            Some(s) => cur(old(scanner)@) == Some((*s)@),
            None => cur(old(scanner)@) is None,
        },
{
    scanner.current()
}

fn lookup(scope: &Scope, ident: &str) -> (r: Result<Rc<Symbol>, ParseError>)
    ensures
        match r {
            Ok(s) => scope@.lookup(ident@) == Some((*s)@),
            Err(e) => scope@.lookup(ident@) is None && e@ == PErr::UndefinedSymbol(ident@),
        },
{
    match scope.lookup(ident) {
        Some(s) => Ok(s),
        None => Err(ParseError::UndefinedSymbol(string_from_chars(&chars_of(ident)))),
    }
}

fn add_symbol(scope: &mut Scope, ident: &str, size: u32, context: ScanContext) -> (r: Result<
    Rc<Symbol>,
    ParseError,
>)
    requires
        p_add_symbol(old(scope)@, ident@, size, context) is Some,
    ensures
        p_add_symbol(old(scope)@, ident@, size, context) == Some(
            (
                final(scope)@,
                match r {
                    Ok(s) => Ok((*s)@),
                    Err(e) => Err(e@),
                },
            ),
        ),
{
    match scope.lookup(ident) {
        None => {
            scope.add_with_size(ident, size as usize);
            lookup(scope, ident)
        },
        Some(_symbol) => Err(
            ParseError::SymbolAlreadyDeclared(string_from_chars(&chars_of(ident)), context),
        ),
    }
}

/// A tree node.
fn tree_node(info: NodeInfo, child: Ast, sibling: Ast) -> (t: Ast)
    ensures
        (*t)@ == node(info@, (*child)@, (*sibling)@),
{
    ast::node(info, child, sibling)
}

/// An identifier, whose name is `ident` and which is the current token,
/// with an index in brackets if one follows.
pub fn parse_ident_with_selector(scanner: &mut Scanner, scope: &mut Scope, ident: &str) -> (r: ParseResult)
    requires
        old(scanner).wf(),
        p_ident_with_selector(old(scanner)@, old(scope)@, ident@) is Some,
    ensures
        final(scanner).wf(),
        p_ident_with_selector(old(scanner)@, old(scope)@, ident@) == Some(
            (final(scanner)@, final(scope)@, parse_view(r)),
        ),
{
    let symbol = lookup(scope, ident)?;
    scan_next(scanner)?;
    let maybe_selector_start = current_token_or_none(scanner);
    match maybe_selector_start {
        None => Ok(ast::leaf(NodeInfo::Ident(symbol))),
        Some(scan) => {
            if let Token::Lbrak = &scan.token {
                scan_next(scanner)?;
                let current = current_token(scanner)?;
                match &current.token {
                    Token::Int(constant_value) => {
                        let index = ast::leaf(NodeInfo::Constant(*constant_value));
                        close_bracket(scanner, scope, symbol, index, None)
                    },
                    Token::Ident(index_ident) => {
                        let nil = ast::empty();
                        close_bracket(scanner, scope, symbol, nil, Some(index_ident.as_str()))
                    },
                    _ => Err(ParseError::UnexpectedToken(current)),
                }
            } else {
                Ok(ast::leaf(NodeInfo::Ident(symbol)))
            }
        },
    }
}

/// The end of an index, from the index token on: the closing bracket.
fn close_bracket(
    scanner: &mut Scanner,
    scope: &mut Scope,
    symbol: Rc<Symbol>,
    index: Ast,
    var: Option<&str>,
) -> (r: ParseResult)
    requires
        old(scanner).wf(),
        p_close_bracket(
            old(scanner)@,
            old(scope)@,
            (*symbol)@,
            (*index)@,
            match var {
                Some(v) => Some(v@),
                None => None,
            },
        ) is Some,
    ensures
        final(scanner).wf(),
        p_close_bracket(
            old(scanner)@,
            old(scope)@,
            (*symbol)@,
            (*index)@,
            match var {
                Some(v) => Some(v@),
                None => None,
            },
        ) == Some((final(scanner)@, final(scope)@, parse_view(r))),
{
    scan_next(scanner)?;
    let current = current_token(scanner)?;
    if let Token::Rbrak = &current.token {
        scan_next(scanner)?;
        match var {
            None => Ok(tree_node(NodeInfo::Ident(symbol), index, ast::empty())),
            Some(v) => {
                let index_symbol = lookup(scope, v)?;
                let child = ast::leaf(NodeInfo::Ident(index_symbol));
                Ok(tree_node(NodeInfo::Ident(symbol), child, ast::empty()))
            },
        }
    } else {
        Err(ParseError::UnexpectedToken(current))
    }
}

/// A factor: a number, an identifier with its selector, or an expression in
/// parentheses.
pub fn parse_factor(scanner: &mut Scanner, scope: &mut Scope) -> (r: ParseResult)
    requires
        old(scanner).wf(),
        p_factor(old(scanner)@, old(scope)@) is Some,
    ensures
        final(scanner).wf(),
        p_factor(old(scanner)@, old(scope)@) == Some((final(scanner)@, final(scope)@, parse_view(r))),
    decreases rem(old(scanner)@), flag(old(scanner)@), 1int,
{
    let current = current_token(scanner)?;
    match &current.token {
        Token::Int(constant_value) => {
            scan_next(scanner)?;
            Ok(ast::leaf(NodeInfo::Constant(*constant_value)))
        },
        Token::Ident(ident) => parse_ident_with_selector(scanner, scope, ident.as_str()),
        Token::Lparen => {
            scan_next(scanner)?;
            let expression = parse_expression(scanner, scope);
            let current = current_token(scanner)?;
            if let Token::Rparen = &current.token {
                scan_next(scanner)?;
                return expression;
            }
            Err(ParseError::UnexpectedToken(current))
        },
        _ => Err(ParseError::UnexpectedToken(current)),
    }
}

/// A term: factors joined by `*` and `/`, from the left.
pub fn parse_term(scanner: &mut Scanner, scope: &mut Scope) -> (r: ParseResult)
    requires
        old(scanner).wf(),
        p_term(old(scanner)@, old(scope)@) is Some,
    ensures
        final(scanner).wf(),
        p_term(old(scanner)@, old(scope)@) == Some((final(scanner)@, final(scope)@, parse_view(r))),
    decreases rem(old(scanner)@), flag(old(scanner)@), 3int,
{
    let ghost target = p_term(old(scanner)@, old(scope)@)->0;
    let mut tree = parse_factor(scanner, scope)?;
    loop
        invariant
            scanner.wf(),
            p_term_rest(scanner@, scope@, (*tree)@) == Some(target),
            p_term(old(scanner)@, old(scope)@) == Some(target),
            lex_le(scanner@, old(scanner)@),
        decreases rem(scanner@), flag(scanner@),
    {
        let current = current_token_or_none(scanner);
        let operator = match &current {
            None => None,
            Some(scan) => match &scan.token {
                Token::Times => Some(TermOp::Times),
                Token::Div => Some(TermOp::Div),
                _ => None,
            },
        };
        match operator {
            Some(operator) => {
                scan_next(scanner)?;
                let sibling = parse_factor(scanner, scope)?;
                tree = tree_node(NodeInfo::Term(operator), tree, sibling);
            },
            None => {
                return Ok(tree);
            },
        }
    }
}

/// A simple expression: terms joined by `+` and `-`, from the left.
pub fn parse_simple_expression(scanner: &mut Scanner, scope: &mut Scope) -> (r: ParseResult)
    requires
        old(scanner).wf(),
        p_simple_expression(old(scanner)@, old(scope)@) is Some,
    ensures
        final(scanner).wf(),
        p_simple_expression(old(scanner)@, old(scope)@) == Some(
            (final(scanner)@, final(scope)@, parse_view(r)),
        ),
    decreases rem(old(scanner)@), flag(old(scanner)@), 5int,
{
    let ghost target = p_simple_expression(old(scanner)@, old(scope)@)->0;
    let mut tree = parse_term(scanner, scope)?;
    loop
        invariant
            scanner.wf(),
            p_simple_rest(scanner@, scope@, (*tree)@) == Some(target),
            p_simple_expression(old(scanner)@, old(scope)@) == Some(target),
            lex_le(scanner@, old(scanner)@),
        decreases rem(scanner@), flag(scanner@),
    {
        let current = current_token_or_none(scanner);
        let operator = match &current {
            None => None,
            Some(scan) => match &scan.token {
                Token::Plus => Some(SimpleExpressionOp::Plus),
                Token::Minus => Some(SimpleExpressionOp::Minus),
                _ => None,
            },
        };
        match operator {
            Some(operator) => {
                scan_next(scanner)?;
                let sibling = parse_term(scanner, scope)?;
                tree = tree_node(NodeInfo::SimpleExpression(operator), tree, sibling);
            },
            None => {
                return Ok(tree);
            },
        }
    }
}

/// An expression: a simple expression, compared with a second one if a
/// relation follows.
pub fn parse_expression(scanner: &mut Scanner, scope: &mut Scope) -> (r: ParseResult)
    requires
        old(scanner).wf(),
        p_expression(old(scanner)@, old(scope)@) is Some,
    ensures
        final(scanner).wf(),
        p_expression(old(scanner)@, old(scope)@) == Some((final(scanner)@, final(scope)@, parse_view(r))),
    decreases rem(old(scanner)@), flag(old(scanner)@), 7int,
{
    let first_expression = parse_simple_expression(scanner, scope)?;
    let current = current_token_or_none(scanner);
    let operator = match &current {
        None => None,
        Some(scan) => expression_op_of(&scan.token),
    };
    match operator {
        Some(op) => parse_expression_relation(scanner, scope, first_expression, op),
        None => Ok(first_expression),
    }
}

fn expression_op_of(t: &Token) -> (r: Option<ExpressionOp>)
    ensures
        r == crate::dom_ast::grammar::expression_op(t@),
{
    match t {
        Token::Eql => Some(ExpressionOp::Eql),
        Token::Neq => Some(ExpressionOp::Neq),
        Token::Lss => Some(ExpressionOp::Lss),
        Token::Leq => Some(ExpressionOp::Leq),
        Token::Gtr => Some(ExpressionOp::Gtr),
        Token::Geq => Some(ExpressionOp::Geq),
        _ => None,
    }
}

/// The relation `expression_op` between `first_expression` and the simple
/// expression after the operator, which is the current token.
pub fn parse_expression_relation(
    scanner: &mut Scanner,
    scope: &mut Scope,
    first_expression: Rc<Tree>,
    expression_op: ExpressionOp,
) -> (r: ParseResult)
    requires
        old(scanner).wf(),
        p_expression_relation(old(scanner)@, old(scope)@, (*first_expression)@, expression_op) is Some,
    ensures
        final(scanner).wf(),
        p_expression_relation(old(scanner)@, old(scope)@, (*first_expression)@, expression_op) == Some(
            (final(scanner)@, final(scope)@, parse_view(r)),
        ),
    decreases rem(old(scanner)@), flag(old(scanner)@), 6int,
{
    scan_next(scanner)?;
    let second_expression = parse_simple_expression(scanner, scope)?;
    Ok(tree_node(NodeInfo::Expression(expression_op), first_expression, second_expression))
}

/// A statement: an assignment to a variable, an IF or a WHILE.
pub fn parse_statement(scanner: &mut Scanner, scope: &mut Scope) -> (r: ParseResult)
    requires
        old(scanner).wf(),
        p_statement(old(scanner)@, old(scope)@) is Some,
    ensures
        final(scanner).wf(),
        p_statement(old(scanner)@, old(scope)@) == Some((final(scanner)@, final(scope)@, parse_view(r))),
    decreases rem(old(scanner)@), flag(old(scanner)@), 9int,
{
    let current = current_token(scanner)?;
    match &current.token {
        Token::Ident(ident) => {
            let subject = parse_ident_with_selector(scanner, scope, ident.as_str())?;
            let current = current_token(scanner)?;
            if let Token::Becomes = &current.token {
                scan_next(scanner)?;
                return parse_assignment(subject, scanner, scope);
            }
            Err(ParseError::UnexpectedToken(current))
        },
        Token::If => {
            scan_next(scanner)?;
            parse_if_statement(scanner, scope)
        },
        Token::While => {
            scan_next(scanner)?;
            parse_while_statement(scanner, scope)
        },
        _ => Err(ParseError::UnexpectedToken(current)),
    }
}

/// The expression assigned to `subject`.
fn parse_assignment(subject: Rc<Tree>, scanner: &mut Scanner, scope: &mut Scope) -> (r: ParseResult)
    requires
        old(scanner).wf(),
        p_assignment((*subject)@, old(scanner)@, old(scope)@) is Some,
    ensures
        final(scanner).wf(),
        p_assignment((*subject)@, old(scanner)@, old(scope)@) == Some(
            (final(scanner)@, final(scope)@, parse_view(r)),
        ),
    decreases rem(old(scanner)@), flag(old(scanner)@), 8int,
{
    let object = parse_expression(scanner, scope)?;
    Ok(tree_node(NodeInfo::Assignement, subject, object))
}

/// The END of an IF, and the statement built of its parts.
fn parse_if_end(scanner: &mut Scanner, scope: &mut Scope, test: Ast, then_seq: Ast, else_seq: Ast) -> (r: ParseResult)
    requires
        old(scanner).wf(),
        p_if_end(old(scanner)@, old(scope)@, (*test)@, (*then_seq)@, (*else_seq)@) is Some,
    ensures
        final(scanner).wf(),
        p_if_end(old(scanner)@, old(scope)@, (*test)@, (*then_seq)@, (*else_seq)@) == Some(
            (final(scanner)@, final(scope)@, parse_view(r)),
        ),
{
    let current = current_token(scanner)?;
    if let Token::End = &current.token {
        scan_next(scanner)?;
        let then_node = tree_node(NodeInfo::Then, then_seq, else_seq);
        return Ok(tree_node(NodeInfo::IfStatement, test, then_node));
    }
    Err(ParseError::UnexpectedToken(current))
}

/// IF test THEN statements [ELSE statements] END, after the IF.
pub fn parse_if_statement(scanner: &mut Scanner, scope: &mut Scope) -> (r: ParseResult)
    requires
        old(scanner).wf(),
        p_if_statement(old(scanner)@, old(scope)@) is Some,
    ensures
        final(scanner).wf(),
        p_if_statement(old(scanner)@, old(scope)@) == Some(
            (final(scanner)@, final(scope)@, parse_view(r)),
        ),
    decreases rem(old(scanner)@), flag(old(scanner)@), 8int,
{
    let test_expression = parse_expression(scanner, scope)?;
    let current = current_token(scanner)?;
    if let Token::Then = &current.token {
        scan_next(scanner)?;
        let then_statement_sequence = parse_statement_sequence(scanner, scope)?;
        let current = current_token(scanner)?;
        if let Token::Else = &current.token {
            scan_next(scanner)?;
            let else_body = parse_statement_sequence(scanner, scope)?;
            let else_statement_sequence = tree_node(NodeInfo::Else, else_body, ast::empty());
            parse_if_end(scanner, scope, test_expression, then_statement_sequence, else_statement_sequence)
        } else {
            parse_if_end(scanner, scope, test_expression, then_statement_sequence, ast::empty())
        }
    } else {
        Err(ParseError::UnexpectedToken(current))
    }
}

/// WHILE test DO statements END, after the WHILE.
pub fn parse_while_statement(scanner: &mut Scanner, scope: &mut Scope) -> (r: ParseResult)
    requires
        old(scanner).wf(),
        p_while_statement(old(scanner)@, old(scope)@) is Some,
    ensures
        final(scanner).wf(),
        p_while_statement(old(scanner)@, old(scope)@) == Some(
            (final(scanner)@, final(scope)@, parse_view(r)),
        ),
    decreases rem(old(scanner)@), flag(old(scanner)@), 8int,
{
    let test_expression = parse_expression(scanner, scope)?;
    let current = current_token(scanner)?;
    if let Token::Do = &current.token {
        scan_next(scanner)?;
        let do_statement_sequence = parse_statement_sequence(scanner, scope)?;
        let current = current_token(scanner)?;
        if let Token::End = &current.token {
            scan_next(scanner)?;
            let do_node = tree_node(NodeInfo::Do, do_statement_sequence, ast::empty());
            return Ok(tree_node(NodeInfo::WhileStatement, test_expression, do_node));
        }
        Err(ParseError::UnexpectedToken(current))
    } else {
        Err(ParseError::UnexpectedToken(current))
    }
}

/// Statements separated by `;`.
#[verifier::spinoff_prover]
#[verifier::rlimit(40)]
pub fn parse_statement_sequence(scanner: &mut Scanner, scope: &mut Scope) -> (r: ParseResult)
    requires
        old(scanner).wf(),
        p_statement_sequence(old(scanner)@, old(scope)@) is Some,
    ensures
        final(scanner).wf(),
        p_statement_sequence(old(scanner)@, old(scope)@) == Some(
            (final(scanner)@, final(scope)@, parse_view(r)),
        ),
    decreases rem(old(scanner)@), flag(old(scanner)@), 10int,
{
    let first_statement = parse_statement(scanner, scope)?;
    let current = current_token_or_none(scanner);
    let next_statement = match current {
        Some(scan) => {
            if let Token::Semicolon = &scan.token {
                scan_next(scanner)?;
                parse_statement_sequence(scanner, scope)?
            } else {
                ast::empty()
            }
        },
        None => ast::empty(),
    };
    Ok(tree_node(NodeInfo::StatementSequence, first_statement, next_statement))
}

/// BEGIN statements, or nothing.
pub fn parse_begin_end(scanner: &mut Scanner, scope: &mut Scope) -> (r: ParseResult)
    requires
        old(scanner).wf(),
        p_begin_end(old(scanner)@, old(scope)@) is Some,
    ensures
        final(scanner).wf(),
        p_begin_end(old(scanner)@, old(scope)@) == Some((final(scanner)@, final(scope)@, parse_view(r))),
{
    let current = current_token(scanner)?;
    if let Token::Begin = &current.token {
        scan_next(scanner)?;
        parse_statement_sequence(scanner, scope)
    } else {
        Ok(ast::empty())
    }
}

pub type IdentList = Vec<(String, ScanContext)>;

/// The view of identifiers with their places.
pub open spec fn idents_view(idents: Seq<(String, ScanContext)>) -> Seq<(Seq<char>, ScanContext)> {
    idents.map_values(|p: (String, ScanContext)| (p.0@, p.1))
}

/// The identifiers of a list `a, b, c`, with their places.
fn parse_ident_list(scanner: &mut Scanner) -> (r: Result<IdentList, ParseError>)
    requires
        old(scanner).wf(),
        p_ident_list(old(scanner)@, seq![]) is Some,
    ensures
        final(scanner).wf(),
        p_ident_list(old(scanner)@, seq![]) == Some(
            (
                final(scanner)@,
                match r {
                    Ok(v) => Ok(idents_view(v@)),
                    Err(e) => Err(e@),
                },
            ),
        ),
{
    let ghost target = p_ident_list(old(scanner)@, seq![])->0;
    let mut idents: IdentList = Vec::new();
    assert(idents_view(idents@) =~= seq![]);
    loop
        invariant
            scanner.wf(),
            p_ident_list(scanner@, idents_view(idents@)) == Some(target),
            p_ident_list(old(scanner)@, seq![]) == Some(target),
        decreases rem(scanner@), flag(scanner@),
    {
        let current = current_token(scanner)?;
        if let Token::Ident(ident) = &current.token {
            let name = string_from_chars(&chars_of(ident.as_str()));
            let ghost before = idents@;
            idents.push((name, current.context));
            assert(idents_view(idents@) =~= idents_view(before).push((ident@, current.context)));
            scan_next(scanner)?;
            let current = current_token(scanner)?;
            if let Token::Comma = &current.token {
                scan_next(scanner)?;
                continue;
            } else {
                return Ok(idents);
            }
        }
        return Ok(idents);
    }
}

/// The declaration nodes of the identifiers, of type `node_type`, chained
/// before `final_sibling`.
pub fn var_declarations(
    idents: &[(String, ScanContext)],
    scope: &Scope,
    node_type: VarType,
    final_sibling: Ast,
) -> (r: ParseResult)
    ensures
        parse_view(r) == p_var_declarations(idents_view(idents@), scope@, node_type, (*final_sibling)@),
{
    assert(idents_view(idents@).skip(0) =~= idents_view(idents@));
    var_declarations_from(idents, 0, scope, node_type, final_sibling)
}

fn var_declarations_from(
    idents: &[(String, ScanContext)],
    k: usize,
    scope: &Scope,
    node_type: VarType,
    final_sibling: Ast,
) -> (r: ParseResult)
    requires
        k <= idents.len(),
    ensures
        parse_view(r) == p_var_declarations(idents_view(idents@).skip(k as int), scope@, node_type, (*final_sibling)@),
    decreases idents.len() - k,
{
    let ghost rest = idents_view(idents@).skip(k as int);
    if k == idents.len() {
        assert(rest =~= Seq::<(Seq<char>, ScanContext)>::empty());
        return Ok(final_sibling);
    }
    assert(rest.drop_first() =~= idents_view(idents@).skip(k + 1));
    let symbol = lookup(scope, idents[k].0.as_str())?;
    let child = ast::leaf(NodeInfo::Ident(symbol));
    let sibling = ast::leaf(NodeInfo::Type(node_type));
    let var = tree_node(NodeInfo::Var, child, sibling);
    let next = var_declarations_from(idents, k + 1, scope, node_type, final_sibling)?;
    Ok(tree_node(NodeInfo::Declaration, var, next))
}

/// Declares each identifier with `size` words, stopping at the first error.
fn add_all(scope: &mut Scope, idents: &IdentList, size: u32) -> (r: Result<(), ParseError>)
    requires
        p_add_all(old(scope)@, idents_view(idents@), size) is Some,
    ensures
        p_add_all(old(scope)@, idents_view(idents@), size) == Some(
            (
                final(scope)@,
                match r {
                    Ok(_) => Ok::<(), PErr>(()),
                    Err(e) => Err(e@),
                },
            ),
        ),
{
    let ghost target = p_add_all(old(scope)@, idents_view(idents@), size)->0;
    let mut k: usize = 0;
    assert(idents_view(idents@).skip(0) =~= idents_view(idents@));
    while k < idents.len()
        invariant
            k <= idents.len(),
            p_add_all(scope@, idents_view(idents@).skip(k as int), size) == Some(target),
            p_add_all(old(scope)@, idents_view(idents@), size) == Some(target),
        decreases idents.len() - k,
    {
        let ghost rest = idents_view(idents@).skip(k as int);
        assert(rest.drop_first() =~= idents_view(idents@).skip(k + 1));
        let (ident, context) = (&idents[k].0, idents[k].1);
        add_symbol(scope, ident.as_str(), size, context)?;
        k = k + 1;
    }
    assert(idents_view(idents@).skip(k as int) =~= Seq::<(Seq<char>, ScanContext)>::empty());
    Ok(())
}

/// Declares the identifiers, parses the declarations that follow, and
/// chains them after these.
fn declare(
    scanner: &mut Scanner,
    scope: &mut Scope,
    idents: &IdentList,
    size: u32,
    node_type: VarType,
    Ghost(st0): Ghost<crate::dom_ast::scanner::ScannerState>,
) -> (r: ParseResult)
    requires
        old(scanner).wf(),
        p_declare(st0, old(scanner)@, old(scope)@, idents_view(idents@), size, node_type) is Some,
    ensures
        final(scanner).wf(),
        p_declare(st0, old(scanner)@, old(scope)@, idents_view(idents@), size, node_type) == Some(
            (final(scanner)@, final(scope)@, parse_view(r)),
        ),
    decreases rem(st0), flag(st0), 0int,
{
    add_all(scope, idents, size)?;
    let sibling = recur_parse_declaration(scanner, scope)?;
    var_declarations(idents.as_slice(), scope, node_type, sibling)
}

/// Whether an identifier is INTEGER.
fn is_integer(ident: &String) -> (b: bool)
    ensures
        b == (ident@ == "INTEGER"@),
{
    eq_lit(&chars_of(ident.as_str()), "INTEGER")
}

/// The type INTEGER and `;`, where `current` is the token that should name
/// the type.
fn integer_decl(
    scanner: &mut Scanner,
    scope: &mut Scope,
    idents: &IdentList,
    current: Rc<Scan>,
    Ghost(st0): Ghost<crate::dom_ast::scanner::ScannerState>,
) -> (r: ParseResult)
    requires
        old(scanner).wf(),
        p_integer_decl(st0, old(scanner)@, old(scope)@, idents_view(idents@), (*current)@) is Some,
    ensures
        final(scanner).wf(),
        p_integer_decl(st0, old(scanner)@, old(scope)@, idents_view(idents@), (*current)@) == Some(
            (final(scanner)@, final(scope)@, parse_view(r)),
        ),
    decreases rem(st0), flag(st0), 1int,
{
    if let Token::Ident(type_ident) = &current.token {
        if !is_integer(type_ident) {
            return Err(ParseError::UndefinedSymbol(string_from_chars(&chars_of(type_ident.as_str()))));
        }
        scan_next(scanner)?;
        let current = current_token(scanner)?;
        if let Token::Semicolon = &current.token {
            scan_next(scanner)?;
            return declare(scanner, scope, idents, 1, VarType::Integer, Ghost(st0));
        }
        return Err(ParseError::UnexpectedToken(current));
    }
    Err(ParseError::UnexpectedToken(current))
}

/// ARRAY n OF INTEGER and `;`, from the ARRAY on. Where the declaration is
/// not of this form, the token after ARRAY is taken to name the type.
fn array_decl(
    scanner: &mut Scanner,
    scope: &mut Scope,
    idents: &IdentList,
    Ghost(st0): Ghost<crate::dom_ast::scanner::ScannerState>,
) -> (r: ParseResult)
    requires
        old(scanner).wf(),
        p_array_decl(st0, old(scanner)@, old(scope)@, idents_view(idents@)) is Some,
    ensures
        final(scanner).wf(),
        p_array_decl(st0, old(scanner)@, old(scope)@, idents_view(idents@)) == Some(
            (final(scanner)@, final(scope)@, parse_view(r)),
        ),
    decreases rem(st0), flag(st0), 2int,
{
    scan_next(scanner)?;
    let current = current_token(scanner)?;
    if let Token::Int(array_capacity) = &current.token {
        scan_next(scanner)?;
        let current4 = current_token(scanner)?;
        if let Token::Of = &current4.token {
            scan_next(scanner)?;
            let current5 = current_token(scanner)?;
            if let Token::Ident(type_ident) = &current5.token {
                if !is_integer(type_ident) {
                    return Err(ParseError::UndefinedSymbol(string_from_chars(&chars_of(type_ident.as_str()))));
                }
                scan_next(scanner)?;
                let current6 = current_token(scanner)?;
                if let Token::Semicolon = &current6.token {
                    scan_next(scanner)?;
                    return declare(scanner, scope, idents, *array_capacity, VarType::Array(*array_capacity), Ghost(st0));
                }
            }
        }
    }
    integer_decl(scanner, scope, idents, current, Ghost(st0))
}

/// Variable declarations `a, b: type;`, one after the other, until a token
/// that starts no identifier list.
fn recur_parse_declaration(scanner: &mut Scanner, scope: &mut Scope) -> (r: ParseResult)
    requires
        old(scanner).wf(),
        p_recur_declaration(old(scanner)@, old(scope)@) is Some,
    ensures
        final(scanner).wf(),
        p_recur_declaration(old(scanner)@, old(scope)@) == Some(
            (final(scanner)@, final(scope)@, parse_view(r)),
        ),
    decreases rem(old(scanner)@), flag(old(scanner)@), 3int,
{
    let ghost st0 = scanner@;
    let current = current_token_or_none(scanner);
    if current.is_none() {
        return Ok(ast::empty());
    }
    let idents = parse_ident_list(scanner)?;
    if idents.len() == 0 {
        return Ok(ast::empty());
    }
    let current = current_token(scanner)?;
    if let Token::Colon = &current.token {
        scan_next(scanner)?;
    } else {
        return Err(ParseError::UnexpectedToken(current));
    }
    let current = current_token(scanner)?;
    if let Token::Array = &current.token {
        array_decl(scanner, scope, &idents, Ghost(st0))
    } else {
        integer_decl(scanner, scope, &idents, current, Ghost(st0))
    }
}

/// The variable declarations after VAR, then what `and_then` names.
pub fn parse_var_declarations(scanner: &mut Scanner, scope: &mut Scope, and_then: Continuation) -> (r: ParseResult)
    requires
        old(scanner).wf(),
        p_var_declarations_then(old(scanner)@, old(scope)@, and_then) is Some,
    ensures
        final(scanner).wf(),
        p_var_declarations_then(old(scanner)@, old(scope)@, and_then) == Some(
            (final(scanner)@, final(scope)@, parse_view(r)),
        ),
{
    let declarations = recur_parse_declaration(scanner, scope)?;
    let rest = match and_then {
        Continuation::BeginEnd => parse_begin_end(scanner, scope)?,
        Continuation::Finish => ast::empty(),
    };
    Ok(tree_node(NodeInfo::Declarations, declarations, rest))
}

/// A declaration section: VAR and its declarations, or nothing.
pub fn parse_declarations(scanner: &mut Scanner, scope: &mut Scope, and_then: Continuation) -> (r: ParseResult)
    requires
        old(scanner).wf(),
        p_declarations(old(scanner)@, old(scope)@, and_then) is Some,
    ensures
        final(scanner).wf(),
        p_declarations(old(scanner)@, old(scope)@, and_then) == Some(
            (final(scanner)@, final(scope)@, parse_view(r)),
        ),
{
    let current = current_token_or_none(scanner);
    if let Some(scan) = current {
        if let Token::Var = &scan.token {
            scan_next(scanner)?;
            return parse_var_declarations(scanner, scope, and_then);
        }
    }
    Ok(tree_node(NodeInfo::Declarations, ast::empty(), ast::empty()))
}

/// Whether two identifiers are the same.
fn same_ident(a: &String, b: &String) -> (r: bool)
    ensures
        r == (a@ == b@),
{
    crate::text::eq_chars(&chars_of(a.as_str()), &chars_of(b.as_str()))
}

/// `END name .` closing the module named `module_ident`, with nothing after.
fn parse_module_end(
    scanner: &mut Scanner,
    scope: &mut Scope,
    module_ident: &String,
    child: Ast,
    sibling: Ast,
) -> (r: ParseResult)
    requires
        old(scanner).wf(),
        p_module_end(old(scanner)@, old(scope)@, module_ident@, (*child)@, (*sibling)@) is Some,
    ensures
        final(scanner).wf(),
        p_module_end(old(scanner)@, old(scope)@, module_ident@, (*child)@, (*sibling)@) == Some(
            (final(scanner)@, final(scope)@, parse_view(r)),
        ),
{
    let current = current_token(scanner)?;
    if let Token::End = &current.token {
        scan_next(scanner)?;
    } else {
        return Err(ParseError::UnexpectedToken(current));
    }
    let current = current_token(scanner)?;
    if let Token::Ident(ending_ident) = &current.token {
        if !same_ident(ending_ident, module_ident) {
            return Err(
                ParseError::UnexpectedBlockEnding {
                    expected: string_from_chars(&chars_of(module_ident.as_str())),
                    found: string_from_chars(&chars_of(ending_ident.as_str())),
                },
            );
        }
        scan_next(scanner)?;
    } else {
        return Err(ParseError::UnexpectedToken(current));
    }
    let current = current_token(scanner)?;
    if let Token::Period = &current.token {
        scan_next(scanner)?;
    } else {
        return Err(ParseError::UnexpectedToken(current));
    }
    match current_token_or_none(scanner) {
        None => Ok(tree_node(NodeInfo::Module, child, sibling)),
        Some(scan) => Err(ParseError::UnexpectedToken(scan)),
    }
}

/// MODULE name ; declarations [BEGIN statements] END name .
pub fn parse_module(scanner: &mut Scanner, scope: &mut Scope) -> (r: ParseResult)
    requires
        old(scanner).wf(),
        p_module(old(scanner)@, old(scope)@) is Some,
    ensures
        final(scanner).wf(),
        p_module(old(scanner)@, old(scope)@) == Some((final(scanner)@, final(scope)@, parse_view(r))),
{
    let current = current_token(scanner)?;
    if let Token::Module = &current.token {
        scan_next(scanner)?;
    } else {
        return Err(ParseError::UnexpectedToken(current));
    }
    let current = current_token(scanner)?;
    if let Token::Ident(module_ident) = &current.token {
        scan_next(scanner)?;
        let current = current_token(scanner)?;
        if let Token::Semicolon = &current.token {
            // The size of a module is not known here; it takes one word.
            let module_size: u32 = 1;
            add_symbol(scope, module_ident.as_str(), module_size, current.context)?;
            let symbol = lookup(scope, module_ident.as_str())?;
            let child = ast::leaf(NodeInfo::Ident(symbol));
            scan_next(scanner)?;
            let sibling = parse_declarations(scanner, scope, Continuation::BeginEnd)?;
            parse_module_end(scanner, scope, module_ident, child, sibling)
        } else {
            Err(ParseError::UnexpectedToken(current))
        }
    } else {
        Err(ParseError::UnexpectedToken(current))
    }
}

/// Whether every number in `content` fits in 32 bits, which `build_ast`
/// needs.
pub fn numbers_fit_in(content: &str) -> (b: bool)
    ensures
        b == text_fits(content@),
{
    let b = numbers_at_most(content, 0xffff_ffff);
    proof {
        let ls = lines(content@);
        assert forall|j: int| 0 <= j < ls.len() implies #[trigger] numbers_fit(ls[j], 0) == numbers_below(
            ls[j],
            0,
            u32::MAX as int,
        ) by {
            assert(numbers_fit(ls[j], 0) ==> numbers_below(ls[j], 0, u32::MAX as int));
            assert(numbers_below(ls[j], 0, u32::MAX as int) ==> numbers_fit(ls[j], 0));
        }
        if b {
            assert forall|j: int| 0 <= j < ls.len() implies #[trigger] numbers_fit(ls[j], 0) by {
                assert(numbers_below(ls[j], 0, u32::MAX as int));
            }
        } else if text_fits(content@) {
            assert forall|j: int| 0 <= j < ls.len() implies #[trigger] numbers_below(ls[j], 0, u32::MAX as int) by {
                assert(numbers_fit(ls[j], 0));
            }
        }
    }
    b
}

/// Whether every number in `content` is small enough that each name the
/// text can declare finds an address, which `build_ast` needs.
pub fn room_for_symbols(content: &str) -> (b: bool)
    ensures
        b == text_below(content@, room_cap(content@.len() as int)),
{
    let n = content.unicode_len();
    let cap: u32 = if n <= 1 {
        0xffff_ffff
    } else if usize::MAX / n < 0xffff_ffff {
        (usize::MAX / n) as u32
    } else {
        0xffff_ffff
    };
    numbers_at_most(content, cap)
}

fn numbers_at_most(content: &str, cap: u32) -> (b: bool)
    ensures
        b == text_below(content@, cap as int),
{
    let text = chars_of(content);
    let ls = lines_exec(&text);
    let mut j: usize = 0;
    while j < ls.len()
        invariant
            views(ls@) == lines(content@),
            j <= ls.len(),
            forall|i: int| 0 <= i < j ==> #[trigger] numbers_below(lines(content@)[i], 0, cap as int),
        decreases ls.len() - j,
    {
        assert(ls@[j as int]@ == lines(content@)[j as int]);
        if !line_numbers_at_most(&ls[j], cap) {
            return false;
        }
        j = j + 1;
    }
    true
}

fn line_numbers_at_most(line: &Vec<char>, cap: u32) -> (b: bool)
    ensures
        b == numbers_below(line@, 0, cap as int),
{
    let mut p: usize = 0;
    while p < line.len()
        invariant
            p <= line.len(),
            forall|q: int|
                0 <= q < p && #[trigger] is_digit(line@[q]) ==> crate::text::digits_value(
                    line@.subrange(q, q + digit_run(line@, q)),
                ) <= cap,
        decreases line.len() - p,
    {
        if '0' <= line[p] && line[p] <= '9' {
            if !run_within(line, p, cap) {
                return false;
            }
        }
        p = p + 1;
    }
    true
}

/// The tree of the module that `content` holds, parsed with a new scope.
pub fn build_ast(content: &str) -> (r: ParseResult)
    requires
        content@.len() + 2 <= u32::MAX,
        text_below(content@, room_cap(content@.len() as int)),
    ensures
        match spec_scan_next(scanner_start(content@)) {
            Some((st1, Ok(_))) => p_module(st1, ScopeV { symbols: Seq::empty(), next_adr: 0 }) matches Some(
                (_, _, res),
            ) && parse_view(r) == res,
            Some((_, Err(e))) => parse_view(r) == Err::<TreeV, PErr>(e),
            None => false,
        },
{
    let mut scanner = Scanner::new(content);
    let mut scope = Scope::new();
    let ghost cap = room_cap(content@.len() as int);
    proof {
        lemma_room_cap(content@.len() as int);
        lemma_below_fits(content@, cap);
        lemma_start(content@);
        lemma_start_below(content@, cap);
        lemma_scan_next(scanner@);
    }
    scan_next(&mut scanner)?;
    proof {
        assert(roomy(scope@, scanner@, cap)) by (nonlinear_arith)
            requires
                scope@.next_adr == 0,
                0 <= rem(scanner@) <= content@.len(),
                content@.len() * cap <= usize::MAX,
                cap >= 1,
        ;
        lemma_module(scanner@, scope@, cap);
    }
    parse_module(&mut scanner, &mut scope)
}

} // verus!
