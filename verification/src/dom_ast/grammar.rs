//! What the parser of Oberon-0 does, as mathematical functions of the state
//! of the scanner and of the scope.
//!
//! Each function gives the scanner state, the scope and the result after
//! parsing, or `None` where a number in the text does not fit in 32 bits or
//! the scope runs out of addresses. The parser only recurses after it has
//! moved on in the text; the functions state this as a condition on the
//! measure of what is left (`lex_lt`, `lex_le`), which the lemmas of
//! `progress` show to hold wherever they are used.

use vstd::prelude::*;

use crate::dom_ast::scanner::{ScannerState, s_next};
use crate::dom_ast::scope::{ScopeV, SymbolV};
use crate::dom_ast::token::{ScanContext, ScanError, ScanV, Tok};
use crate::dom_ast::tree::{ExpressionOp, Info, SimpleExpressionOp, TermOp, TreeV, VarType};

verus! {

/// A parse error as a mathematical value.
pub enum PErr {
    ScanError(ScanError),
    UndefinedSymbol(Seq<char>),
    PrematureEof,
    UnexpectedToken(ScanV),
    SymbolAlreadyDeclared(Seq<char>, ScanContext),
    UnexpectedBlockEnding { expected: Seq<char>, found: Seq<char> },
    Todo,
}

/// What parsing leaves: the scanner, the scope and the tree or error.
pub type Outcome = Option<(ScannerState, ScopeV, Result<TreeV, PErr>)>;

/// The characters left to scan, counting line ends.
pub open spec fn rest_len(lines: Seq<Seq<char>>, from: int) -> nat
    decreases lines.len() - from,
{
    if 0 <= from < lines.len() {
        lines[from].len() + 1 + rest_len(lines, from + 1)
    } else {
        0
    }
}

pub open spec fn rem(st: ScannerState) -> nat {
    (if 0 <= st.line.pos <= st.line.text.len() {
        (st.line.text.len() - st.line.pos) as nat
    } else {
        0nat
    }) + rest_len(st.lines, st.next_line)
}

/// 1 where the current scan is a token that was read from the text; an
/// empty identifier is where the scanner stands on a character that starts
/// no token, and does not move.
pub open spec fn flag(st: ScannerState) -> nat {
    match st.line.current {
        Some(s) => if s.token == Tok::Ident(Seq::empty()) {
            0
        } else {
            1
        },
        None => 0,
    }
}

pub open spec fn lex_lt(a: ScannerState, b: ScannerState) -> bool {
    rem(a) < rem(b) || (rem(a) == rem(b) && flag(a) < flag(b))
}

pub open spec fn lex_le(a: ScannerState, b: ScannerState) -> bool {
    rem(a) < rem(b) || (rem(a) == rem(b) && flag(a) <= flag(b))
}

pub open spec fn cur(st: ScannerState) -> Option<ScanV> {
    st.line.current
}

/// Moves the scanner on; a scan error becomes a parse error.
pub open spec fn spec_scan_next(st: ScannerState) -> Option<(ScannerState, Result<(), PErr>)> {
    match s_next(st) {
        None => None,
        Some((st1, r)) => Some(
            (
                st1,
                match r {
                    Some(Err(e)) => Err(PErr::ScanError(e)),
                    _ => Ok(()),
                },
            ),
        ),
    }
}

/// Moving to the next token moves the scanner exactly as one call of its
/// `next` does; it succeeds where that call gave a scan or the end of the
/// text, and fails with the scan error where it gave one.
pub proof fn law_scan_next_moves_once(st: ScannerState)
    requires
        s_next(st) is Some,
    ensures
        s_next(st) matches Some((st1, x)) && spec_scan_next(st) matches Some((st2, r)) && st2 == st1 && (r is Ok
            <==> !(x matches Some(Err(_)))) && (forall|e: ScanError| x == Some(Err::<ScanV, ScanError>(e)) <==> r
            == Err::<(), PErr>(PErr::ScanError(e))),
{
}

pub open spec fn leaf(i: Info) -> TreeV {
    TreeV::Node(i, Box::new(TreeV::Nil), Box::new(TreeV::Nil))
}

pub open spec fn node(i: Info, c: TreeV, s: TreeV) -> TreeV {
    TreeV::Node(i, Box::new(c), Box::new(s))
}

/// An identifier, with an index in brackets that is a number or a variable.
pub open spec fn p_ident_with_selector(st: ScannerState, sc: ScopeV, ident: Seq<char>) -> Outcome
    decreases rem(st), flag(st), 0int,
{
    match sc.lookup(ident) {
        None => Some((st, sc, Err(PErr::UndefinedSymbol(ident)))),
        Some(sym) => match spec_scan_next(st) {
            None => None,
            Some((st1, Err(e))) => Some((st1, sc, Err(e))),
            Some((st1, Ok(_))) => match cur(st1) {
                None => Some((st1, sc, Ok(leaf(Info::Ident(sym))))),
                Some(s) => if s.token is Lbrak {
                    match spec_scan_next(st1) {
                        None => None,
                        Some((st2, Err(e))) => Some((st2, sc, Err(e))),
                        Some((st2, Ok(_))) => match cur(st2) {
                            None => Some((st2, sc, Err(PErr::PrematureEof))),
                            Some(c) => match c.token {
                                Tok::Int(v) => p_close_bracket(st2, sc, sym, leaf(Info::Constant(v)), None),
                                Tok::Ident(index_ident) => p_close_bracket(st2, sc, sym, TreeV::Nil, Some(index_ident)),
                                _ => Some((st2, sc, Err(PErr::UnexpectedToken(c)))),
                            },
                        },
                    }
                } else {
                    Some((st1, sc, Ok(leaf(Info::Ident(sym)))))
                },
            },
        },
    }
}

/// The end of an index: the scanner stands on the index; then `]`. The
/// index is `index` where it is a number, or the variable named `var`.
pub open spec fn p_close_bracket(
    st: ScannerState,
    sc: ScopeV,
    sym: SymbolV,
    index: TreeV,
    var: Option<Seq<char>>,
) -> Outcome {
    match spec_scan_next(st) {
        None => None,
        Some((st3, Err(e))) => Some((st3, sc, Err(e))),
        Some((st3, Ok(_))) => match cur(st3) {
            None => Some((st3, sc, Err(PErr::PrematureEof))),
            Some(c3) => if c3.token is Rbrak {
                match spec_scan_next(st3) {
                    None => None,
                    Some((st4, Err(e))) => Some((st4, sc, Err(e))),
                    Some((st4, Ok(_))) => match var {
                        None => Some((st4, sc, Ok(node(Info::Ident(sym), index, TreeV::Nil)))),
                        Some(v) => match sc.lookup(v) {
                            None => Some((st4, sc, Err(PErr::UndefinedSymbol(v)))),
                            Some(isym) => Some((st4, sc, Ok(node(Info::Ident(sym), leaf(Info::Ident(isym)), TreeV::Nil)))),
                        },
                    },
                }
            } else {
                Some((st3, sc, Err(PErr::UnexpectedToken(c3))))
            },
        },
    }
}

/// A factor: a number, an identifier with its selector, or an expression in
/// parentheses.
pub open spec fn p_factor(st: ScannerState, sc: ScopeV) -> Outcome
    decreases rem(st), flag(st), 1int,
{
    match cur(st) {
        None => Some((st, sc, Err(PErr::PrematureEof))),
        Some(c) => match c.token {
            Tok::Int(v) => match spec_scan_next(st) {
                None => None,
                Some((st1, Err(e))) => Some((st1, sc, Err(e))),
                Some((st1, Ok(_))) => Some((st1, sc, Ok(leaf(Info::Constant(v))))),
            },
            Tok::Ident(id) => p_ident_with_selector(st, sc, id),
            Tok::Lparen => match spec_scan_next(st) {
                None => None,
                Some((st1, Err(e))) => Some((st1, sc, Err(e))),
                Some((st1, Ok(_))) => if lex_lt(st1, st) {
                    match p_expression(st1, sc) {
                        None => None,
                        Some((st2, sc2, e)) => match cur(st2) {
                            None => Some((st2, sc2, Err(PErr::PrematureEof))),
                            Some(c2) => if c2.token is Rparen {
                                match spec_scan_next(st2) {
                                    None => None,
                                    Some((st3, Err(err))) => Some((st3, sc2, Err(err))),
                                    Some((st3, Ok(_))) => Some((st3, sc2, e)),
                                }
                            } else {
                                Some((st2, sc2, Err(PErr::UnexpectedToken(c2))))
                            },
                        },
                    }
                } else {
                    None
                },
            },
            _ => Some((st, sc, Err(PErr::UnexpectedToken(c)))),
        },
    }
}

pub open spec fn term_op(t: Tok) -> Option<TermOp> {
    match t {
        Tok::Times => Some(TermOp::Times),
        Tok::Div => Some(TermOp::Div),
        _ => None,
    }
}

pub open spec fn simple_op(t: Tok) -> Option<SimpleExpressionOp> {
    match t {
        Tok::Plus => Some(SimpleExpressionOp::Plus),
        Tok::Minus => Some(SimpleExpressionOp::Minus),
        _ => None,
    }
}

pub open spec fn expression_op(t: Tok) -> Option<ExpressionOp> {
    match t {
        Tok::Eql => Some(ExpressionOp::Eql),
        Tok::Neq => Some(ExpressionOp::Neq),
        Tok::Lss => Some(ExpressionOp::Lss),
        Tok::Leq => Some(ExpressionOp::Leq),
        Tok::Gtr => Some(ExpressionOp::Gtr),
        Tok::Geq => Some(ExpressionOp::Geq),
        _ => None,
    }
}

/// The factors that follow a term's first factor, joined from the left.
pub open spec fn p_term_rest(st: ScannerState, sc: ScopeV, tree: TreeV) -> Outcome
    decreases rem(st), flag(st), 2int,
{
    match cur(st) {
        None => Some((st, sc, Ok(tree))),
        Some(c) => match term_op(c.token) {
            None => Some((st, sc, Ok(tree))),
            Some(op) => match spec_scan_next(st) {
                None => None,
                Some((st1, Err(e))) => Some((st1, sc, Err(e))),
                Some((st1, Ok(_))) => if lex_lt(st1, st) {
                    match p_factor(st1, sc) {
                        None => None,
                        Some((st2, sc2, Err(e))) => Some((st2, sc2, Err(e))),
                        Some((st2, sc2, Ok(f))) => if lex_lt(st2, st) {
                            p_term_rest(st2, sc2, node(Info::Term(op), tree, f))
                        } else {
                            None
                        },
                    }
                } else {
                    None
                },
            },
        },
    }
}

/// A term: factors joined by `*` and `/`.
pub open spec fn p_term(st: ScannerState, sc: ScopeV) -> Outcome
    decreases rem(st), flag(st), 3int,
{
    match p_factor(st, sc) {
        None => None,
        Some((st1, sc1, Err(e))) => Some((st1, sc1, Err(e))),
        Some((st1, sc1, Ok(f))) => if lex_le(st1, st) {
            p_term_rest(st1, sc1, f)
        } else {
            None
        },
    }
}

/// The terms that follow a simple expression's first term.
pub open spec fn p_simple_rest(st: ScannerState, sc: ScopeV, tree: TreeV) -> Outcome
    decreases rem(st), flag(st), 4int,
{
    match cur(st) {
        None => Some((st, sc, Ok(tree))),
        Some(c) => match simple_op(c.token) {
            None => Some((st, sc, Ok(tree))),
            Some(op) => match spec_scan_next(st) {
                None => None,
                Some((st1, Err(e))) => Some((st1, sc, Err(e))),
                Some((st1, Ok(_))) => if lex_lt(st1, st) {
                    match p_term(st1, sc) {
                        None => None,
                        Some((st2, sc2, Err(e))) => Some((st2, sc2, Err(e))),
                        Some((st2, sc2, Ok(t))) => if lex_lt(st2, st) {
                            p_simple_rest(st2, sc2, node(Info::SimpleExpression(op), tree, t))
                        } else {
                            None
                        },
                    }
                } else {
                    None
                },
            },
        },
    }
}

/// A simple expression: terms joined by `+` and `-`.
pub open spec fn p_simple_expression(st: ScannerState, sc: ScopeV) -> Outcome
    decreases rem(st), flag(st), 5int,
{
    match p_term(st, sc) {
        None => None,
        Some((st1, sc1, Err(e))) => Some((st1, sc1, Err(e))),
        Some((st1, sc1, Ok(t))) => if lex_le(st1, st) {
            p_simple_rest(st1, sc1, t)
        } else {
            None
        },
    }
}

/// The relation `op` between `first` and the simple expression after the
/// operator, which is the current token.
pub open spec fn p_expression_relation(st: ScannerState, sc: ScopeV, first: TreeV, op: ExpressionOp) -> Outcome
    decreases rem(st), flag(st), 6int,
{
    match spec_scan_next(st) {
        None => None,
        Some((st2, Err(e))) => Some((st2, sc, Err(e))),
        Some((st2, Ok(_))) => if lex_le(st2, st) {
            match p_simple_expression(st2, sc) {
                None => None,
                Some((st3, sc3, Err(e))) => Some((st3, sc3, Err(e))),
                Some((st3, sc3, Ok(second))) => Some((st3, sc3, Ok(node(Info::Expression(op), first, second)))),
            }
        } else {
            None
        },
    }
}

/// An expression: a simple expression, compared with a second one.
pub open spec fn p_expression(st: ScannerState, sc: ScopeV) -> Outcome
    decreases rem(st), flag(st), 7int,
{
    match p_simple_expression(st, sc) {
        None => None,
        Some((st1, sc1, Err(e))) => Some((st1, sc1, Err(e))),
        Some((st1, sc1, Ok(first))) => match cur(st1) {
            None => Some((st1, sc1, Ok(first))),
            Some(c) => match expression_op(c.token) {
                None => Some((st1, sc1, Ok(first))),
                Some(op) => if lex_le(st1, st) {
                    p_expression_relation(st1, sc1, first, op)
                } else {
                    None
                },
            },
        },
    }
}

/// An assignment to `subject`: the expression assigned.
pub open spec fn p_assignment(subject: TreeV, st: ScannerState, sc: ScopeV) -> Outcome
    decreases rem(st), flag(st), 8int,
{
    match p_expression(st, sc) {
        None => None,
        Some((st1, sc1, Err(e))) => Some((st1, sc1, Err(e))),
        Some((st1, sc1, Ok(o))) => Some((st1, sc1, Ok(node(Info::Assignement, subject, o)))),
    }
}

/// A statement: an assignment, an IF or a WHILE.
pub open spec fn p_statement(st: ScannerState, sc: ScopeV) -> Outcome
    decreases rem(st), flag(st), 9int,
{
    match cur(st) {
        None => Some((st, sc, Err(PErr::PrematureEof))),
        Some(c) => match c.token {
            Tok::Ident(id) => match p_ident_with_selector(st, sc, id) {
                None => None,
                Some((st1, sc1, Err(e))) => Some((st1, sc1, Err(e))),
                Some((st1, sc1, Ok(subject))) => match cur(st1) {
                    None => Some((st1, sc1, Err(PErr::PrematureEof))),
                    Some(c1) => if c1.token is Becomes {
                        match spec_scan_next(st1) {
                            None => None,
                            Some((st2, Err(e))) => Some((st2, sc1, Err(e))),
                            Some((st2, Ok(_))) => if lex_le(st2, st) {
                                p_assignment(subject, st2, sc1)
                            } else {
                                None
                            },
                        }
                    } else {
                        Some((st1, sc1, Err(PErr::UnexpectedToken(c1))))
                    },
                },
            },
            Tok::If => match spec_scan_next(st) {
                None => None,
                Some((st1, Err(e))) => Some((st1, sc, Err(e))),
                Some((st1, Ok(_))) => if lex_le(st1, st) {
                    p_if_statement(st1, sc)
                } else {
                    None
                },
            },
            Tok::While => match spec_scan_next(st) {
                None => None,
                Some((st1, Err(e))) => Some((st1, sc, Err(e))),
                Some((st1, Ok(_))) => if lex_le(st1, st) {
                    p_while_statement(st1, sc)
                } else {
                    None
                },
            },
            _ => Some((st, sc, Err(PErr::UnexpectedToken(c)))),
        },
    }
}

/// The end of an IF, at its `END`: the statement built of its parts.
pub open spec fn p_if_end(st: ScannerState, sc: ScopeV, test: TreeV, then_seq: TreeV, else_seq: TreeV) -> Outcome {
    match cur(st) {
        None => Some((st, sc, Err(PErr::PrematureEof))),
        Some(c) => if c.token is End {
            match spec_scan_next(st) {
                None => None,
                Some((st1, Err(e))) => Some((st1, sc, Err(e))),
                Some((st1, Ok(_))) => Some(
                    (st1, sc, Ok(node(Info::IfStatement, test, node(Info::Then, then_seq, else_seq)))),
                ),
            }
        } else {
            Some((st, sc, Err(PErr::UnexpectedToken(c))))
        },
    }
}

/// IF test THEN statements [ELSE statements] END, after the IF.
pub open spec fn p_if_statement(st: ScannerState, sc: ScopeV) -> Outcome
    decreases rem(st), flag(st), 8int,
{
    match p_expression(st, sc) {
        None => None,
        Some((st1, sc1, Err(e))) => Some((st1, sc1, Err(e))),
        Some((st1, sc1, Ok(test))) => match cur(st1) {
            None => Some((st1, sc1, Err(PErr::PrematureEof))),
            Some(c) => if c.token is Then {
                match spec_scan_next(st1) {
                    None => None,
                    Some((st2, Err(e))) => Some((st2, sc1, Err(e))),
                    Some((st2, Ok(_))) => if lex_lt(st2, st) {
                        match p_statement_sequence(st2, sc1) {
                            None => None,
                            Some((st3, sc3, Err(e))) => Some((st3, sc3, Err(e))),
                            Some((st3, sc3, Ok(then_seq))) => match cur(st3) {
                                None => Some((st3, sc3, Err(PErr::PrematureEof))),
                                Some(c3) => if c3.token is Else {
                                    match spec_scan_next(st3) {
                                        None => None,
                                        Some((st4, Err(e))) => Some((st4, sc3, Err(e))),
                                        Some((st4, Ok(_))) => if lex_lt(st4, st) {
                                            match p_statement_sequence(st4, sc3) {
                                                None => None,
                                                Some((st5, sc5, Err(e))) => Some((st5, sc5, Err(e))),
                                                Some((st5, sc5, Ok(else_seq))) => p_if_end(
                                                    st5,
                                                    sc5,
                                                    test,
                                                    then_seq,
                                                    node(Info::Else, else_seq, TreeV::Nil),
                                                ),
                                            }
                                        } else {
                                            None
                                        },
                                    }
                                } else {
                                    p_if_end(st3, sc3, test, then_seq, TreeV::Nil)
                                },
                            },
                        }
                    } else {
                        None
                    },
                }
            } else {
                Some((st1, sc1, Err(PErr::UnexpectedToken(c))))
            },
        },
    }
}

/// WHILE test DO statements END, after the WHILE.
pub open spec fn p_while_statement(st: ScannerState, sc: ScopeV) -> Outcome
    decreases rem(st), flag(st), 8int,
{
    match p_expression(st, sc) {
        None => None,
        Some((st1, sc1, Err(e))) => Some((st1, sc1, Err(e))),
        Some((st1, sc1, Ok(test))) => match cur(st1) {
            None => Some((st1, sc1, Err(PErr::PrematureEof))),
            Some(c) => if c.token is Do {
                match spec_scan_next(st1) {
                    None => None,
                    Some((st2, Err(e))) => Some((st2, sc1, Err(e))),
                    Some((st2, Ok(_))) => if lex_lt(st2, st) {
                        match p_statement_sequence(st2, sc1) {
                            None => None,
                            Some((st3, sc3, Err(e))) => Some((st3, sc3, Err(e))),
                            Some((st3, sc3, Ok(body))) => match cur(st3) {
                                None => Some((st3, sc3, Err(PErr::PrematureEof))),
                                Some(c3) => if c3.token is End {
                                    match spec_scan_next(st3) {
                                        None => None,
                                        Some((st4, Err(e))) => Some((st4, sc3, Err(e))),
                                        Some((st4, Ok(_))) => Some(
                                            (
                                                st4,
                                                sc3,
                                                Ok(node(Info::WhileStatement, test, node(Info::Do, body, TreeV::Nil))),
                                            ),
                                        ),
                                    }
                                } else {
                                    Some((st3, sc3, Err(PErr::UnexpectedToken(c3))))
                                },
                            },
                        }
                    } else {
                        None
                    },
                }
            } else {
                Some((st1, sc1, Err(PErr::UnexpectedToken(c))))
            },
        },
    }
}

/// Statements separated by `;`.
pub open spec fn p_statement_sequence(st: ScannerState, sc: ScopeV) -> Outcome
    decreases rem(st), flag(st), 10int,
{
    match p_statement(st, sc) {
        None => None,
        Some((st1, sc1, Err(e))) => Some((st1, sc1, Err(e))),
        Some((st1, sc1, Ok(first))) => match cur(st1) {
            Some(c) => if c.token is Semicolon {
                match spec_scan_next(st1) {
                    None => None,
                    Some((st2, Err(e))) => Some((st2, sc1, Err(e))),
                    Some((st2, Ok(_))) => if lex_lt(st2, st) {
                        match p_statement_sequence(st2, sc1) {
                            None => None,
                            Some((st3, sc3, Err(e))) => Some((st3, sc3, Err(e))),
                            Some((st3, sc3, Ok(next))) => Some(
                                (st3, sc3, Ok(node(Info::StatementSequence, first, next))),
                            ),
                        }
                    } else {
                        None
                    },
                }
            } else {
                Some((st1, sc1, Ok(node(Info::StatementSequence, first, TreeV::Nil))))
            },
            None => Some((st1, sc1, Ok(node(Info::StatementSequence, first, TreeV::Nil)))),
        },
    }
}

/// BEGIN statements, or nothing.
pub open spec fn p_begin_end(st: ScannerState, sc: ScopeV) -> Outcome {
    match cur(st) {
        None => Some((st, sc, Err(PErr::PrematureEof))),
        Some(c) => if c.token is Begin {
            match spec_scan_next(st) {
                None => None,
                Some((st1, Err(e))) => Some((st1, sc, Err(e))),
                Some((st1, Ok(_))) => p_statement_sequence(st1, sc),
            }
        } else {
            Some((st, sc, Ok(TreeV::Nil)))
        },
    }
}

/// What follows the variables of a declaration section.
#[derive(Debug, Copy, Clone, PartialEq, Eq, Structural)]
pub enum Continuation {
    /// The body of a module: BEGIN statements, or nothing.
    BeginEnd,
    /// Nothing: parsing stops after the declarations.
    Finish,
}

/// The identifiers of a list `a, b, c`, with their places, after `acc`.
pub open spec fn p_ident_list(st: ScannerState, acc: Seq<(Seq<char>, ScanContext)>) -> Option<
    (ScannerState, Result<Seq<(Seq<char>, ScanContext)>, PErr>),
>
    decreases rem(st), flag(st),
{
    match cur(st) {
        None => Some((st, Err(PErr::PrematureEof))),
        Some(c) => match c.token {
            Tok::Ident(id) => {
                let acc1 = acc.push((id, c.context));
                match spec_scan_next(st) {
                    None => None,
                    Some((st1, Err(e))) => Some((st1, Err(e))),
                    Some((st1, Ok(_))) => match cur(st1) {
                        None => Some((st1, Err(PErr::PrematureEof))),
                        Some(c1) => if c1.token is Comma {
                            match spec_scan_next(st1) {
                                None => None,
                                Some((st2, Err(e))) => Some((st2, Err(e))),
                                Some((st2, Ok(_))) => if lex_lt(st2, st) {
                                    p_ident_list(st2, acc1)
                                } else {
                                    None
                                },
                            }
                        } else {
                            Some((st1, Ok(acc1)))
                        },
                    },
                }
            },
            _ => Some((st, Ok(acc))),
        },
    }
}

/// Declares `ident` with `size` words, unless it is already declared.
pub open spec fn p_add_symbol(sc: ScopeV, ident: Seq<char>, size: u32, ctx: ScanContext) -> Option<
    (ScopeV, Result<SymbolV, PErr>),
> {
    match sc.lookup(ident) {
        None => if sc.can_add(size as usize) {
            let sc1 = sc.add(ident, size as usize);
            Some(
                (
                    sc1,
                    match sc1.lookup(ident) {
                        Some(s) => Ok(s),
                        None => Err(PErr::UndefinedSymbol(ident)),
                    },
                ),
            )
        } else {
            None
        },
        Some(_) => Some((sc, Err(PErr::SymbolAlreadyDeclared(ident, ctx)))),
    }
}

/// Declares each identifier in turn, stopping at the first error.
pub open spec fn p_add_all(sc: ScopeV, idents: Seq<(Seq<char>, ScanContext)>, size: u32) -> Option<
    (ScopeV, Result<(), PErr>),
>
    decreases idents.len(),
{
    if idents.len() == 0 {
        Some((sc, Ok(())))
    } else {
        match p_add_symbol(sc, idents[0].0, size, idents[0].1) {
            None => None,
            Some((sc1, Err(e))) => Some((sc1, Err(e))),
            Some((sc1, Ok(_))) => p_add_all(sc1, idents.drop_first(), size),
        }
    }
}

/// The declaration nodes of the identifiers, of type `t`, chained before
/// `final_sibling`.
pub open spec fn p_var_declarations(
    idents: Seq<(Seq<char>, ScanContext)>,
    sc: ScopeV,
    t: VarType,
    final_sibling: TreeV,
) -> Result<TreeV, PErr>
    decreases idents.len(),
{
    if idents.len() == 0 {
        Ok(final_sibling)
    } else {
        match sc.lookup(idents[0].0) {
            None => Err(PErr::UndefinedSymbol(idents[0].0)),
            Some(sym) => match p_var_declarations(idents.drop_first(), sc, t, final_sibling) {
                Err(e) => Err(e),
                Ok(rest) => Ok(
                    node(
                        Info::Declaration,
                        node(Info::Var, leaf(Info::Ident(sym)), leaf(Info::Type(t))),
                        rest,
                    ),
                ),
            },
        }
    }
}

/// Declares the identifiers with `size` words, parses the declarations
/// that follow, and chains them after these.
pub open spec fn p_declare(
    st0: ScannerState,
    st: ScannerState,
    sc: ScopeV,
    idents: Seq<(Seq<char>, ScanContext)>,
    size: u32,
    t: VarType,
) -> Outcome
    decreases rem(st0), flag(st0), 0int,
{
    match p_add_all(sc, idents, size) {
        None => None,
        Some((sc1, Err(e))) => Some((st, sc1, Err(e))),
        Some((sc1, Ok(_))) => if lex_lt(st, st0) {
            match p_recur_declaration(st, sc1) {
                None => None,
                Some((st2, sc2, Err(e))) => Some((st2, sc2, Err(e))),
                Some((st2, sc2, Ok(sibling))) => Some((st2, sc2, p_var_declarations(idents, sc2, t, sibling))),
            }
        } else {
            None
        },
    }
}

/// The type INTEGER then `;`, with `current` the token that should name the
/// type.
pub open spec fn p_integer_decl(
    st0: ScannerState,
    st: ScannerState,
    sc: ScopeV,
    idents: Seq<(Seq<char>, ScanContext)>,
    current: ScanV,
) -> Outcome
    decreases rem(st0), flag(st0), 1int,
{
    match current.token {
        Tok::Ident(tid) => if tid != "INTEGER"@ {
            Some((st, sc, Err(PErr::UndefinedSymbol(tid))))
        } else {
            match spec_scan_next(st) {
                None => None,
                Some((st1, Err(e))) => Some((st1, sc, Err(e))),
                Some((st1, Ok(_))) => match cur(st1) {
                    None => Some((st1, sc, Err(PErr::PrematureEof))),
                    Some(c1) => if c1.token is Semicolon {
                        match spec_scan_next(st1) {
                            None => None,
                            Some((st2, Err(e))) => Some((st2, sc, Err(e))),
                            Some((st2, Ok(_))) => p_declare(st0, st2, sc, idents, 1, VarType::Integer),
                        }
                    } else {
                        Some((st1, sc, Err(PErr::UnexpectedToken(c1))))
                    },
                },
            }
        },
        _ => Some((st, sc, Err(PErr::UnexpectedToken(current)))),
    }
}

/// ARRAY n OF INTEGER then `;`, after the ARRAY. Where the declaration is
/// not of this form, the token after ARRAY is taken to name the type.
pub open spec fn p_array_decl(
    st0: ScannerState,
    st: ScannerState,
    sc: ScopeV,
    idents: Seq<(Seq<char>, ScanContext)>,
) -> Outcome
    decreases rem(st0), flag(st0), 2int,
{
    match spec_scan_next(st) {
        None => None,
        Some((st3, Err(e))) => Some((st3, sc, Err(e))),
        Some((st3, Ok(_))) => match cur(st3) {
            None => Some((st3, sc, Err(PErr::PrematureEof))),
            Some(c3) => match c3.token {
                Tok::Int(cap) => match spec_scan_next(st3) {
                    None => None,
                    Some((st4, Err(e))) => Some((st4, sc, Err(e))),
                    Some((st4, Ok(_))) => match cur(st4) {
                        None => Some((st4, sc, Err(PErr::PrematureEof))),
                        Some(c4) => if c4.token is Of {
                            match spec_scan_next(st4) {
                                None => None,
                                Some((st5, Err(e))) => Some((st5, sc, Err(e))),
                                Some((st5, Ok(_))) => match cur(st5) {
                                    None => Some((st5, sc, Err(PErr::PrematureEof))),
                                    Some(c5) => match c5.token {
                                        Tok::Ident(tid) => if tid != "INTEGER"@ {
                                            Some((st5, sc, Err(PErr::UndefinedSymbol(tid))))
                                        } else {
                                            match spec_scan_next(st5) {
                                                None => None,
                                                Some((st6, Err(e))) => Some((st6, sc, Err(e))),
                                                Some((st6, Ok(_))) => match cur(st6) {
                                                    None => Some((st6, sc, Err(PErr::PrematureEof))),
                                                    Some(c6) => if c6.token is Semicolon {
                                                        match spec_scan_next(st6) {
                                                            None => None,
                                                            Some((st7, Err(e))) => Some((st7, sc, Err(e))),
                                                            Some((st7, Ok(_))) => p_declare(st0, st7, sc, idents, cap, VarType::Array(cap)),
                                                        }
                                                    } else {
                                                        p_integer_decl(st0, st6, sc, idents, c3)
                                                    },
                                                },
                                            }
                                        },
                                        _ => p_integer_decl(st0, st5, sc, idents, c3),
                                    },
                                },
                            }
                        } else {
                            p_integer_decl(st0, st4, sc, idents, c3)
                        },
                    },
                },
                _ => p_integer_decl(st0, st3, sc, idents, c3),
            },
        },
    }
}

/// Variable declarations `a, b: type;`, one after the other, until a token
/// that starts no identifier list.
pub open spec fn p_recur_declaration(st: ScannerState, sc: ScopeV) -> Outcome
    decreases rem(st), flag(st), 3int,
{
    match cur(st) {
        None => Some((st, sc, Ok(TreeV::Nil))),
        Some(_) => match p_ident_list(st, seq![]) {
            None => None,
            Some((st1, Err(e))) => Some((st1, sc, Err(e))),
            Some((st1, Ok(idents))) => if idents.len() == 0 {
                Some((st1, sc, Ok(TreeV::Nil)))
            } else {
                match cur(st1) {
                    None => Some((st1, sc, Err(PErr::PrematureEof))),
                    Some(c1) => if c1.token is Colon {
                        match spec_scan_next(st1) {
                            None => None,
                            Some((st2, Err(e))) => Some((st2, sc, Err(e))),
                            Some((st2, Ok(_))) => match cur(st2) {
                                None => Some((st2, sc, Err(PErr::PrematureEof))),
                                Some(c2) => if c2.token is Array {
                                    p_array_decl(st, st2, sc, idents)
                                } else {
                                    p_integer_decl(st, st2, sc, idents, c2)
                                },
                            },
                        }
                    } else {
                        Some((st1, sc, Err(PErr::UnexpectedToken(c1))))
                    },
                }
            },
        },
    }
}

/// The variable declarations, then what follows them.
pub open spec fn p_var_declarations_then(st: ScannerState, sc: ScopeV, k: Continuation) -> Outcome {
    match p_recur_declaration(st, sc) {
        None => None,
        Some((st1, sc1, Err(e))) => Some((st1, sc1, Err(e))),
        Some((st1, sc1, Ok(d))) => match k {
            Continuation::BeginEnd => match p_begin_end(st1, sc1) {
                None => None,
                Some((st2, sc2, Err(e))) => Some((st2, sc2, Err(e))),
                Some((st2, sc2, Ok(t))) => Some((st2, sc2, Ok(node(Info::Declarations, d, t)))),
            },
            Continuation::Finish => Some((st1, sc1, Ok(node(Info::Declarations, d, TreeV::Nil)))),
        },
    }
}

/// A declaration section: VAR and its declarations, or nothing.
pub open spec fn p_declarations(st: ScannerState, sc: ScopeV, k: Continuation) -> Outcome {
    match cur(st) {
        Some(c) => if c.token is Var {
            match spec_scan_next(st) {
                None => None,
                Some((st1, Err(e))) => Some((st1, sc, Err(e))),
                Some((st1, Ok(_))) => p_var_declarations_then(st1, sc, k),
            }
        } else {
            Some((st, sc, Ok(node(Info::Declarations, TreeV::Nil, TreeV::Nil))))
        },
        None => Some((st, sc, Ok(node(Info::Declarations, TreeV::Nil, TreeV::Nil)))),
    }
}

/// `END name .` closing a module named `mid`, and nothing after it.
pub open spec fn p_module_end(st: ScannerState, sc: ScopeV, mid: Seq<char>, child: TreeV, sibling: TreeV) -> Outcome {
    match cur(st) {
        None => Some((st, sc, Err(PErr::PrematureEof))),
        Some(c3) => if c3.token is End {
            match spec_scan_next(st) {
                None => None,
                Some((st5, Err(e))) => Some((st5, sc, Err(e))),
                Some((st5, Ok(_))) => match cur(st5) {
                    None => Some((st5, sc, Err(PErr::PrematureEof))),
                    Some(c4) => match c4.token {
                        Tok::Ident(eid) => if eid != mid {
                            Some((st5, sc, Err(PErr::UnexpectedBlockEnding { expected: mid, found: eid })))
                        } else {
                            match spec_scan_next(st5) {
                                None => None,
                                Some((st6, Err(e))) => Some((st6, sc, Err(e))),
                                Some((st6, Ok(_))) => match cur(st6) {
                                    None => Some((st6, sc, Err(PErr::PrematureEof))),
                                    Some(c5) => if c5.token is Period {
                                        match spec_scan_next(st6) {
                                            None => None,
                                            Some((st7, Err(e))) => Some((st7, sc, Err(e))),
                                            Some((st7, Ok(_))) => match cur(st7) {
                                                None => Some((st7, sc, Ok(node(Info::Module, child, sibling)))),
                                                Some(s) => Some((st7, sc, Err(PErr::UnexpectedToken(s)))),
                                            },
                                        }
                                    } else {
                                        Some((st6, sc, Err(PErr::UnexpectedToken(c5))))
                                    },
                                },
                            }
                        },
                        _ => Some((st5, sc, Err(PErr::UnexpectedToken(c4)))),
                    },
                },
            }
        } else {
            Some((st, sc, Err(PErr::UnexpectedToken(c3))))
        },
    }
}

/// MODULE name ; declarations [BEGIN statements] END name .
pub open spec fn p_module(st: ScannerState, sc: ScopeV) -> Outcome {
    match cur(st) {
        None => Some((st, sc, Err(PErr::PrematureEof))),
        Some(c) => if c.token is Module {
            match spec_scan_next(st) {
                None => None,
                Some((st1, Err(e))) => Some((st1, sc, Err(e))),
                Some((st1, Ok(_))) => match cur(st1) {
                    None => Some((st1, sc, Err(PErr::PrematureEof))),
                    Some(c1) => match c1.token {
                        Tok::Ident(mid) => match spec_scan_next(st1) {
                            None => None,
                            Some((st2, Err(e))) => Some((st2, sc, Err(e))),
                            Some((st2, Ok(_))) => match cur(st2) {
                                None => Some((st2, sc, Err(PErr::PrematureEof))),
                                Some(c2) => if c2.token is Semicolon {
                                    match p_add_symbol(sc, mid, 1, c2.context) {
                                        None => None,
                                        Some((sc1, Err(e))) => Some((st2, sc1, Err(e))),
                                        Some((sc1, Ok(_))) => match sc1.lookup(mid) {
                                            None => Some((st2, sc1, Err(PErr::UndefinedSymbol(mid)))),
                                            Some(sym) => match spec_scan_next(st2) {
                                                None => None,
                                                Some((st3, Err(e))) => Some((st3, sc1, Err(e))),
                                                Some((st3, Ok(_))) => match p_declarations(st3, sc1, Continuation::BeginEnd) {
                                                    None => None,
                                                    Some((st4, sc4, Err(e))) => Some((st4, sc4, Err(e))),
                                                    Some((st4, sc4, Ok(sibling))) => p_module_end(
                                                        st4,
                                                        sc4,
                                                        mid,
                                                        leaf(Info::Ident(sym)),
                                                        sibling,
                                                    ),
                                                },
                                            },
                                        },
                                    }
                                } else {
                                    Some((st2, sc, Err(PErr::UnexpectedToken(c2))))
                                },
                            },
                        },
                        _ => Some((st1, sc, Err(PErr::UnexpectedToken(c1)))),
                    },
                },
            }
        } else {
            Some((st, sc, Err(PErr::UnexpectedToken(c))))
        },
    }
}

} // verus!
