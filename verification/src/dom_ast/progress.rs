//! The parser always moves on: each scan leaves less text, or stands on a
//! token that is no token. So the measures that the grammar's functions
//! check before they recurse always decrease, and parsing reaches a result
//! unless a number in the text does not fit in 32 bits or the scope runs
//! out of addresses. Expressions and statements leave the scope as it was;
//! declarations only add to it.

use vstd::prelude::*;

use crate::dom_ast::grammar::{
    Continuation, PErr, p_add_all, p_add_symbol, p_array_decl, p_declarations, p_declare, p_ident_list,
    p_integer_decl, p_module, p_module_end, p_recur_declaration, p_var_declarations_then,
    cur, expression_op, flag, leaf, lex_le, lex_lt, node, p_assignment, p_begin_end, p_close_bracket, p_expression,
    p_expression_relation, p_factor, p_ident_with_selector, p_if_end, p_if_statement, p_simple_expression,
    p_simple_rest, p_statement, p_statement_sequence, p_term, p_term_rest, p_while_statement, rem,
    rest_len, simple_op, spec_scan_next, term_op, Outcome,
};
use crate::dom_ast::scope::{lemma_add_keeps_layout, lemma_lookup_after_add, ScopeV, SymbolV};
use crate::dom_ast::token::{ScanContext, ScanError, ScanV};
use crate::dom_ast::tree::{ExpressionOp, Info, TreeV, VarType};
use crate::dom_ast::line_scanner::{
    alpha_run, is_alpha, is_ascii, keyword, lemma_alpha_run, lemma_empty_word, ls_next,
    ls_skip_comment, lower, single_token, word_token, LineState,
};
use crate::dom_ast::scanner::{line_start, s_next, scanner_start, ScannerState};
use crate::dom_ast::token::Tok;
use crate::text::{digit_run, digits_value, is_digit, lemma_digit_run, lemma_run_until_bound, lines, run_until, strip_cr};

verus! {

/// Every run of digits from index `from` on writes a number that fits in
/// 32 bits.
pub open spec fn numbers_fit(text: Seq<char>, from: int) -> bool {
    forall|p: int|
        from <= p < text.len() && #[trigger] is_digit(text[p]) ==> digits_value(
            text.subrange(p, p + digit_run(text, p)),
        ) <= u32::MAX
}

/// A scanner state that stands within its text, in which every number
/// left to read fits in 32 bits.
pub open spec fn scanner_ok(st: ScannerState) -> bool {
    &&& 0 <= st.line.pos <= st.line.text.len()
    &&& 0 <= st.next_line <= st.lines.len()
    &&& numbers_fit(st.line.text, st.line.pos)
    &&& forall|j: int| st.next_line <= j < st.lines.len() ==> #[trigger] numbers_fit(st.lines[j], 0)
}

/// Every run of digits from index `from` on writes a number of at most
/// `cap`.
pub open spec fn numbers_below(text: Seq<char>, from: int, cap: int) -> bool {
    forall|p: int|
        from <= p < text.len() && #[trigger] is_digit(text[p]) ==> digits_value(
            text.subrange(p, p + digit_run(text, p)),
        ) <= cap
}

/// Every number left to read is at most `cap`.
pub open spec fn scanner_below(st: ScannerState, cap: int) -> bool {
    &&& numbers_below(st.line.text, st.line.pos, cap)
    &&& forall|j: int| st.next_line <= j < st.lines.len() ==> #[trigger] numbers_below(st.lines[j], 0, cap)
}

/// What a scan of a line does: it does not move back, ends at the end of
/// the line where it finds nothing, and moves on unless it reads an empty
/// word.
pub open spec fn line_step(st: LineState, l1: LineState, r: Option<Result<ScanV, ScanError>>) -> bool {
    &&& l1.text == st.text
    &&& st.pos <= l1.pos <= l1.text.len()
    &&& r is None ==> l1.current is None && l1.pos == l1.text.len()
    &&& r matches Some(Ok(s)) ==> l1.current == Some(s) && (l1.pos > st.pos || s.token == Tok::Ident(
        Seq::empty(),
    ))
    &&& r matches Some(Ok(s)) ==> (s.token is Int ==> (forall|cap: int| #[trigger] numbers_below(
        st.text,
        st.pos,
        cap,
    ) ==> s.token->Int_0 <= cap))
}

proof fn lemma_ls_next(st: LineState)
    requires
        0 <= st.pos <= st.text.len(),
        numbers_fit(st.text, st.pos),
    ensures
        ls_next(st) matches Some((l1, r)) && line_step(st, l1, r),
    decreases st.text.len() - st.pos,
{
    if st.pos < st.text.len() {
        let c = st.text[st.pos];
        if c == ' ' || c == '\t' {
            lemma_ls_next(st.forward());
            assert forall|cap: int| #[trigger] numbers_below(st.text, st.pos, cap) implies numbers_below(
                st.text,
                st.pos + 1,
                cap,
            ) by {}
        } else if c == '\n' || !is_ascii(c) {
        } else if is_digit(c) {
            lemma_digit_run(st.text, st.pos);
            assert forall|cap: int| #[trigger] numbers_below(st.text, st.pos, cap) implies digits_value(
                st.text.subrange(st.pos, st.pos + digit_run(st.text, st.pos)),
            ) <= cap by {
                assert(is_digit(st.text[st.pos]));
            }
        } else if c == ':' || c == '>' || c == '<' {
        } else if c == '(' {
            let st1 = st.forward();
            if st1.pos < st1.text.len() && st1.text[st1.pos] == '*' {
                lemma_ls_skip_comment(st1, st.pos);
                assert forall|cap: int| #[trigger] numbers_below(st.text, st.pos, cap) implies numbers_below(
                    st.text,
                    st.pos + 1,
                    cap,
                ) by {}
            }
        } else if single_token(c) is Some {
        } else {
            lemma_alpha_run(st.text, st.pos);
            if alpha_run(st.text, st.pos) == 0 {
                assert(st.text.subrange(st.pos, st.pos) =~= Seq::<char>::empty());
                lemma_empty_word();
            }
        }
    }
}

proof fn lemma_ls_skip_comment(st: LineState, at: int)
    requires
        0 <= st.pos <= st.text.len(),
        numbers_fit(st.text, st.pos),
        at < st.pos,
    ensures
        ls_skip_comment(st, at) matches Some((l1, r)) && line_step(st, l1, r) && (r matches Some(Ok(_))
            ==> l1.pos > st.pos),
    decreases st.text.len() - st.pos,
{
    if st.pos < st.text.len() {
        assert forall|cap: int| #[trigger] numbers_below(st.text, st.pos, cap) implies numbers_below(
            st.text,
            st.pos + 1,
            cap,
        ) && numbers_below(st.text, st.pos + 2, cap) by {}
        if st.text[st.pos] == '*' {
            let st1 = st.forward();
            if st1.pos < st1.text.len() && st1.text[st1.pos] == ')' {
                lemma_ls_next(st1.forward());
            } else {
                lemma_ls_skip_comment(st1.forward(), at);
            }
        } else {
            lemma_ls_skip_comment(st.forward(), at);
        }
    }
}

proof fn lemma_rest_len_step(lines: Seq<Seq<char>>, j: int)
    requires
        0 <= j < lines.len(),
    ensures
        rest_len(lines, j) == lines[j].len() + 1 + rest_len(lines, j + 1),
{
}

/// What a scan of the text does: the state stays fit to scan, less text is
/// left, or as much and the scan read an empty word or reached the end.
pub open spec fn scan_step(st: ScannerState, st1: ScannerState, r: Option<Result<ScanV, ScanError>>) -> bool {
    &&& scanner_ok(st1)
    &&& rem(st1) <= rem(st)
    &&& r matches Some(Ok(s)) ==> st1.line.current == Some(s)
    &&& r is None ==> st1.line.current is None
    &&& !(r matches Some(Err(_))) && rem(st1) == rem(st) ==> flag(st1) == 0
    &&& forall|cap: int| #[trigger] scanner_below(st, cap) ==> scanner_below(st1, cap)
    &&& r matches Some(Ok(s)) ==> (s.token is Int ==> (forall|cap: int| #[trigger] scanner_below(st, cap)
        ==> s.token->Int_0 <= cap))
}

proof fn lemma_s_next(st: ScannerState)
    requires
        scanner_ok(st),
    ensures
        s_next(st) matches Some((st1, r)) && scan_step(st, st1, r),
    decreases st.lines.len() - st.next_line,
{
    lemma_ls_next(st.line);
    let (l1, r) = ls_next(st.line)->0;
    match r {
        Some(x) => {
            let st1 = ScannerState { line: l1, ..st };
            assert(l1.text == st.line.text);
            if x is Ok && rem(st1) == rem(st) {
                assert(l1.pos == st.line.pos);
            }
            assert forall|cap: int| #[trigger] scanner_below(st, cap) implies scanner_below(st1, cap) by {
                assert(numbers_below(st.line.text, st.line.pos, cap));
            }
        },
        None => {
            if 0 <= st.next_line < st.lines.len() {
                let n = (st.line_number + 1) as u32;
                let st2 = ScannerState {
                    lines: st.lines,
                    next_line: st.next_line + 1,
                    line_number: n,
                    line: line_start(n, st.lines[st.next_line]),
                };
                lemma_rest_len_step(st.lines, st.next_line);
                assert(numbers_fit(st.lines[st.next_line], 0));
                lemma_s_next(st2);
                assert forall|cap: int| #[trigger] scanner_below(st, cap) implies scanner_below(st2, cap) by {
                    assert(numbers_below(st.lines[st.next_line], 0, cap));
                }
            }
        },
    }
}

/// The scanner stays fit to scan; after a scan that goes through, it has
/// not moved back, it has moved on from a token that was read from the
/// text, and it stands on such a token only after it has moved on.
pub open spec fn scan_moves_on(st: ScannerState, st1: ScannerState, r: Result<(), PErr>) -> bool {
    &&& scanner_ok(st1)
    &&& r is Ok ==> lex_le(st1, st)
    &&& r is Ok && flag(st) == 1 ==> lex_lt(st1, st)
    &&& r is Ok && flag(st1) == 1 ==> rem(st1) < rem(st)
    &&& forall|cap: int| #[trigger] scanner_below(st, cap) ==> scanner_below(st1, cap)
    &&& r is Ok ==> (cur(st1) matches Some(c) ==> (c.token is Int ==> (forall|cap: int| #[trigger] scanner_below(
        st,
        cap,
    ) ==> c.token->Int_0 <= cap)))
}

/// A scan that goes through never moves the scanner back, and moves it on
/// from a token that was read from the text.
pub proof fn lemma_scan_next(st: ScannerState)
    requires
        scanner_ok(st),
    ensures
        spec_scan_next(st) matches Some((st1, r)) && scan_moves_on(st, st1, r),
{
    lemma_s_next(st);
}

/// Parsing reaches a result; the scanner stays fit to scan and the scope
/// is as it was; after success, the scanner has not moved back.
pub open spec fn steady(st: ScannerState, sc: ScopeV, o: Outcome) -> bool {
    match o {
        Some((st1, sc1, r)) => scanner_ok(st1) && sc1 == sc && (r is Ok ==> lex_le(st1, st)) && forall|
            cap: int,
        | #[trigger] scanner_below(st, cap) ==> scanner_below(st1, cap),
        None => false,
    }
}

proof fn lemma_close_bracket(st: ScannerState, sc: ScopeV, sym: SymbolV, index: TreeV, var: Option<Seq<char>>)
    requires
        scanner_ok(st),
    ensures
        steady(st, sc, p_close_bracket(st, sc, sym, index, var)),
{
    lemma_scan_next(st);
    let (st3, r3) = spec_scan_next(st)->0;
    if r3 is Ok && cur(st3) is Some {
        lemma_scan_next(st3);
    }
}

proof fn lemma_ident_with_selector(st: ScannerState, sc: ScopeV, ident: Seq<char>)
    requires
        scanner_ok(st),
    ensures
        steady(st, sc, p_ident_with_selector(st, sc, ident)),
{
    if sc.lookup(ident) is Some {
        lemma_scan_next(st);
        let (st1, r1) = spec_scan_next(st)->0;
        if r1 is Ok && cur(st1) is Some {
            lemma_scan_next(st1);
            let (st2, r2) = spec_scan_next(st1)->0;
            if r2 is Ok && cur(st2) is Some {
                let sym = sc.lookup(ident)->0;
                match cur(st2)->0.token {
                    Tok::Int(v) => lemma_close_bracket(st2, sc, sym, leaf(Info::Constant(v)), None),
                    Tok::Ident(x) => lemma_close_bracket(st2, sc, sym, TreeV::Nil, Some(x)),
                    _ => {},
                }
            }
        }
    }
}

proof fn lemma_factor(st: ScannerState, sc: ScopeV)
    requires
        scanner_ok(st),
    ensures
        steady(st, sc, p_factor(st, sc)),
    decreases rem(st), flag(st), 1int,
{
    if cur(st) is Some {
        let c = cur(st)->0;
        match c.token {
            Tok::Int(_) => lemma_scan_next(st),
            Tok::Ident(id) => lemma_ident_with_selector(st, sc, id),
            Tok::Lparen => {
                lemma_scan_next(st);
                let (st1, r1) = spec_scan_next(st)->0;
                if r1 is Ok {
                    lemma_expression(st1, sc);
                    let (st2, sc2, e) = p_expression(st1, sc)->0;
                    if cur(st2) is Some && cur(st2)->0.token is Rparen {
                        lemma_scan_next(st2);
                    }
                }
            },
            _ => {},
        }
    }
}

proof fn lemma_term_rest(st: ScannerState, sc: ScopeV, tree: TreeV)
    requires
        scanner_ok(st),
    ensures
        steady(st, sc, p_term_rest(st, sc, tree)),
    decreases rem(st), flag(st), 2int,
{
    if cur(st) is Some && term_op(cur(st)->0.token) is Some {
        let op = term_op(cur(st)->0.token)->0;
        lemma_scan_next(st);
        let (st1, r1) = spec_scan_next(st)->0;
        if r1 is Ok {
            lemma_factor(st1, sc);
            let (st2, sc2, f) = p_factor(st1, sc)->0;
            if f is Ok {
                lemma_term_rest(st2, sc, node(Info::Term(op), tree, f->Ok_0));
            }
        }
    }
}

proof fn lemma_term(st: ScannerState, sc: ScopeV)
    requires
        scanner_ok(st),
    ensures
        steady(st, sc, p_term(st, sc)),
    decreases rem(st), flag(st), 3int,
{
    lemma_factor(st, sc);
    let (st1, sc1, f) = p_factor(st, sc)->0;
    if f is Ok {
        lemma_term_rest(st1, sc, f->Ok_0);
    }
}

proof fn lemma_simple_rest(st: ScannerState, sc: ScopeV, tree: TreeV)
    requires
        scanner_ok(st),
    ensures
        steady(st, sc, p_simple_rest(st, sc, tree)),
    decreases rem(st), flag(st), 4int,
{
    if cur(st) is Some && simple_op(cur(st)->0.token) is Some {
        let op = simple_op(cur(st)->0.token)->0;
        lemma_scan_next(st);
        let (st1, r1) = spec_scan_next(st)->0;
        if r1 is Ok {
            lemma_term(st1, sc);
            let (st2, sc2, t) = p_term(st1, sc)->0;
            if t is Ok {
                lemma_simple_rest(st2, sc, node(Info::SimpleExpression(op), tree, t->Ok_0));
            }
        }
    }
}

proof fn lemma_simple_expression(st: ScannerState, sc: ScopeV)
    requires
        scanner_ok(st),
    ensures
        steady(st, sc, p_simple_expression(st, sc)),
    decreases rem(st), flag(st), 5int,
{
    lemma_term(st, sc);
    let (st1, sc1, t) = p_term(st, sc)->0;
    if t is Ok {
        lemma_simple_rest(st1, sc, t->Ok_0);
    }
}

proof fn lemma_expression_relation(st: ScannerState, sc: ScopeV, first: TreeV, op: ExpressionOp)
    requires
        scanner_ok(st),
    ensures
        steady(st, sc, p_expression_relation(st, sc, first, op)),
    decreases rem(st), flag(st), 6int,
{
    lemma_scan_next(st);
    let (st2, r2) = spec_scan_next(st)->0;
    if r2 is Ok {
        lemma_simple_expression(st2, sc);
    }
}

proof fn lemma_expression(st: ScannerState, sc: ScopeV)
    requires
        scanner_ok(st),
    ensures
        steady(st, sc, p_expression(st, sc)),
    decreases rem(st), flag(st), 7int,
{
    lemma_simple_expression(st, sc);
    let (st1, sc1, f) = p_simple_expression(st, sc)->0;
    if f is Ok && cur(st1) is Some && expression_op(cur(st1)->0.token) is Some {
        lemma_expression_relation(st1, sc, f->Ok_0, expression_op(cur(st1)->0.token)->0);
    }
}

proof fn lemma_assignment(subject: TreeV, st: ScannerState, sc: ScopeV)
    requires
        scanner_ok(st),
    ensures
        steady(st, sc, p_assignment(subject, st, sc)),
    decreases rem(st), flag(st), 8int,
{
    lemma_expression(st, sc);
}

/// A statement reaches a result and leaves the scope as it was.
pub proof fn lemma_statement(st: ScannerState, sc: ScopeV)
    requires
        scanner_ok(st),
    ensures
        steady(st, sc, p_statement(st, sc)),
    decreases rem(st), flag(st), 9int,
{
    if cur(st) is Some {
        match cur(st)->0.token {
            Tok::Ident(id) => {
                lemma_ident_with_selector(st, sc, id);
                let (st1, sc1, r1) = p_ident_with_selector(st, sc, id)->0;
                if r1 is Ok && cur(st1) is Some && cur(st1)->0.token is Becomes {
                    lemma_scan_next(st1);
                    let (st2, r2) = spec_scan_next(st1)->0;
                    if r2 is Ok {
                        lemma_assignment(r1->Ok_0, st2, sc);
                    }
                }
            },
            Tok::If => {
                lemma_scan_next(st);
                let (st1, r1) = spec_scan_next(st)->0;
                if r1 is Ok {
                    lemma_if_statement(st1, sc);
                }
            },
            Tok::While => {
                lemma_scan_next(st);
                let (st1, r1) = spec_scan_next(st)->0;
                if r1 is Ok {
                    lemma_while_statement(st1, sc);
                }
            },
            _ => {},
        }
    }
}

proof fn lemma_if_end(st: ScannerState, sc: ScopeV, test: TreeV, then_seq: TreeV, else_seq: TreeV)
    requires
        scanner_ok(st),
    ensures
        steady(st, sc, p_if_end(st, sc, test, then_seq, else_seq)),
{
    if cur(st) is Some && cur(st)->0.token is End {
        lemma_scan_next(st);
    }
}

#[verifier::spinoff_prover]
#[verifier::rlimit(50)]
proof fn lemma_if_statement(st: ScannerState, sc: ScopeV)
    requires
        scanner_ok(st),
    ensures
        steady(st, sc, p_if_statement(st, sc)),
    decreases rem(st), flag(st), 8int,
{
    lemma_expression(st, sc);
    let (st1, sc1, t) = p_expression(st, sc)->0;
    if t is Ok && cur(st1) is Some && cur(st1)->0.token is Then {
        lemma_scan_next(st1);
        let (st2, r2) = spec_scan_next(st1)->0;
        if r2 is Ok {
            assert(lex_lt(st2, st));
            lemma_if_branches(st, st2, sc, t->Ok_0);
        }
    }
}

/// The statements of an IF after its THEN, and what follows them.
proof fn lemma_if_branches(st: ScannerState, st2: ScannerState, sc: ScopeV, test: TreeV)
    requires
        scanner_ok(st2),
        lex_lt(st2, st),
    ensures
        match p_statement_sequence(st2, sc) {
            None => false,
            Some((st3, sc3, Err(e))) => scanner_ok(st3) && sc3 == sc,
            Some((st3, sc3, Ok(then_seq))) => match cur(st3) {
                None => scanner_ok(st3) && sc3 == sc,
                Some(c3) => if c3.token is Else {
                    match spec_scan_next(st3) {
                        None => false,
                        Some((st4, Err(e))) => scanner_ok(st4) && forall|cap: int| #[trigger] scanner_below(
                            st3,
                            cap,
                        ) ==> scanner_below(st4, cap),
                        Some((st4, Ok(_))) => lex_lt(st4, st) && (forall|cap: int| #[trigger] scanner_below(
                            st3,
                            cap,
                        ) ==> scanner_below(st4, cap)) && steady(st4, sc, p_statement_sequence(st4, sc3))
                            && match p_statement_sequence(st4, sc3) {
                            Some((st5, sc5, Ok(else_seq))) => steady(
                                st5,
                                sc,
                                p_if_end(st5, sc5, test, then_seq, node(Info::Else, else_seq, TreeV::Nil)),
                            ),
                            _ => true,
                        },
                    }
                } else {
                    steady(st3, sc, p_if_end(st3, sc3, test, then_seq, TreeV::Nil))
                },
            },
        },
        steady(st2, sc, p_statement_sequence(st2, sc)),
    decreases rem(st), flag(st), 7int,
{
    lemma_statement_sequence(st2, sc);
    let (st3, sc3, ts) = p_statement_sequence(st2, sc)->0;
    if ts is Ok && cur(st3) is Some {
        if cur(st3)->0.token is Else {
            lemma_scan_next(st3);
            let (st4, r4) = spec_scan_next(st3)->0;
            if r4 is Ok {
                lemma_statement_sequence(st4, sc);
                let (st5, sc5, es) = p_statement_sequence(st4, sc)->0;
                if es is Ok {
                    lemma_if_end(st5, sc, test, ts->Ok_0, node(Info::Else, es->Ok_0, TreeV::Nil));
                }
            }
        } else {
            lemma_if_end(st3, sc, test, ts->Ok_0, TreeV::Nil);
        }
    }
}

#[verifier::spinoff_prover]
#[verifier::rlimit(50)]
proof fn lemma_while_statement(st: ScannerState, sc: ScopeV)
    requires
        scanner_ok(st),
    ensures
        steady(st, sc, p_while_statement(st, sc)),
    decreases rem(st), flag(st), 8int,
{
    lemma_expression(st, sc);
    let (st1, sc1, t) = p_expression(st, sc)->0;
    if t is Ok && cur(st1) is Some && cur(st1)->0.token is Do {
        lemma_scan_next(st1);
        let (st2, r2) = spec_scan_next(st1)->0;
        if r2 is Ok {
            lemma_statement_sequence(st2, sc);
            let (st3, sc3, b) = p_statement_sequence(st2, sc)->0;
            if b is Ok && cur(st3) is Some && cur(st3)->0.token is End {
                lemma_scan_next(st3);
            }
        }
    }
}

/// A sequence of statements reaches a result and leaves the scope as it
/// was.
pub proof fn lemma_statement_sequence(st: ScannerState, sc: ScopeV)
    requires
        scanner_ok(st),
    ensures
        steady(st, sc, p_statement_sequence(st, sc)),
    decreases rem(st), flag(st), 10int,
{
    lemma_statement(st, sc);
    let (st1, sc1, f) = p_statement(st, sc)->0;
    if f is Ok && cur(st1) is Some && cur(st1)->0.token is Semicolon {
        lemma_scan_next(st1);
        let (st2, r2) = spec_scan_next(st1)->0;
        if r2 is Ok {
            lemma_statement_sequence(st2, sc);
        }
    }
}

proof fn lemma_begin_end(st: ScannerState, sc: ScopeV)
    requires
        scanner_ok(st),
    ensures
        steady(st, sc, p_begin_end(st, sc)),
{
    if cur(st) is Some && cur(st)->0.token is Begin {
        lemma_scan_next(st);
        let (st1, r1) = spec_scan_next(st)->0;
        if r1 is Ok {
            lemma_statement_sequence(st1, sc);
        }
    }
}

/// The scope has room for a symbol of `cap` words for each character left
/// to scan.
pub open spec fn roomy(sc: ScopeV, st: ScannerState, cap: int) -> bool {
    sc.next_adr + rem(st) * cap <= usize::MAX
}

/// Room for `n` more symbols of `cap` words besides.
pub open spec fn budget(sc: ScopeV, n: int, st: ScannerState, cap: int) -> bool {
    sc.next_adr + n * cap + rem(st) * cap <= usize::MAX
}

/// `sc1` keeps the symbols of `sc` in front, and keeps it laid out.
pub open spec fn extends(sc: ScopeV, sc1: ScopeV) -> bool {
    &&& sc.symbols.len() <= sc1.symbols.len()
    &&& forall|i: int| 0 <= i < sc.symbols.len() ==> #[trigger] sc1.symbols[i] == sc.symbols[i]
    &&& sc.laid_out() ==> sc1.laid_out()
}

/// Parsing reaches a result; the scanner stays fit to scan, with no number
/// left above `cap`, and the scope only gets symbols added; after success,
/// the scanner has not moved back and the scope still has room for the rest
/// of the text.
pub open spec fn grows(st: ScannerState, sc: ScopeV, o: Outcome, cap: int) -> bool {
    match o {
        Some((st1, sc1, r)) => scanner_ok(st1) && scanner_below(st1, cap) && extends(sc, sc1) && (r is Ok
            ==> lex_le(st1, st) && roomy(sc1, st1, cap)),
        None => false,
    }
}

proof fn lemma_room_shrinks(x: int, a: int, b: int, cap: int)
    requires
        0 <= a <= b,
        0 <= cap,
    ensures
        x + a * cap <= x + b * cap,
{
    assert(a * cap <= b * cap) by (nonlinear_arith)
        requires
            0 <= a <= b,
            0 <= cap,
    ;
}

proof fn lemma_add_symbol(sc: ScopeV, ident: Seq<char>, size: u32, ctx: ScanContext)
    requires
        sc.next_adr + size <= usize::MAX,
    ensures
        p_add_symbol(sc, ident, size, ctx) matches Some((sc1, r)) && extends(sc, sc1) && sc1.next_adr
            <= sc.next_adr + size && (r is Ok ==> sc1.lookup(ident) == Some(r->Ok_0)),
{
    if sc.lookup(ident) is None {
        let sc1 = sc.add(ident, size as usize);
        if sc.laid_out() {
            lemma_add_keeps_layout(sc, ident, size as usize);
        }
        assert(ident.push('x').len() != ident.len());
        lemma_lookup_after_add(sc, ident, size as usize, ident.push('x'));
        assert forall|i: int| 0 <= i < sc.symbols.len() implies #[trigger] sc1.symbols[i] == sc.symbols[i] by {}
    }
}

proof fn lemma_add_all(sc: ScopeV, idents: Seq<(Seq<char>, ScanContext)>, size: u32)
    requires
        sc.next_adr + idents.len() * size <= usize::MAX,
    ensures
        p_add_all(sc, idents, size) matches Some((sc1, _)) && extends(sc, sc1) && sc1.next_adr
            <= sc.next_adr + idents.len() * size,
    decreases idents.len(),
{
    if idents.len() > 0 {
        let n = idents.len() as int;
        assert(n * size == size + (n - 1) * size) by (nonlinear_arith);
        assert((n - 1) * size >= 0) by (nonlinear_arith)
            requires
                n >= 1,
        ;
        lemma_add_symbol(sc, idents[0].0, size, idents[0].1);
        let (sc1, r) = p_add_symbol(sc, idents[0].0, size, idents[0].1)->0;
        if r is Ok {
            lemma_add_all(sc1, idents.drop_first(), size);
        }
    }
}

proof fn lemma_ident_list(st: ScannerState, acc: Seq<(Seq<char>, ScanContext)>)
    requires
        scanner_ok(st),
    ensures
        p_ident_list(st, acc) matches Some((st1, r)) && scanner_ok(st1) && (forall|cap: int| #[trigger]
            scanner_below(st, cap) ==> scanner_below(st1, cap)) && (r matches Ok(ids) ==> lex_le(
            st1,
            st,
        ) && ids.len() >= acc.len() && (flag(st1) == 1 ==> rem(st) - rem(st1) >= ids.len() - acc.len())),
    decreases rem(st), flag(st),
{
    if cur(st) is Some {
        let c = cur(st)->0;
        if let Tok::Ident(id) = c.token {
            let acc1 = acc.push((id, c.context));
            lemma_scan_next(st);
            let (st1, r1) = spec_scan_next(st)->0;
            if r1 is Ok && cur(st1) is Some && cur(st1)->0.token is Comma {
                lemma_scan_next(st1);
                let (st2, r2) = spec_scan_next(st1)->0;
                if r2 is Ok {
                    lemma_ident_list(st2, acc1);
                }
            }
        }
    }
}

proof fn lemma_declare(
    st0: ScannerState,
    st: ScannerState,
    sc: ScopeV,
    idents: Seq<(Seq<char>, ScanContext)>,
    size: u32,
    t: VarType,
    cap: int,
)
    requires
        scanner_ok(st),
        scanner_below(st, cap),
        lex_lt(st, st0),
        1 <= cap,
        size <= cap,
        budget(sc, idents.len() as int, st, cap),
    ensures
        grows(st0, sc, p_declare(st0, st, sc, idents, size, t), cap),
    decreases rem(st0), flag(st0), 0int,
{
    let n = idents.len() as int;
    assert(n * size <= n * cap) by (nonlinear_arith)
        requires
            n >= 0,
            size <= cap,
    ;
    assert(rem(st) * cap >= 0) by (nonlinear_arith)
        requires
            cap >= 0,
    ;
    lemma_add_all(sc, idents, size);
    let (sc1, r1) = p_add_all(sc, idents, size)->0;
    if r1 is Ok {
        lemma_recur_declaration(st, sc1, cap);
    }
}

proof fn lemma_integer_decl(
    st0: ScannerState,
    st: ScannerState,
    sc: ScopeV,
    idents: Seq<(Seq<char>, ScanContext)>,
    current: ScanV,
    cap: int,
)
    requires
        scanner_ok(st),
        scanner_below(st, cap),
        1 <= cap,
        lex_lt(st, st0),
        budget(sc, idents.len() as int, st, cap),
    ensures
        grows(st0, sc, p_integer_decl(st0, st, sc, idents, current), cap),
    decreases rem(st0), flag(st0), 1int,
{
    if current.token is Ident && current.token->Ident_0 == "INTEGER"@ {
        lemma_scan_next(st);
        let (st1, r1) = spec_scan_next(st)->0;
        if r1 is Ok && cur(st1) is Some && cur(st1)->0.token is Semicolon {
            lemma_scan_next(st1);
            let (st2, r2) = spec_scan_next(st1)->0;
            if r2 is Ok {
                lemma_room_shrinks(sc.next_adr + idents.len() * cap, rem(st2) as int, rem(st) as int, cap);
                lemma_declare(st0, st2, sc, idents, 1, VarType::Integer, cap);
            }
        }
    }
}

proof fn lemma_array_decl(
    st0: ScannerState,
    st: ScannerState,
    sc: ScopeV,
    idents: Seq<(Seq<char>, ScanContext)>,
    cap: int,
)
    requires
        scanner_ok(st),
        scanner_below(st, cap),
        1 <= cap,
        lex_lt(st, st0),
        budget(sc, idents.len() as int, st, cap),
    ensures
        grows(st0, sc, p_array_decl(st0, st, sc, idents), cap),
    decreases rem(st0), flag(st0), 2int,
{
    let base = sc.next_adr + idents.len() * cap;
    lemma_scan_next(st);
    let (st3, r3) = spec_scan_next(st)->0;
    if r3 is Ok && cur(st3) is Some {
        let c3 = cur(st3)->0;
        lemma_room_shrinks(base, rem(st3) as int, rem(st) as int, cap);
        if let Tok::Int(size) = c3.token {
            lemma_scan_next(st3);
            let (st4, r4) = spec_scan_next(st3)->0;
            if r4 is Ok && cur(st4) is Some {
                lemma_room_shrinks(base, rem(st4) as int, rem(st) as int, cap);
                if cur(st4)->0.token is Of {
                    lemma_scan_next(st4);
                    let (st5, r5) = spec_scan_next(st4)->0;
                    if r5 is Ok && cur(st5) is Some {
                        lemma_room_shrinks(base, rem(st5) as int, rem(st) as int, cap);
                        let c5 = cur(st5)->0;
                        if c5.token is Ident {
                            if c5.token->Ident_0 == "INTEGER"@ {
                                lemma_scan_next(st5);
                                let (st6, r6) = spec_scan_next(st5)->0;
                                if r6 is Ok && cur(st6) is Some {
                                    lemma_room_shrinks(base, rem(st6) as int, rem(st) as int, cap);
                                    if cur(st6)->0.token is Semicolon {
                                        lemma_scan_next(st6);
                                        let (st7, r7) = spec_scan_next(st6)->0;
                                        if r7 is Ok {
                                            lemma_room_shrinks(base, rem(st7) as int, rem(st) as int, cap);
                                            lemma_declare(st0, st7, sc, idents, size, VarType::Array(size), cap);
                                        }
                                    } else {
                                        lemma_integer_decl(st0, st6, sc, idents, c3, cap);
                                    }
                                }
                            }
                        } else {
                            lemma_integer_decl(st0, st5, sc, idents, c3, cap);
                        }
                    }
                } else {
                    lemma_integer_decl(st0, st4, sc, idents, c3, cap);
                }
            }
        } else {
            lemma_integer_decl(st0, st3, sc, idents, c3, cap);
        }
    }
}

/// Variable declarations reach a result and only add symbols to the scope,
/// keeping it laid out.
pub proof fn lemma_recur_declaration(st: ScannerState, sc: ScopeV, cap: int)
    requires
        scanner_ok(st),
        scanner_below(st, cap),
        1 <= cap,
        roomy(sc, st, cap),
    ensures
        grows(st, sc, p_recur_declaration(st, sc), cap),
    decreases rem(st), flag(st), 3int,
{
    if cur(st) is Some {
        lemma_ident_list(st, seq![]);
        let (st1, r1) = p_ident_list(st, seq![])->0;
        if r1 is Ok {
            lemma_room_shrinks(sc.next_adr as int, rem(st1) as int, rem(st) as int, cap);
        }
        if r1 is Ok && r1->Ok_0.len() > 0 && cur(st1) is Some && cur(st1)->0.token is Colon {
            let n = r1->Ok_0.len() as int;
            lemma_scan_next(st1);
            let (st2, r2) = spec_scan_next(st1)->0;
            if r2 is Ok && cur(st2) is Some {
                assert(rem(st2) + n <= rem(st));
                assert(n * cap + rem(st2) * cap <= rem(st) * cap) by (nonlinear_arith)
                    requires
                        rem(st2) + n <= rem(st),
                        n >= 0,
                        cap >= 0,
                ;
                if cur(st2)->0.token is Array {
                    lemma_array_decl(st, st2, sc, r1->Ok_0, cap);
                } else {
                    lemma_integer_decl(st, st2, sc, r1->Ok_0, cur(st2)->0, cap);
                }
            }
        }
    }
}

proof fn lemma_var_declarations_then(st: ScannerState, sc: ScopeV, k: Continuation, cap: int)
    requires
        scanner_ok(st),
        scanner_below(st, cap),
        1 <= cap,
        roomy(sc, st, cap),
    ensures
        grows(st, sc, p_var_declarations_then(st, sc, k), cap),
{
    lemma_recur_declaration(st, sc, cap);
    let (st1, sc1, d) = p_recur_declaration(st, sc)->0;
    if d is Ok && k is BeginEnd {
        lemma_begin_end(st1, sc1);
        let (st2, sc2, b) = p_begin_end(st1, sc1)->0;
        if b is Ok {
            lemma_room_shrinks(sc1.next_adr as int, rem(st2) as int, rem(st1) as int, cap);
        }
    }
}

/// A declaration section reaches a result and only adds symbols to the
/// scope, keeping it laid out.
pub proof fn lemma_declarations(st: ScannerState, sc: ScopeV, k: Continuation, cap: int)
    requires
        scanner_ok(st),
        scanner_below(st, cap),
        1 <= cap,
        roomy(sc, st, cap),
    ensures
        grows(st, sc, p_declarations(st, sc, k), cap),
{
    if cur(st) is Some && cur(st)->0.token is Var {
        lemma_scan_next(st);
        let (st1, r1) = spec_scan_next(st)->0;
        if r1 is Ok {
            lemma_room_shrinks(sc.next_adr as int, rem(st1) as int, rem(st) as int, cap);
            lemma_var_declarations_then(st1, sc, k, cap);
        }
    }
}

proof fn lemma_module_end(st: ScannerState, sc: ScopeV, mid: Seq<char>, child: TreeV, sibling: TreeV)
    requires
        scanner_ok(st),
    ensures
        steady(st, sc, p_module_end(st, sc, mid, child, sibling)),
{
    if cur(st) is Some && cur(st)->0.token is End {
        lemma_scan_next(st);
        let (st5, r5) = spec_scan_next(st)->0;
        if r5 is Ok && cur(st5) is Some {
            lemma_scan_next(st5);
            let (st6, r6) = spec_scan_next(st5)->0;
            if r6 is Ok && cur(st6) is Some {
                lemma_scan_next(st6);
            }
        }
    }
}

/// Parsing a module from a scanner fit to scan, with a scope that has room
/// for what the text could declare, reaches a result; it only adds symbols
/// to the scope, and keeps it laid out.
#[verifier::rlimit(40)]
pub proof fn lemma_module(st: ScannerState, sc: ScopeV, cap: int)
    requires
        scanner_ok(st),
        scanner_below(st, cap),
        1 <= cap,
        roomy(sc, st, cap),
    ensures
        grows(st, sc, p_module(st, sc), cap),
{
    if cur(st) is Some && cur(st)->0.token is Module {
        lemma_scan_next(st);
        let (st1, r1) = spec_scan_next(st)->0;
        if r1 is Ok && cur(st1) is Some && cur(st1)->0.token is Ident {
            let mid = cur(st1)->0.token->Ident_0;
            lemma_scan_next(st1);
            let (st2, r2) = spec_scan_next(st1)->0;
            if r2 is Ok && cur(st2) is Some && cur(st2)->0.token is Semicolon {
                assert(rem(st2) < rem(st));
                assert(rem(st) * cap >= 1) by (nonlinear_arith)
                    requires
                        rem(st) >= 1,
                        cap >= 1,
                ;
                lemma_add_symbol(sc, mid, 1, cur(st2)->0.context);
                let (sc1, ra) = p_add_symbol(sc, mid, 1, cur(st2)->0.context)->0;
                if ra is Ok {
                    lemma_scan_next(st2);
                    let (st3, r3) = spec_scan_next(st2)->0;
                    if r3 is Ok {
                        assert(1 + rem(st3) * cap <= rem(st) * cap) by (nonlinear_arith)
                            requires
                                rem(st3) + 1 <= rem(st),
                                cap >= 1,
                        ;
                        lemma_declarations(st3, sc1, Continuation::BeginEnd, cap);
                        let (st4, sc4, d) = p_declarations(st3, sc1, Continuation::BeginEnd)->0;
                        if d is Ok {
                            let sym = sc1.lookup(mid)->0;
                            lemma_module_end(st4, sc4, mid, leaf(Info::Ident(sym)), d->Ok_0);
                            let (st5, sc5, m) = p_module_end(st4, sc4, mid, leaf(Info::Ident(sym)), d->Ok_0)->0;
                            if m is Ok {
                                lemma_room_shrinks(sc4.next_adr as int, rem(st5) as int, rem(st4) as int, cap);
                            }
                        }
                    }
                }
            }
        }
    }
}

/// Every number in the text fits in 32 bits.
pub open spec fn text_fits(s: Seq<char>) -> bool {
    forall|j: int| 0 <= j < lines(s).len() ==> #[trigger] numbers_fit(lines(s)[j], 0)
}

/// Every number in the text is at most `cap`.
pub open spec fn text_below(s: Seq<char>, cap: int) -> bool {
    forall|j: int| 0 <= j < lines(s).len() ==> #[trigger] numbers_below(lines(s)[j], 0, cap)
}

/// The largest number that a text of `n` characters may hold so that
/// every name it can declare, even an array of that size each, finds an
/// address: the largest that fits in 32 bits, and no more than the
/// addresses can hold for `n` such names.
pub open spec fn room_cap(n: int) -> int {
    if n <= 1 {
        u32::MAX as int
    } else if usize::MAX as int / n < u32::MAX {
        usize::MAX as int / n
    } else {
        u32::MAX as int
    }
}

/// A text whose numbers are at most a cap that fits in 32 bits has every
/// number fit in 32 bits.
pub proof fn lemma_below_fits(s: Seq<char>, cap: int)
    requires
        cap <= u32::MAX,
        text_below(s, cap),
    ensures
        text_fits(s),
{
    assert forall|j: int| 0 <= j < lines(s).len() implies #[trigger] numbers_fit(lines(s)[j], 0) by {
        assert(numbers_below(lines(s)[j], 0, cap));
    }
}

/// The cap is at least one, and as many names of that size as a text of
/// `n` characters holds find addresses.
pub proof fn lemma_room_cap(n: int)
    requires
        0 <= n <= u32::MAX,
    ensures
        1 <= room_cap(n) <= u32::MAX,
        n * room_cap(n) <= usize::MAX,
{
    let m = usize::MAX as int;
    assert(m >= u32::MAX);
    if n <= 1 {
        assert(n * room_cap(n) <= u32::MAX) by (nonlinear_arith)
            requires
                0 <= n <= 1,
                room_cap(n) == u32::MAX,
        ;
    } else {
        assert(n * (m / n) <= m) by (nonlinear_arith)
            requires
                n > 1,
                m >= 0,
        ;
        assert(m / n >= 1) by (nonlinear_arith)
            requires
                1 < n <= m,
        ;
        if m / n >= u32::MAX {
            assert(n * u32::MAX <= n * (m / n)) by (nonlinear_arith)
                requires
                    n > 1,
                    m / n >= u32::MAX,
            ;
        }
    }
}

proof fn lemma_rest_len_shift(ls: Seq<Seq<char>>, j: int)
    requires
        0 <= j,
        ls.len() > 0,
    ensures
        rest_len(ls, j + 1) == rest_len(ls.drop_first(), j),
    decreases ls.len() - j,
{
    if j + 1 < ls.len() {
        lemma_rest_len_shift(ls, j + 1);
        assert(ls[j + 1] == ls.drop_first()[j]);
    }
}

/// The lines of a text, with their ends, are no longer than the text and
/// one character more.
proof fn lemma_lines_rest_len(s: Seq<char>)
    ensures
        rest_len(lines(s), 0) <= s.len() + 1,
    decreases s.len(),
{
    lemma_run_until_bound(s, '\n');
    let ls = lines(s);
    if s.len() > 0 {
        if run_until(s, '\n') >= s.len() {
            lemma_rest_len_step(ls, 0);
        } else {
            let k = run_until(s, '\n') as int;
            let t = s.skip(k + 1);
            lemma_lines_rest_len(t);
            lemma_rest_len_step(ls, 0);
            lemma_rest_len_shift(ls, 0);
            assert(ls.drop_first() =~= lines(t));
            assert(strip_cr(s.take(k)).len() <= k);
        }
    }
}

/// A new scanner of a text whose numbers fit is fit to scan, with no more
/// left to scan than the text.
pub proof fn lemma_start(s: Seq<char>)
    requires
        text_fits(s),
    ensures
        scanner_ok(scanner_start(s)),
        rem(scanner_start(s)) <= s.len(),
{
    let ls = lines(s);
    lemma_lines_rest_len(s);
    if ls.len() > 0 {
        lemma_rest_len_step(ls, 0);
        assert(numbers_fit(ls[0], 0));
    }
}

/// A new scanner of a text whose numbers are at most `cap` has no number
/// above `cap` left to read.
pub proof fn lemma_start_below(s: Seq<char>, cap: int)
    requires
        text_below(s, cap),
    ensures
        scanner_below(scanner_start(s), cap),
{
    let ls = lines(s);
    if ls.len() > 0 {
        assert(numbers_below(ls[0], 0, cap));
    }
}

} // verus!
