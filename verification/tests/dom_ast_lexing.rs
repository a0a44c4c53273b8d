use std::rc::Rc;

use wirth::dom_ast::ast;
use wirth::dom_ast::line_scanner::LineScanner;
use wirth::dom_ast::scanner::Scanner;
use wirth::dom_ast::scope::Scope;
use wirth::dom_ast::token::{Scan, ScanContext, ScanError, ScanErrorType, Token};
use wirth::dom_ast::tree::{NodeInfo, TermOp};

fn assert_scans_all(scanner: &mut LineScanner, tests: Vec<(u32, u32, Token)>) -> () {
    for (l, c, t) in tests {
        assert_scans(scanner, l, c, t);
    }
    assert_done(scanner);
}

fn assert_scans(scanner: &mut LineScanner, line: u32, column: u32, token: Token) -> () {
    assert_eq!(
        Scan { context: ScanContext { line: line, column: column }, token: token },
        *(scanner.next().unwrap().unwrap().as_ref())
    );
}

fn assert_scans_error(scanner: &mut LineScanner, line: u32, column: u32, error_type: ScanErrorType) -> () {
    assert_eq!(Err(ScanError { context: ScanContext { line, column }, error_type }), scanner.next().unwrap());
}

fn assert_done(scanner: &mut LineScanner) -> () {
    assert_eq!(None, scanner.next());
}

#[test]
fn line_scanner_tests_test_builds_nothing_in_empty_content() {
    let mut line_scanner = LineScanner::new(0, "");
    assert_done(&mut line_scanner);
}

#[test]
fn line_scanner_tests_test_scanner_ignore_whitespaces() {
    let mut line_scanner = LineScanner::new(0, "  ");
    assert_done(&mut line_scanner);
    assert_done(&mut line_scanner);
}

#[test]
fn line_scanner_tests_test_returns_error_on_non_ascii_chars_and_newlines() {
    let mut scanner = LineScanner::new(0, " ❤\n");
    assert_scans_error(&mut scanner, 0, 1, ScanErrorType::InvalidChar('❤'));
    assert_scans_error(&mut scanner, 0, 4, ScanErrorType::UnexpectedNewLine);
    assert_done(&mut scanner);
}

#[test]
fn line_scanner_tests_test_scans_identifier() {
    let content = "foo";
    let mut scanner = LineScanner::new(1, &content);

    assert_scans(&mut scanner, 1, 0, Token::Ident(String::from("foo")));

    assert_eq!(
        *(scanner.current().unwrap().as_ref()),
        Scan { context: ScanContext { line: 1, column: 0 }, token: Token::Ident(String::from("foo")) }
    );

    assert_eq!(scanner.next(), None);
    assert_eq!(scanner.current(), None);
}

#[test]
fn test_skips_whitespace() {
    let content = "  foo()";
    let mut scanner = LineScanner::new(1, &content);
    assert_scans_all(
        &mut scanner,
        vec![
            (1, 2, Token::Ident(String::from("foo"))),
            (1, 5, Token::Lparen),
            (1, 6, Token::Rparen),
        ],
    );
}

#[test]
fn line_scanner_tests_test_scans_assignements() {
    let content = "  foo := 742 ; bar()";
    let mut scanner = LineScanner::new(0, &content);
    assert_scans_all(
        &mut scanner,
        vec![
            (0, 2, Token::Ident(String::from("foo"))),
            (0, 6, Token::Becomes),
            (0, 9, Token::Int(742)),
            (0, 13, Token::Semicolon),
            (0, 15, Token::Ident(String::from("bar"))),
            (0, 18, Token::Lparen),
            (0, 19, Token::Rparen),
        ],
    );
}

#[test]
fn line_scanner_tests_test_scans_assignment_to_ident() {
    let mut scanner = LineScanner::new(0, "x:=y");
    assert_scans_all(
        &mut scanner,
        vec![
            (0, 0, Token::Ident(String::from("x"))),
            (0, 1, Token::Becomes),
            (0, 3, Token::Ident(String::from("y"))),
        ],
    );
}

#[test]
fn test_scans_arithmetic() {
    let mut scanner = LineScanner::new(0, "(x/42)+(y*12)-3");
    assert_scans_all(
        &mut scanner,
        vec![
            (0, 0, Token::Lparen),
            (0, 1, Token::Ident(String::from("x"))),
            (0, 2, Token::Div),
            (0, 3, Token::Int(42)),
            (0, 5, Token::Rparen),
            (0, 6, Token::Plus),
            (0, 7, Token::Lparen),
            (0, 8, Token::Ident(String::from("y"))),
            (0, 9, Token::Times),
            (0, 10, Token::Int(12)),
            (0, 12, Token::Rparen),
            (0, 13, Token::Minus),
            (0, 14, Token::Int(3)),
        ],
    );
}

#[test]
fn dom_line_scanner_reads_keywords_comments_and_relations() {
    let mut scanner = LineScanner::new(3, "IF a # b (* note *) THEN x >= 1 END");
    assert_scans_all(
        &mut scanner,
        vec![
            (3, 0, Token::If),
            (3, 3, Token::Ident(String::from("a"))),
            (3, 5, Token::Neq),
            (3, 7, Token::Ident(String::from("b"))),
            (3, 20, Token::Then),
            (3, 25, Token::Ident(String::from("x"))),
            (3, 27, Token::Geq),
            (3, 30, Token::Int(1)),
            (3, 32, Token::End),
        ],
    );
}

#[test]
fn dom_line_scanner_reports_an_unterminated_comment() {
    let mut scanner = LineScanner::new(0, "x (* open");
    assert_scans(&mut scanner, 0, 0, Token::Ident(String::from("x")));
    assert_scans_error(&mut scanner, 0, 2, ScanErrorType::UnterminatedComment);
}

#[test]
fn scanner_tests_test_finds_nothing_in_empty_content() {
    let content = "";
    let mut scanner = Scanner::new(&content);
    assert_eq!(None, scanner.next());
}

#[test]
fn scanner_tests_test_scan_tokens_on_multiple_lines() {
    let content = " foo \n\n  bar";
    let mut scanner = Scanner::new(&content);
    let foo = Scan { context: ScanContext { line: 0, column: 1 }, token: Token::Ident(String::from("foo")) };
    let bar = Scan { context: ScanContext { line: 2, column: 2 }, token: Token::Ident(String::from("bar")) };
    assert_eq!(foo, *(scanner.next().unwrap().unwrap().as_ref()));
    assert_eq!(foo, *(scanner.current().unwrap().as_ref()));
    assert_eq!(bar, *(scanner.next().unwrap().unwrap().as_ref()));
    assert_eq!(bar, *(scanner.current().unwrap().as_ref()));
    assert_eq!(None, scanner.next());
}

#[test]
fn test_finds_nothing_in_empty_tree() {
    let tree = ast::empty();
    let mut path = ast::Path::root();
    assert_eq!(None, path.follow(&tree));
}

#[test]
fn test_finds_something_at_root_of_leaf_tree() {
    let tree = ast::leaf(NodeInfo::Constant(42));
    let mut path = ast::Path::root();
    assert!(matches!(path.follow(&tree).unwrap(), NodeInfo::Constant(42)));
}

#[test]
fn test_finds_something_inside_tree() {
    let child = ast::leaf(NodeInfo::Constant(42));
    let sibling = ast::leaf(NodeInfo::Constant(10));
    let node = ast::node(NodeInfo::Term(TermOp::Times), child, sibling);

    let mut root = ast::Path::root();
    let path = root.child();
    assert!(matches!(path.follow(&node).unwrap(), NodeInfo::Constant(42)));

    let mut root = ast::Path::root();
    let path = root.sibling();
    assert!(matches!(path.follow(&node).unwrap(), NodeInfo::Constant(10)));
}

#[test]
fn dom_ast_paths_go_past_the_end_to_nothing() {
    let node = ast::node(NodeInfo::Term(TermOp::Times), ast::leaf(NodeInfo::Constant(1)), ast::empty());
    let mut root = ast::Path::root();
    let path = root.sibling();
    assert_eq!(None, path.follow(&node));
    let mut root = ast::Path::root();
    let path = root.child().child();
    assert_eq!(None, path.follow(&node));
    assert!(ast::is_empty(&ast::empty()));
    assert!(!ast::is_empty(&node));
}

#[test]
fn fails_if_symbol_is_missing() {
    let s = Scope::new();
    assert!(matches!(s.lookup("x"), None));
}

#[test]
fn can_find_symbol() {
    let mut s = Scope::new();
    s.add("x");
    assert_eq!(s.lookup("x").unwrap().name, "x");
}

#[test]
fn maintains_addresses_when_adding_symbol() {
    let mut s = Scope::new();
    s.add("x");
    s.add("y");
    assert_eq!(s.lookup("x").unwrap().adr, 0);
    assert_eq!(s.lookup("y").unwrap().adr, 1);
}

#[test]
fn can_add_element_with_size_bigger_than_on() {
    let mut s = Scope::new();
    s.add("x");
    s.add_with_size("a", 4);
    s.add("y");
    let x = s.lookup("x").unwrap();
    assert_eq!(x.adr, 0);
    assert_eq!(x.size, 1);

    let a = s.lookup("a").unwrap();
    assert_eq!(a.adr, 1);
    assert_eq!(a.size, 4);

    let y = s.lookup("y").unwrap();
    assert_eq!(y.adr, 5);
    assert_eq!(y.size, 1);
}

fn function_that_adds(s: &str, scope: &mut Scope) {
    scope.add(s);
}

fn function_that_adds_and_adds(scope: &mut Scope) {
    function_that_adds("x", scope);
    function_that_adds("x", scope);
}

#[test]
fn can_be_called_in_a_loop() {
    let mut s = Scope::new();
    function_that_adds("x", &mut s);
    function_that_adds("y", &mut s);
    function_that_adds_and_adds(&mut s);
    assert_eq!(s.lookup("y").unwrap().adr, 1);
}

#[test]
fn dom_scope_lookup_finds_the_first_of_a_name() {
    let mut s = Scope::new();
    s.add("x");
    s.add_with_size("x", 3);
    let x: Rc<_> = s.lookup("x").unwrap();
    assert_eq!(x.adr, 0);
    assert_eq!(x.size, 1);
}

#[test]
fn dom_line_scanner_places_tokens_at_byte_offsets_and_moves_on() {
    let mut scanner = LineScanner::new(2, "é x");
    assert_scans_error(&mut scanner, 2, 0, ScanErrorType::InvalidChar('é'));
    assert_scans(&mut scanner, 2, 3, Token::Ident(String::from("x")));
    assert_done(&mut scanner);
    assert_done(&mut scanner);
}

#[test]
fn dom_line_scanner_gives_the_empty_name_for_a_character_that_starts_no_token() {
    let mut scanner = LineScanner::new(0, "!");
    assert_scans(&mut scanner, 0, 0, Token::Ident(String::new()));
    assert_scans(&mut scanner, 0, 0, Token::Ident(String::new()));
}
