use wirth::compiler::line_scanner::LineScanner;
use wirth::compiler::scanner::Scanner;
use wirth::compiler::scanner2;
use wirth::compiler::scope::Scope;
use wirth::compiler::token::{Scan, ScanContext, ScanError, ScanErrorType, Token};

fn assert_scans_all(scanner: &mut LineScanner, tests: Vec<(u32, u32, Token)>) -> () {
    for (l, c, t) in tests {
        assert_scans(scanner, l, c, t);
    }
    assert_done(scanner);
}

fn assert_scans(scanner: &mut LineScanner, line: u32, column: u32, token: Token) -> () {
    assert_eq!(
        Ok(Scan { context: ScanContext { line: line, column: column }, token: token }),
        scanner.next().unwrap()
    );
}

fn assert_scans_error(scanner: &mut LineScanner, line: u32, column: u32, error_type: ScanErrorType) -> () {
    assert_eq!(Err(ScanError { context: ScanContext { line, column }, error_type }), scanner.next().unwrap());
}

fn assert_done(scanner: &mut LineScanner) -> () {
    assert_eq!(None, scanner.next());
}

#[test]
fn line_scanner_test_builds_nothing_in_empty_content() {
    let mut line_scanner = LineScanner::new(0, "");
    assert_done(&mut line_scanner);
}

#[test]
fn line_scanner_test_scanner_ignore_whitespaces() {
    let mut line_scanner = LineScanner::new(0, "  ");
    assert_done(&mut line_scanner);
    assert_done(&mut line_scanner);
    assert_eq!(2, line_scanner.column_number);
}

#[test]
fn line_scanner_test_returns_error_on_non_ascii_chars_and_newlines() {
    let mut scanner = LineScanner::new(0, " ❤\n");
    assert_scans_error(&mut scanner, 0, 1, ScanErrorType::InvalidChar('❤'));
    assert_scans_error(&mut scanner, 0, 4, ScanErrorType::UnexpectedNewLine);
    assert_done(&mut scanner);
}

#[test]
fn line_scanner_test_scans_identifier() {
    let content = "  foo()";
    let mut scanner = LineScanner::new(1, &content);
    assert_scans_all(
        &mut scanner,
        vec![
            (1, 2, Token::Ident(String::from("foo"))),
            (1, 5, Token::Lparen),
            (1, 6, Token::Rparen),
        ],
    );
}

#[test]
fn line_scanner_test_scans_assignements() {
    let content = "  foo := 742 ; bar()";
    let mut scanner = LineScanner::new(0, &content);
    assert_scans_all(
        &mut scanner,
        vec![
            (0, 2, Token::Ident(String::from("foo"))),
            (0, 6, Token::Becomes),
            (0, 9, Token::Int(742)),
            (0, 13, Token::Semicolon),
            (0, 15, Token::Ident(String::from("bar"))),
            (0, 18, Token::Lparen),
            (0, 19, Token::Rparen),
        ],
    );
}

#[test]
fn line_scanner_test_scans_assignment_to_ident() {
    let mut scanner = LineScanner::new(0, "x:=y");
    assert_scans_all(
        &mut scanner,
        vec![
            (0, 0, Token::Ident(String::from("x"))),
            (0, 1, Token::Becomes),
            (0, 3, Token::Ident(String::from("y"))),
        ],
    );
}

#[test]
fn scanner_test_finds_nothing_in_empty_content() {
    let content = "";
    let mut scanner = Scanner::new(&content);
    assert_eq!(None, scanner.next());
}

#[test]
fn scanner_test_scan_tokens_on_multiple_lines() {
    let content = " foo \n\n  bar";
    let mut scanner = Scanner::new(&content);
    assert_eq!(
        Ok(Scan { context: ScanContext { line: 0, column: 1 }, token: Token::Ident(String::from("foo")) }),
        scanner.next().unwrap()
    );
    assert_eq!(
        Ok(Scan { context: ScanContext { line: 2, column: 2 }, token: Token::Ident(String::from("bar")) }),
        scanner.next().unwrap()
    );
    assert_eq!(None, scanner.next());
}

#[test]
fn scope_fails_if_symbol_is_missing() {
    let s = Scope::new();
    assert!(matches!(s.lookup("x"), None));
}

#[test]
fn can_find_symbole() {
    let mut s = Scope::new();
    s.add("x");
    assert_eq!(s.lookup("x").unwrap().name, "x");
}

#[test]
fn test_fake_news() {
    assert_eq!(true, true)
}

#[test]
fn compiler_first_scanner_finds_no_token() {
    let mut scanner = scanner2::LineScanner::new("   HELLO  WORLD", 3);
    assert!(scanner.next().is_none());
    assert_eq!(3, scanner.line_number);
    assert_eq!(0, scanner.char_number);
}

#[test]
fn compiler_scope_lookup_gives_the_first_symbol() {
    let mut s = Scope::new();
    s.add("x");
    s.add("y");
    assert_eq!(s.lookup("y").unwrap().name, "x");
}
