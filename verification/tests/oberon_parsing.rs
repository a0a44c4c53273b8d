use wirth::oberon::parser::{run, ParseError, Parser};
use wirth::oberon::scanner::{ScanError, Scanner, Token};

#[test]
fn test_parses_valid_expression() {
    let content = String::from("1 + 2 + 3 | 5");
    let c = Parser::parse(&content);
    assert!(c.is_ok(), "{:?}", c);
}

#[test]
fn test_breaks_on_invalid_expression() {
    let content = String::from("@1 + x.Bar[0]");
    let c = Parser::parse(&content);
    assert!(c.is_err());
}

#[test]
fn oberon_run_parses_a_selector() {
    assert_eq!(Ok(()), run());
    assert_eq!(Ok(()), Parser::parse_selector(&String::from(".Bar[0]")));
    // An index that the text leaves open still ends without an error.
    assert_eq!(Ok(()), Parser::parse_selector(&String::from(".Bar[")));
    assert_eq!(Err(ParseError::ScanError), Parser::parse_selector(&String::from("x")));
    assert_eq!(Err(ParseError::PrematureEOF), Parser::parse(&String::from("  ")));
}

#[test]
fn oberon_scanner_reads_keywords_numbers_and_comments() {
    let content = String::from("IF x1 >= 42 (* hm *) THEN\n  y := 7 END");
    let mut s = Scanner::new(&content);
    assert!(matches!(s.scan(), Ok(Some(Token::If))));
    assert!(matches!(s.scan(), Ok(Some(Token::Ident(ref w))) if w == "x1"));
    assert!(matches!(s.scan(), Ok(Some(Token::Geq))));
    assert!(matches!(s.scan(), Ok(Some(Token::Int(42)))));
    assert!(matches!(s.scan(), Ok(Some(Token::Then))));
    assert_eq!(1, s.line());
    assert!(matches!(s.scan(), Ok(Some(Token::Ident(ref w))) if w == "y"));
    assert_eq!(2, s.line());
    assert!(matches!(s.scan(), Ok(Some(Token::Becomes))));
    assert!(matches!(s.scan(), Ok(Some(Token::Int(7)))));
    assert!(matches!(s.scan(), Ok(Some(Token::End))));
    assert!(matches!(s.scan(), Ok(None)));
}

#[test]
fn oberon_scanner_reports_an_unfinished_comment() {
    let content = String::from("(* never closed");
    let mut s = Scanner::new(&content);
    assert!(matches!(s.scan(), Err(ScanError::UnfinishedComment())));
}

#[test]
fn oberon_scanner_reads_non_ascii_letters_in_words() {
    let content = String::from("été2 ");
    let mut s = Scanner::new(&content);
    assert!(matches!(s.scan(), Ok(Some(Token::Ident(ref w))) if w == "été2"));
}

#[test]
fn oberon_scanner_tells_when_a_number_would_overflow() {
    let content = String::from("  (* 99999999999 *) 4294967295 x");
    let s = Scanner::new(&content);
    assert!(!s.scan_overflows());
    let content = String::from(" \n 4294967296");
    let s = Scanner::new(&content);
    assert!(s.scan_overflows());
}
