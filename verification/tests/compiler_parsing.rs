use wirth::compiler::ast::{NodeInfo, Tree};
use wirth::compiler::parser::{ParseError, ParseResult, Parser};
use wirth::compiler::scanner::Scanner;
use wirth::compiler::scope::Scope;

fn first_scope(symbols: Vec<&str>) -> Scope {
    let mut scope = Scope::new();
    for symbol in symbols {
        scope.add(symbol);
    }
    scope
}

fn first_parse_statement<'a>(scope: &'a Scope, content: &str) -> ParseResult<'a> {
    let mut scanner = Scanner::new(content);
    let p = Parser::new();
    p.parse_statement(&mut scanner, scope)
}

fn first_parse_statement_sequence<'a>(scope: &'a Scope, content: &str) -> ParseResult<'a> {
    let mut scanner = Scanner::new(content);
    let p = Parser::new();
    p.parse_statement_sequence(&mut scanner, scope)
}

#[test]
fn parser_fails_on_premature_eof() {
    let scope = first_scope(vec!["x"]);
    for content in vec!["", "x", "x:="] {
        let tree = first_parse_statement(&scope, content);
        assert!(matches!(tree.unwrap_err(), ParseError::PrematureEof), "Expected PrematureEof while parsing {}", content);
    }
}

#[test]
fn parser_fails_on_scan_eof() {
    let scope = Scope::new();
    let tree = first_parse_statement(&scope, " ❤");
    assert!(matches!(tree.unwrap_err(), ParseError::ScanError(_)));
}

#[test]
fn parser_fails_parsing_statement_for_unknown_identifier() {
    let scope = Scope::new();
    let tree = first_parse_statement(&scope, "y:=42");
    assert!(matches!(tree.unwrap_err(), ParseError::UndefinedSymbol(s) if s == "y"));
}

#[test]
fn parser_can_parse_statement() {
    let scope = first_scope(vec!["x"]);
    let tree = first_parse_statement(&scope, "x:=42").unwrap();
    assert!(matches!(tree.as_ref(), Tree::Node(_)));

    let node = Tree::get_node(&tree).unwrap();

    assert_eq!(node.info, NodeInfo::Assignement);
    assert!(matches!(node.child.as_ref(), Tree::Node(_)));

    let child_node = Tree::get_node(&node.child).unwrap();
    assert!(matches!(child_node.info, NodeInfo::Ident(s) if s.name == "x"));

    let sibling_node = Tree::get_node(&node.sibling).unwrap();
    assert!(matches!(sibling_node.info, NodeInfo::Constant(c) if c == 42));
}

#[test]
fn parser_can_parse_statement_sequence() {
    let scope = first_scope(vec!["x", "y"]);
    let tree = first_parse_statement_sequence(&scope, "x:=42;\ny:=x").unwrap();
    assert!(matches!(tree.as_ref(), Tree::Node(_)));

    let first_statement = Tree::get_node(&tree).unwrap();
    assert_eq!(first_statement.info, NodeInfo::StatementSequence);
    assert!(matches!(first_statement.child.as_ref(), Tree::Node(_)));

    let first_assignment = &first_statement.child;
    assert!(matches!(Tree::get_node(first_assignment).unwrap().info, NodeInfo::Assignement));

    let second_statement = &first_statement.sibling;
    assert_eq!(Tree::get_node(second_statement).unwrap().info, NodeInfo::StatementSequence);

    let second_assignment = &Tree::get_node(second_statement).unwrap().child;
    assert!(matches!(Tree::get_node(second_assignment).unwrap().info, NodeInfo::Assignement));
}

#[test]
fn first_parser_reports_where_the_assignment_is_missing() {
    let scope = first_scope(vec!["x"]);
    let tree = first_parse_statement(&scope, "x 42");
    assert!(matches!(tree, Err(ParseError::UnexpectedToken(c)) if c.line == 0 && c.column == 0));
    assert!(matches!(first_parse_statement(&scope, "42"), Err(ParseError::Todo)));
    assert!(matches!(first_parse_statement(&scope, "x := ;"), Err(ParseError::UnexpectedToken(c)) if c.column == 2));
}
