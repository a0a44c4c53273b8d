use wirth::dom_ast::ast;
use wirth::dom_ast::parser;
use wirth::dom_ast::parser::{ParseError, ParseResult};
use wirth::dom_ast::scanner::Scanner;
use wirth::dom_ast::scope::Scope;
use wirth::dom_ast::tree::{ExpressionOp, NodeInfo};

fn stat_scope(symbols: Vec<&str>) -> Scope {
    let mut scope = Scope::new();
    for symbol in symbols {
        scope.add(symbol);
    }
    scope
}

fn stat_parse_statement(scope: &mut Scope, content: &str) -> ParseResult {
    let mut scanner = Scanner::new(content);
    parser::scan_next(&mut scanner)?;
    parser::parse_statement(&mut scanner, scope)
}

#[test]
fn fails_on_if_expression_without_condition() {
    let mut scope = Scope::new();
    let error = stat_parse_statement(&mut scope, "IF").unwrap_err();
    assert!(matches!(error, ParseError::PrematureEof));
}

#[test]
fn fails_on_invalid_if_expression() {
    let mut scope = Scope::new();
    let error = stat_parse_statement(&mut scope, "IF 0 =").unwrap_err();
    assert!(matches!(error, ParseError::PrematureEof));
}

#[test]
fn fails_on_if_expression_without_then() {
    let mut scope = Scope::new();
    let error = stat_parse_statement(&mut scope, "IF 0 = 1").unwrap_err();
    assert!(matches!(error, ParseError::PrematureEof));
}

#[test]
fn fails_on_if_expression_without_then_statements() {
    let mut scope = Scope::new();
    let error = stat_parse_statement(&mut scope, "IF 0 = 1 THEN").unwrap_err();
    assert!(matches!(error, ParseError::PrematureEof));
}

#[test]
fn fails_on_if_expression_without_then_statements_ending() {
    let mut scope = stat_scope(vec!["x"]);
    let error = stat_parse_statement(&mut scope, "IF 0 = 1 THEN x:= 1; x:= 2").unwrap_err();
    assert!(matches!(error, ParseError::PrematureEof));
}

#[test]
fn can_parse_complete_if_expression() {
    let mut scope = stat_scope(vec!["x"]);
    let root_tree = stat_parse_statement(&mut scope, "IF 0 = 1 THEN x:= 1; x:= 2 END").unwrap();

    let mut root = ast::Path::root();
    assert!(matches!(root.follow(&root_tree).unwrap(), NodeInfo::IfStatement));

    let path = root.child();
    assert!(matches!(path.follow(&root_tree).unwrap(), NodeInfo::Expression(ExpressionOp::Eql)));

    let path = root.child().child();
    assert!(matches!(path.follow(&root_tree).unwrap(), NodeInfo::Constant(0)));

    let path = root.child().sibling();
    assert!(matches!(path.follow(&root_tree).unwrap(), NodeInfo::Constant(1)));

    let path = root.sibling();
    assert!(matches!(path.follow(&root_tree).unwrap(), NodeInfo::Then));

    let path = root.sibling().child();
    assert!(matches!(path.follow(&root_tree).unwrap(), NodeInfo::StatementSequence));

    let path = root.sibling().child().sibling();
    assert!(matches!(path.follow(&root_tree).unwrap(), NodeInfo::StatementSequence));
}

#[test]
fn fails_on_if_expression_with_incomplete_else() {
    let mut scope = stat_scope(vec!["x"]);
    let error = stat_parse_statement(&mut scope, "IF 0 = 1 THEN x:= 1; x:= 2 ELSE").unwrap_err();
    assert!(matches!(error, ParseError::PrematureEof));
}

#[test]
fn fails_on_if_expression_with_incomplete_else_statements() {
    let mut scope = stat_scope(vec!["x"]);
    let error = stat_parse_statement(&mut scope, "IF 0 = 1 THEN x:= 1; x:= 2 ELSE x:=3").unwrap_err();
    assert!(matches!(error, ParseError::PrematureEof));
}

#[test]
fn can_parse_complete_if_then_else_expression() {
    let mut scope = stat_scope(vec!["x"]);
    let root_tree = stat_parse_statement(&mut scope, "IF 0 = 1 THEN x:= 1 ELSE x:=2 END").unwrap();

    let mut root = ast::Path::root();
    assert!(matches!(root.follow(&root_tree).unwrap(), NodeInfo::IfStatement));

    let path = root.child();
    assert!(matches!(path.follow(&root_tree).unwrap(), NodeInfo::Expression(ExpressionOp::Eql)));

    let path = root.child().child();
    assert!(matches!(path.follow(&root_tree).unwrap(), NodeInfo::Constant(0)));

    let path = root.child().sibling();
    assert!(matches!(path.follow(&root_tree).unwrap(), NodeInfo::Constant(1)));

    let path = root.sibling();
    assert!(matches!(path.follow(&root_tree).unwrap(), NodeInfo::Then));

    let path = root.sibling().child();
    assert!(matches!(path.follow(&root_tree).unwrap(), NodeInfo::StatementSequence));

    let path = root.sibling().sibling();
    assert!(matches!(path.follow(&root_tree).unwrap(), NodeInfo::Else));

    let path = root.sibling().sibling().child();
    assert!(matches!(path.follow(&root_tree).unwrap(), NodeInfo::StatementSequence));

    let path = root.sibling().sibling().child().child();
    assert!(matches!(path.follow(&root_tree).unwrap(), NodeInfo::Assignement));
}

#[test]
fn can_parse_nested_if_then_else_expression() {
    let mut scope = stat_scope(vec!["x"]);
    let root_tree = stat_parse_statement(
        &mut scope,
        "
          IF 0 = 0 THEN
             IF 1 = 0 THEN
               x:= 1
             ELSE
               x:=2
             END
          ELSE
             x:= 3
          END",
    )
    .unwrap();

    println!("{:?}", root_tree);
}

#[test]
fn wtf_wtf_wt_fwt_f() {
    let mut scope = stat_scope(vec!["x"]);
    let root_tree = stat_parse_statement(
        &mut scope,
        "IF 0 = 1 THEN
        x:= 1
      ELSE
        IF 0 = 0 THEN
           x := 2;
           IF 0 = 0 THEN
             x := 3
           END
        ELSE
           x := 4
        END
      END",
    )
    .unwrap();

    println!("{:?}", root_tree);
}

#[test]
fn fails_on_invalid_while_expressions() {
    let mut scope = stat_scope(vec!["x"]);
    let mut error = stat_parse_statement(&mut scope, "WHILE").unwrap_err();
    assert!(matches!(error, ParseError::PrematureEof));

    error = stat_parse_statement(&mut scope, "WHILE 0").unwrap_err();
    assert!(matches!(error, ParseError::PrematureEof));

    error = stat_parse_statement(&mut scope, "WHILE 0 = 1").unwrap_err();
    assert!(matches!(error, ParseError::PrematureEof));

    error = stat_parse_statement(&mut scope, "WHILE 0 = 1 DO x:= 1; x:= 2").unwrap_err();
    assert!(matches!(error, ParseError::PrematureEof));
}

#[test]
fn can_parse_complete_while_expression() {
    let mut scope = stat_scope(vec!["x"]);
    let root_tree = stat_parse_statement(&mut scope, "WHILE 0 = 1 DO x:= 1; x:= 2 END").unwrap();

    let mut root = ast::Path::root();
    assert!(matches!(root.follow(&root_tree).unwrap(), NodeInfo::WhileStatement));

    let path = root.child();
    assert!(matches!(path.follow(&root_tree).unwrap(), NodeInfo::Expression(ExpressionOp::Eql)));

    let path = root.sibling();
    assert!(matches!(path.follow(&root_tree).unwrap(), NodeInfo::Do));

    let path = root.sibling().child();
    assert!(matches!(path.follow(&root_tree).unwrap(), NodeInfo::StatementSequence));
}

#[test]
fn dom_parser_reads_every_relation() {
    let mut scope = stat_scope(vec!["x"]);
    let cases = [
        ("=", ExpressionOp::Eql),
        ("#", ExpressionOp::Neq),
        ("<", ExpressionOp::Lss),
        ("<=", ExpressionOp::Leq),
        (">", ExpressionOp::Gtr),
        (">=", ExpressionOp::Geq),
    ];
    for (op, expected) in cases.iter() {
        let content = format!("WHILE x {} 1 DO x := 0 END", op);
        let root_tree = stat_parse_statement(&mut scope, &content).unwrap();
        let mut root = ast::Path::root();
        let path = root.child();
        assert_eq!(path.follow(&root_tree).unwrap(), &NodeInfo::Expression(*expected), "relation {}", op);
    }
}
