use wirth::dom_ast::ast;
use wirth::dom_ast::grammar::Continuation;
use wirth::dom_ast::parser;
use wirth::dom_ast::parser::{ParseError, ParseResult};
use wirth::dom_ast::scanner::Scanner;
use wirth::dom_ast::scope::{Scope, Symbol};
use wirth::dom_ast::token::ScanContext;
use wirth::dom_ast::tree::{NodeInfo, SimpleExpressionOp, TermOp, Tree, VarType};

fn expr_scope(symbols: Vec<&str>) -> Scope {
    let mut scope = Scope::new();
    for symbol in symbols {
        scope.add(symbol);
    }
    scope
}

fn expr_parse_statement(scope: &mut Scope, content: &str) -> ParseResult {
    let mut scanner = Scanner::new(content);
    parser::scan_next(&mut scanner)?;
    parser::parse_statement(&mut scanner, scope)
}

fn expr_parse_statement_sequence(scope: &mut Scope, content: &str) -> ParseResult {
    let mut scanner = Scanner::new(content);
    parser::scan_next(&mut scanner)?;
    parser::parse_statement_sequence(&mut scanner, scope)
}

fn expr_parse_factor(scope: &mut Scope, content: &str) -> ParseResult {
    let mut scanner = Scanner::new(content);
    parser::scan_next(&mut scanner)?;
    parser::parse_factor(&mut scanner, scope)
}

fn expr_parse_term(scope: &mut Scope, content: &str) -> ParseResult {
    let mut scanner = Scanner::new(content);
    parser::scan_next(&mut scanner)?;
    parser::parse_term(&mut scanner, scope)
}

fn expr_parse_simple_expression(scope: &mut Scope, content: &str) -> ParseResult {
    let mut scanner = Scanner::new(content);
    parser::scan_next(&mut scanner)?;
    parser::parse_simple_expression(&mut scanner, scope)
}

fn expr_parse_var_declarations(scope: &mut Scope, content: &str) -> ParseResult {
    let mut scanner = Scanner::new(content);
    // Advance to the "VAR"
    parser::scan_next(&mut scanner)?;
    // Consume the "VAR"
    parser::scan_next(&mut scanner)?;
    parser::parse_var_declarations(&mut scanner, scope, Continuation::Finish)
}

fn is_ident(info: &NodeInfo, name: &str) -> bool {
    matches!(info, NodeInfo::Ident(ident) if ident.name == name)
}

fn is_node(tree: &Tree) -> bool {
    matches!(tree, Tree::Node(_))
}

#[test]
fn parser_tests_fails_on_premature_eof() {
    let mut scope = expr_scope(vec!["x"]);
    for content in vec!["", "x", "x:="] {
        let tree = expr_parse_statement(&mut scope, content);
        assert!(matches!(tree.unwrap_err(), ParseError::PrematureEof), "Expected PrematureEof while parsing {}", content);
    }
}

#[test]
fn parser_tests_fails_on_scan_eof() {
    let mut scope = Scope::new();
    let tree = expr_parse_statement(&mut scope, " ❤");
    assert!(matches!(tree.unwrap_err(), ParseError::ScanError(_)));
}

#[test]
fn parser_tests_fails_parsing_statement_for_unknown_identifier() {
    let mut scope = Scope::new();
    let tree = expr_parse_statement(&mut scope, "y:=42");
    assert!(matches!(tree.unwrap_err(), ParseError::UndefinedSymbol(s) if s == "y"));
}

#[test]
fn parser_tests_can_parse_statement() {
    let mut scope = expr_scope(vec!["x"]);
    let tree = expr_parse_statement(&mut scope, "x:=42").unwrap();
    assert!(is_node(tree.as_ref()));

    assert_eq!(ast::info(&tree).unwrap(), &NodeInfo::Assignement);
    let child = ast::child(&tree).unwrap();
    assert!(is_node(child.as_ref()));
    assert!(is_ident(ast::info(child).unwrap(), "x"));

    let sibling = ast::sibling(&tree).unwrap();
    assert!(matches!(ast::info(sibling).unwrap(), NodeInfo::Constant(c) if *c == 42));
}

#[test]
fn parser_tests_can_parse_statement_sequence() {
    let mut scope = expr_scope(vec!["x", "y"]);
    let tree = expr_parse_statement_sequence(&mut scope, "x:=42;\ny:=x").unwrap();
    assert!(is_node(tree.as_ref()));

    assert_eq!(ast::info(&tree).unwrap(), &NodeInfo::StatementSequence);
    assert!(is_node(ast::child(&tree).unwrap().as_ref()));

    let first_assignment = ast::child(&tree).unwrap();
    assert!(matches!(ast::info(first_assignment).unwrap(), NodeInfo::Assignement));

    let second_statement = ast::sibling(&tree).unwrap();
    assert_eq!(ast::info(second_statement).unwrap(), &NodeInfo::StatementSequence);
    let second_assignment = ast::child(second_statement).unwrap();
    assert!(matches!(ast::info(second_assignment).unwrap(), NodeInfo::Assignement));
}

#[test]
fn parser_tests_can_parse_factor() {
    let mut scope = expr_scope(vec!["x", "y"]);
    let tree = expr_parse_factor(&mut scope, "42").unwrap();
    assert!(is_node(tree.as_ref()));
    assert_eq!(ast::info(&tree).unwrap(), &NodeInfo::Constant(42));

    let tree = expr_parse_factor(&mut scope, "x").unwrap();
    assert!(is_node(tree.as_ref()));
    assert!(is_ident(ast::info(&tree).unwrap(), "x"));
}

#[test]
fn parser_tests_can_parse_term_with_one_level() {
    let mut scope = expr_scope(vec!["x", "y"]);
    let tree = expr_parse_term(&mut scope, "x*42").unwrap();
    assert!(is_node(tree.as_ref()));
    assert_eq!(ast::info(&tree).unwrap(), &NodeInfo::Term(TermOp::Times));
    assert!(is_ident(ast::info(ast::child(&tree).unwrap()).unwrap(), "x"));
    assert_eq!(ast::info(ast::sibling(&tree).unwrap()).unwrap(), &NodeInfo::Constant(42));
}

#[test]
fn parser_tests_can_parse_term_with_multiple_operators() {
    let mut scope = expr_scope(vec!["x", "y"]);
    // NOTE: the tree here is a bit ambiguous, so the user will have to use parentheses.
    let tree = expr_parse_term(&mut scope, "x/42*y").unwrap();
    assert_eq!(ast::info(&tree).unwrap(), &NodeInfo::Term(TermOp::Times));

    let child = ast::child(&tree).unwrap();
    assert!(matches!(ast::info(child).unwrap(), NodeInfo::Term(TermOp::Div)));
    assert!(is_ident(ast::info(ast::child(child).unwrap()).unwrap(), "x"));
    assert!(is_ident(ast::info(ast::sibling(&tree).unwrap()).unwrap(), "y"));
}

#[test]
fn parser_tests_can_parse_simple_expression_with_one_level() {
    let mut scope = expr_scope(vec!["x", "y"]);
    let tree = expr_parse_simple_expression(&mut scope, "x*y+42").unwrap();
    assert!(is_node(tree.as_ref()));
    assert_eq!(ast::info(&tree).unwrap(), &NodeInfo::SimpleExpression(SimpleExpressionOp::Plus));
    assert!(matches!(ast::info(ast::child(&tree).unwrap()).unwrap(), NodeInfo::Term(TermOp::Times)));
    assert_eq!(ast::info(ast::sibling(&tree).unwrap()).unwrap(), &NodeInfo::Constant(42));
}

#[test]
fn parser_tests_can_parse_simple_expression_with_multiple_level() {
    let mut scope = expr_scope(vec!["x", "y"]);
    let tree = expr_parse_simple_expression(&mut scope, "x*y+42*13-12").unwrap();
    assert!(is_node(tree.as_ref()));
    assert_eq!(ast::info(&tree).unwrap(), &NodeInfo::SimpleExpression(SimpleExpressionOp::Minus));
    assert_eq!(
        ast::info(ast::child(&tree).unwrap()).unwrap(),
        &NodeInfo::SimpleExpression(SimpleExpressionOp::Plus)
    );
}

#[test]
fn parser_tests_can_parse_term_with_parens() {
    let mut scope = expr_scope(vec!["x", "y"]);
    let tree = expr_parse_term(&mut scope, "(x*42)").unwrap();
    assert!(is_node(tree.as_ref()));
    assert_eq!(ast::info(&tree).unwrap(), &NodeInfo::Term(TermOp::Times));
    assert!(is_ident(ast::info(ast::child(&tree).unwrap()).unwrap(), "x"));
    assert_eq!(ast::info(ast::sibling(&tree).unwrap()).unwrap(), &NodeInfo::Constant(42));
}

#[test]
fn parser_tests_fails_on_var_redeclaration() {
    let mut scope = Scope::new();
    scope.add("x");
    let tree = expr_parse_var_declarations(&mut scope, "VAR x: INTEGER;");
    assert!(matches!(tree, Err(ParseError::SymbolAlreadyDeclared(ident, ScanContext { line: 0, column: 4 })) if ident == "x"));
}

// The declarations come as the first child of a `Declarations` node.
#[test]
fn parser_tests_can_parse_single_var_declaration() {
    let mut scope = Scope::new();
    let declarations = expr_parse_var_declarations(&mut scope, "VAR x: INTEGER;").unwrap();
    let tree = ast::child(&declarations).unwrap();
    assert!(matches!(ast::info(tree).unwrap(), NodeInfo::Declaration));

    let mut root = ast::Path::root();
    let mut path = root.child();
    assert!(matches!(path.follow(tree).unwrap(), NodeInfo::Var));

    path = root.child().child();
    assert!(is_ident(path.follow(tree).unwrap(), "x"));

    path = root.child().sibling();
    assert!(matches!(path.follow(tree).unwrap(), NodeInfo::Type(VarType::Integer)));

    assert!(matches!(scope.lookup("x").unwrap().as_ref(), Symbol { name, .. } if name == "x"));
}

#[test]
fn parser_tests_can_parse_multiple_var_declaration() {
    let mut scope = Scope::new();
    let declarations = expr_parse_var_declarations(&mut scope, "VAR x,y: INTEGER;").unwrap();
    let tree = ast::child(&declarations).unwrap();
    assert!(matches!(ast::info(tree).unwrap(), NodeInfo::Declaration));

    let mut root = ast::Path::root();

    let mut path = root.child();
    assert!(matches!(path.follow(tree).unwrap(), NodeInfo::Var));

    path = root.child().child();
    assert!(is_ident(path.follow(tree).unwrap(), "x"));

    path = root.child().sibling();
    assert!(matches!(path.follow(tree).unwrap(), NodeInfo::Type(VarType::Integer)));

    path = root.sibling();
    assert!(matches!(path.follow(tree).unwrap(), NodeInfo::Declaration));

    path = root.sibling().child();
    assert!(matches!(path.follow(tree).unwrap(), NodeInfo::Var));

    path = root.sibling().child().child();
    assert!(is_ident(path.follow(tree).unwrap(), "y"));

    path = root.sibling().child().sibling();
    assert!(matches!(path.follow(tree).unwrap(), NodeInfo::Type(VarType::Integer)));
}

#[test]
fn misc_fails_on_premature_eof() {
    let mut scope = expr_scope(vec!["x"]);
    for content in &["", "x", "x:="] {
        let tree = expr_parse_statement(&mut scope, content);
        assert!(matches!(tree.unwrap_err(), ParseError::PrematureEof), "Expected PrematureEof while parsing {}", content);
    }
}

#[test]
fn misc_fails_on_scan_eof() {
    let mut scope = Scope::new();
    let tree = expr_parse_statement(&mut scope, " ❤");
    assert!(matches!(tree.unwrap_err(), ParseError::ScanError(_)));
}

#[test]
fn misc_fails_parsing_statement_for_unknown_identifier() {
    let mut scope = Scope::new();
    let tree = expr_parse_statement(&mut scope, "y:=42");
    assert!(matches!(tree.unwrap_err(), ParseError::UndefinedSymbol(s) if s == "y"));
}

#[test]
fn misc_can_parse_statement() {
    let mut scope = expr_scope(vec!["x"]);
    let root_tree = expr_parse_statement(&mut scope, "x:=42").unwrap();

    let mut root = ast::Path::root();
    assert!(matches!(root.follow(&root_tree).unwrap(), NodeInfo::Assignement));

    let path = root.child();
    assert!(is_ident(path.follow(&root_tree).unwrap(), "x"));

    let path = root.sibling();
    assert!(matches!(path.follow(&root_tree).unwrap(), NodeInfo::Constant(42)));
}

#[test]
fn misc_can_parse_statement_sequence() {
    let mut scope = expr_scope(vec!["x", "y"]);
    let root_tree = expr_parse_statement_sequence(&mut scope, "x:=42;\ny:=x").unwrap();

    let mut root = ast::Path::root();
    assert!(matches!(root.follow(&root_tree).unwrap(), NodeInfo::StatementSequence));

    let path = root.child();
    assert!(matches!(path.follow(&root_tree).unwrap(), NodeInfo::Assignement));

    let path = root.sibling();
    assert!(matches!(path.follow(&root_tree).unwrap(), NodeInfo::StatementSequence));

    let path = root.sibling().child();
    assert!(matches!(path.follow(&root_tree).unwrap(), NodeInfo::Assignement));
}

#[test]
fn misc_can_parse_factor() {
    let mut scope = expr_scope(vec!["x", "y"]);
    let tree = expr_parse_factor(&mut scope, "42").unwrap();
    assert!(matches!(ast::info(&tree).unwrap(), NodeInfo::Constant(42)));

    let tree = expr_parse_factor(&mut scope, "x").unwrap();
    assert!(is_ident(ast::info(&tree).unwrap(), "x"));
}

#[test]
fn can_parse_factor_with_constant_selector() {
    let mut scope = expr_scope(vec!["x"]);
    let tree = expr_parse_factor(&mut scope, "x[0]").unwrap();
    assert!(is_ident(ast::info(&tree).unwrap(), "x"));

    let mut root = ast::Path::root();
    let path = root.child();
    assert!(matches!(path.follow(&tree).unwrap(), NodeInfo::Constant(index) if *index == 0));
}

#[test]
fn can_parse_factor_with_variable_selector() {
    let mut scope = expr_scope(vec!["x", "i"]);
    let tree = expr_parse_factor(&mut scope, "x[i]").unwrap();
    assert!(is_ident(ast::info(&tree).unwrap(), "x"));

    let mut root = ast::Path::root();
    let path = root.child();
    assert!(is_ident(path.follow(&tree).unwrap(), "i"));
}

#[test]
fn misc_can_parse_term_with_one_level() {
    let mut scope = expr_scope(vec!["x", "y"]);
    let root_tree = expr_parse_term(&mut scope, "x*42").unwrap();

    let mut root = ast::Path::root();
    assert!(matches!(root.follow(&root_tree).unwrap(), NodeInfo::Term(TermOp::Times)));

    let path = root.child();
    assert!(is_ident(path.follow(&root_tree).unwrap(), "x"));

    let path = root.sibling();
    assert!(matches!(path.follow(&root_tree).unwrap(), NodeInfo::Constant(42)));
}

#[test]
fn misc_can_parse_term_with_multiple_operators() {
    let mut scope = expr_scope(vec!["x", "y"]);
    // NOTE: the tree here is a bit ambiguous, so the user will have to use parentheses.
    let root_tree = expr_parse_term(&mut scope, "x/42*y").unwrap();

    let mut root = ast::Path::root();
    assert!(matches!(root.follow(&root_tree).unwrap(), NodeInfo::Term(TermOp::Times)));

    let path = root.child();
    assert!(matches!(path.follow(&root_tree).unwrap(), NodeInfo::Term(TermOp::Div)));

    let path = root.child().child();
    assert!(is_ident(path.follow(&root_tree).unwrap(), "x"));

    let path = root.child().sibling();
    assert!(matches!(path.follow(&root_tree).unwrap(), NodeInfo::Constant(42)));

    let path = root.sibling();
    assert!(is_ident(path.follow(&root_tree).unwrap(), "y"));
}

#[test]
fn misc_can_parse_simple_expression_with_one_level() {
    let mut scope = expr_scope(vec!["x", "y"]);
    let root_tree = expr_parse_simple_expression(&mut scope, "x*y+42").unwrap();

    let mut root = ast::Path::root();
    assert!(matches!(root.follow(&root_tree).unwrap(), NodeInfo::SimpleExpression(SimpleExpressionOp::Plus)));

    let path = root.child();
    assert!(matches!(path.follow(&root_tree).unwrap(), NodeInfo::Term(TermOp::Times)));

    let path = root.sibling();
    assert!(matches!(path.follow(&root_tree).unwrap(), NodeInfo::Constant(42)));
}

#[test]
fn misc_can_parse_simple_expression_with_multiple_level() {
    let mut scope = expr_scope(vec!["x", "y"]);
    let root_tree = expr_parse_simple_expression(&mut scope, "x*y+42*13-12").unwrap();

    let mut root = ast::Path::root();
    assert!(matches!(root.follow(&root_tree).unwrap(), NodeInfo::SimpleExpression(SimpleExpressionOp::Minus)));

    let path = root.child();
    assert!(matches!(path.follow(&root_tree).unwrap(), NodeInfo::SimpleExpression(SimpleExpressionOp::Plus)));
}

#[test]
fn misc_can_parse_term_with_parens() {
    let mut scope = expr_scope(vec!["x", "y"]);
    let root_tree = expr_parse_term(&mut scope, "(x*42)").unwrap();

    let mut root = ast::Path::root();
    assert!(matches!(root.follow(&root_tree).unwrap(), NodeInfo::Term(TermOp::Times)));

    let path = root.child();
    assert!(is_ident(path.follow(&root_tree).unwrap(), "x"));

    let path = root.sibling();
    assert!(matches!(path.follow(&root_tree).unwrap(), NodeInfo::Constant(42)));
}

#[test]
fn dom_parser_reports_an_unexpected_token() {
    let mut scope = expr_scope(vec!["x"]);
    let tree = expr_parse_factor(&mut scope, ";");
    assert!(matches!(tree, Err(ParseError::UnexpectedToken(s)) if s.context == ScanContext { line: 0, column: 0 }));
}

#[test]
fn dom_parser_leaves_the_scope_alone_on_expressions() {
    let mut scope = expr_scope(vec!["x"]);
    let _ = expr_parse_simple_expression(&mut scope, "x+1");
    assert_eq!(scope.lookup("x").unwrap().adr, 0);
    assert!(scope.lookup("y").is_none());
}
