use wirth::dom_ast::ast;
use wirth::dom_ast::grammar::Continuation;
use wirth::dom_ast::parser;
use wirth::dom_ast::parser::{ParseError, ParseResult};
use wirth::dom_ast::scanner::Scanner;
use wirth::dom_ast::scope::{Scope, Symbol};
use wirth::dom_ast::token::ScanContext;
use wirth::dom_ast::tree::{NodeInfo, VarType};

fn mod_scope(symbols: Vec<&str>) -> Scope {
    let mut scope = Scope::new();
    for symbol in symbols {
        scope.add(symbol);
    }
    scope
}

fn mod_parse_module(scope: &mut Scope, content: &str) -> ParseResult {
    let mut scanner = Scanner::new(content);
    parser::scan_next(&mut scanner).unwrap();
    parser::parse_module(&mut scanner, scope)
}

fn mod_parse_var_declarations(scope: &mut Scope, content: &str) -> ParseResult {
    let mut scanner = Scanner::new(content);
    // Advance to the "VAR"
    parser::scan_next(&mut scanner)?;
    // Consume the "VAR"
    parser::scan_next(&mut scanner)?;
    parser::parse_var_declarations(&mut scanner, scope, Continuation::Finish)
}

fn is_ident(info: &NodeInfo, name: &str) -> bool {
    matches!(info, NodeInfo::Ident(ident) if ident.name == name)
}

#[test]
fn can_not_parse_invalid_module() {
    let mut scope = Scope::new();
    let root_tree = mod_parse_module(&mut scope, "x");
    assert!(matches!(root_tree, Err(ParseError::UnexpectedToken(_))));
}

#[test]
fn can_not_redefine_module_name() {
    let mut scope = mod_scope(vec!["x"]);
    let root_tree = mod_parse_module(&mut scope, "MODULE x; END x.");
    assert!(matches!(root_tree, Err(ParseError::SymbolAlreadyDeclared(s, _)) if s == "x"));
}

#[test]
fn can_not_parse_module_without_ending() {
    let mut scope = Scope::new();
    let root_tree = mod_parse_module(&mut scope, "MODULE x;");
    assert!(matches!(root_tree, Err(ParseError::PrematureEof)));
}

#[test]
fn can_not_parse_module_with_invalid_ending_name() {
    let mut scope = Scope::new();
    let root_tree = mod_parse_module(&mut scope, "MODULE ModuleName; END OtherModuleName");
    assert!(matches!(root_tree, Err(ParseError::UnexpectedBlockEnding { expected, found }) if expected == "ModuleName" && found == "OtherModuleName"));
}

#[test]
fn can_not_parse_module_without_ending_period() {
    let mut scope = Scope::new();
    let root_tree = mod_parse_module(&mut scope, "MODULE ModuleName; END ModuleName");
    assert!(matches!(root_tree, Err(ParseError::PrematureEof)));
}

#[test]
fn can_not_parse_module_with_anything_after_the_period() {
    let mut scope = Scope::new();
    let root_tree = mod_parse_module(&mut scope, "MODULE ModuleName; END ModuleName. 42");
    assert!(matches!(root_tree, Err(ParseError::UnexpectedToken(_))));
}

#[test]
fn can_parse_module_without_declarations_or_body() {
    let mut scope = Scope::new();
    let root_tree = mod_parse_module(&mut scope, "MODULE ModuleName; END ModuleName.").unwrap();

    let mut root = ast::Path::root();
    assert!(matches!(root.follow(&root_tree).unwrap(), NodeInfo::Module));

    let path = root.child();
    assert!(is_ident(path.follow(&root_tree).unwrap(), "ModuleName"));

    let path = root.sibling();
    assert!(matches!(path.follow(&root_tree).unwrap(), NodeInfo::Declarations));

    assert!(ast::is_empty(ast::child(ast::sibling(&root_tree).unwrap()).unwrap()));
}

#[test]
fn can_parse_module_without_body() {
    let mut scope = Scope::new();
    let root_tree =
        mod_parse_module(&mut scope, "MODULE ModuleName; VAR x: INTEGER; y: INTEGER; END ModuleName.").unwrap();

    let mut root = ast::Path::root();
    assert!(matches!(root.follow(&root_tree).unwrap(), NodeInfo::Module));

    println!("{:?}", root_tree);

    let path = root.child();
    assert!(is_ident(path.follow(&root_tree).unwrap(), "ModuleName"));

    let path = root.sibling();
    assert!(matches!(path.follow(&root_tree).unwrap(), NodeInfo::Declarations));

    let path = root.sibling().child();
    assert!(matches!(path.follow(&root_tree).unwrap(), NodeInfo::Declaration));
}

#[test]
fn can_parse_module_wit_declarations_and_body() {
    let mut scope = Scope::new();
    let root_tree = mod_parse_module(
        &mut scope,
        "MODULE ModuleName; VAR x,y: INTEGER; z: INTEGER; BEGIN x:= 1; y:= 2 END ModuleName.",
    )
    .unwrap();

    let mut root = ast::Path::root();
    assert!(matches!(root.follow(&root_tree).unwrap(), NodeInfo::Module));

    let path = root.child();
    assert!(is_ident(path.follow(&root_tree).unwrap(), "ModuleName"));

    let path = root.sibling();
    assert!(matches!(path.follow(&root_tree).unwrap(), NodeInfo::Declarations));

    let path = root.sibling().child();
    assert!(matches!(path.follow(&root_tree).unwrap(), NodeInfo::Declaration));

    let path = root.sibling().child().sibling();
    assert!(matches!(path.follow(&root_tree).unwrap(), NodeInfo::Declaration));

    let path = root.sibling().sibling();
    assert!(matches!(path.follow(&root_tree).unwrap(), NodeInfo::StatementSequence));

    let path = root.sibling().sibling().child();
    assert!(matches!(path.follow(&root_tree).unwrap(), NodeInfo::Assignement));

    let path = root.sibling().sibling().sibling();
    assert!(matches!(path.follow(&root_tree).unwrap(), NodeInfo::StatementSequence));

    let path = root.sibling().sibling().sibling().child();
    assert!(matches!(path.follow(&root_tree).unwrap(), NodeInfo::Assignement));
}

#[test]
fn types_fails_on_var_redeclaration() {
    let mut scope = Scope::new();
    scope.add("x");
    let tree = mod_parse_var_declarations(&mut scope, "VAR x: INTEGER;");
    assert!(matches!(tree, Err(ParseError::SymbolAlreadyDeclared(ident, ScanContext { line: 0, column: 4 })) if ident == "x"));
}

#[test]
fn types_can_parse_single_var_declaration() {
    let mut scope = Scope::new();
    let tree = mod_parse_var_declarations(&mut scope, "VAR x: INTEGER;").unwrap();
    assert!(matches!(ast::info(&tree).unwrap(), NodeInfo::Declarations));

    let child_tree = ast::child(&tree).unwrap();
    let mut root = ast::Path::root();
    assert!(matches!(root.follow(child_tree).unwrap(), NodeInfo::Declaration));

    let mut path = root.child();
    assert!(matches!(path.follow(child_tree).unwrap(), NodeInfo::Var));

    path = root.child().child();
    assert!(is_ident(path.follow(child_tree).unwrap(), "x"));

    path = root.child().sibling();
    assert!(matches!(path.follow(child_tree).unwrap(), NodeInfo::Type(VarType::Integer)));

    assert!(matches!(scope.lookup("x").unwrap().as_ref(), Symbol { name, .. } if name == "x"));
}

#[test]
fn types_can_parse_multiple_var_declaration() {
    let mut scope = Scope::new();
    let root_tree = mod_parse_var_declarations(&mut scope, "VAR x,y: INTEGER;").unwrap();

    assert!(matches!(ast::info(&root_tree).unwrap(), NodeInfo::Declarations));

    let tree = ast::child(&root_tree).unwrap();
    let mut root = ast::Path::root();
    assert!(matches!(root.follow(tree).unwrap(), NodeInfo::Declaration));

    let mut path = root.child();
    assert!(matches!(path.follow(tree).unwrap(), NodeInfo::Var));

    path = root.child().child();
    assert!(is_ident(path.follow(tree).unwrap(), "x"));

    path = root.child().sibling();
    assert!(matches!(path.follow(tree).unwrap(), NodeInfo::Type(VarType::Integer)));

    path = root.sibling();
    assert!(matches!(path.follow(tree).unwrap(), NodeInfo::Declaration));

    path = root.sibling().child();
    assert!(matches!(path.follow(tree).unwrap(), NodeInfo::Var));

    path = root.sibling().child().child();
    assert!(is_ident(path.follow(tree).unwrap(), "y"));

    path = root.sibling().child().sibling();
    assert!(matches!(path.follow(tree).unwrap(), NodeInfo::Type(VarType::Integer)));
}

#[test]
fn can_parse_multiple_var_declarations() {
    let mut scope = Scope::new();

    let root_tree = mod_parse_var_declarations(&mut scope, "VAR x,y: INTEGER; z: INTEGER;").unwrap();
    assert!(matches!(ast::info(&root_tree).unwrap(), NodeInfo::Declarations));

    let tree = ast::child(&root_tree).unwrap();

    let mut root = ast::Path::root();
    assert!(matches!(root.follow(tree).unwrap(), NodeInfo::Declaration));

    let mut path = root.sibling();
    assert!(matches!(path.follow(tree).unwrap(), NodeInfo::Declaration));

    path = root.sibling().sibling();
    assert!(matches!(path.follow(tree).unwrap(), NodeInfo::Declaration));

    path = root.sibling().sibling().child();
    assert!(matches!(path.follow(tree).unwrap(), NodeInfo::Var));

    path = root.sibling().sibling().child().child();
    assert!(is_ident(path.follow(tree).unwrap(), "z"));
}

#[test]
fn can_parse_empty_declarations() {
    let mut scope = Scope::new();
    let mut scanner = Scanner::new("");

    let root_tree = parser::parse_declarations(&mut scanner, &mut scope, Continuation::Finish).unwrap();
    assert!(matches!(ast::info(&root_tree).unwrap(), NodeInfo::Declarations));

    assert!(ast::is_empty(ast::child(&root_tree).unwrap()));
}

#[test]
fn can_parse_declarations() {
    let mut scope = Scope::new();
    let mut scanner = Scanner::new("VAR x,y: INTEGER;");
    parser::scan_next(&mut scanner).unwrap();
    let root_tree = parser::parse_declarations(&mut scanner, &mut scope, Continuation::Finish).unwrap();
    assert!(matches!(ast::info(&root_tree).unwrap(), NodeInfo::Declarations));
    assert!(!ast::is_empty(ast::child(&root_tree).unwrap()));
}

#[test]
fn fails_on_incomplete_array_declaration() {
    let mut scope = mod_scope(vec![]);
    let mut error = mod_parse_var_declarations(&mut scope, "VAR a: ARRAY").unwrap_err();
    assert!(matches!(error, ParseError::PrematureEof));
    error = mod_parse_var_declarations(&mut scope, "VAR a: ARRAY 4").unwrap_err();
    assert!(matches!(error, ParseError::PrematureEof));
    error = mod_parse_var_declarations(&mut scope, "VAR a: ARRAY 4 OF").unwrap_err();
    assert!(matches!(error, ParseError::PrematureEof));
}

#[test]
fn can_parse_single_array_declaration() {
    let mut scope = mod_scope(vec![]);
    let tree = mod_parse_var_declarations(&mut scope, "VAR a: ARRAY 4 OF INTEGER;").unwrap();

    assert!(matches!(ast::info(&tree).unwrap(), NodeInfo::Declarations));

    let child_tree = ast::child(&tree).unwrap();
    let mut root = ast::Path::root();
    assert!(matches!(root.follow(child_tree).unwrap(), NodeInfo::Declaration));

    let mut path = root.child();
    assert!(matches!(path.follow(child_tree).unwrap(), NodeInfo::Var));

    path = root.child().child();
    assert!(is_ident(path.follow(child_tree).unwrap(), "a"));

    path = root.child().sibling();
    assert!(matches!(path.follow(child_tree).unwrap(), NodeInfo::Type(VarType::Array(capacity)) if *capacity == 4));

    assert!(matches!(scope.lookup("a").unwrap().as_ref(), Symbol { name, size, .. } if name == "a" && *size == 4));
}

#[test]
fn dom_parser_module_declares_its_variables_in_order() {
    let mut scope = Scope::new();
    let _ = mod_parse_module(&mut scope, "MODULE M; VAR a: ARRAY 3 OF INTEGER; b: INTEGER; END M.").unwrap();
    assert_eq!(scope.lookup("M").unwrap().adr, 0);
    assert_eq!(scope.lookup("a").unwrap().adr, 1);
    assert_eq!(scope.lookup("a").unwrap().size, 3);
    assert_eq!(scope.lookup("b").unwrap().adr, 4);
}

#[test]
fn dom_build_ast_parses_a_whole_module() {
    let text = "MODULE M; VAR x: INTEGER; BEGIN x := 1 END M.";
    assert!(parser::numbers_fit_in(text));
    assert!(parser::room_for_symbols(text));
    let tree = parser::build_ast(text).unwrap();
    assert!(matches!(ast::info(&tree).unwrap(), NodeInfo::Module));
    assert!(matches!(parser::build_ast("MODULE M; END N."), Err(ParseError::UnexpectedBlockEnding { .. })));
    assert!(matches!(parser::build_ast(" ❤"), Err(ParseError::ScanError(_))));
}

#[test]
fn dom_numbers_fit_in_finds_numbers_too_large() {
    assert!(parser::numbers_fit_in("x := 4294967295"));
    assert!(!parser::numbers_fit_in("x := 1;\ny := 4294967296"));
}

#[test]
fn dom_room_for_symbols_weighs_numbers_against_the_text() {
    assert!(parser::room_for_symbols("VAR a: ARRAY 4294967295 OF INTEGER;"));
    assert!(!parser::room_for_symbols("VAR a: ARRAY 4294967296 OF INTEGER;"));
    assert!(parser::room_for_symbols(""));
}
