use std::rc::Rc;

use wirth::bin_graph::{node_label, to_dot};
use wirth::dom_ast::ast;
use wirth::dom_ast::scope::Symbol;
use wirth::dom_ast::tree::{ExpressionOp, NodeInfo, SimpleExpressionOp, TermOp, VarType};

#[test]
fn is_empty_for_null() {
    let ast = ast::empty();
    assert_eq!("digraph G {\n}\n", to_dot(&ast))
}

#[test]
fn is_simple_graph() {
    // 2 * (42 * 10)
    let x = ast::leaf(NodeInfo::Constant(42));
    let y = ast::leaf(NodeInfo::Constant(10));
    let xy = ast::node(NodeInfo::SimpleExpression(SimpleExpressionOp::Plus), x, y);
    let z = ast::leaf(NodeInfo::Constant(2));
    let zxy = ast::node(NodeInfo::Term(TermOp::Times), z, xy);

    println!("{}", to_dot(&zxy));

    assert_eq!(
        "digraph G {
node0[label=\"*\"];
node1[label=\"2\"];
node0->node1;
node2[label=\"+\"];
node3[label=\"42\"];
node2->node3;
node4[label=\"10\"];
node2->node4;
node0->node2;
}
",
        to_dot(&zxy)
    );
}

#[test]
fn can_format_node_infos() {
    assert_eq!("Module", node_label(&NodeInfo::Module));

    assert_eq!("Declarations", node_label(&NodeInfo::Declarations));
    assert_eq!("Declaration", node_label(&NodeInfo::Declaration));
    assert_eq!("Var", node_label(&NodeInfo::Var));

    assert_eq!("*", node_label(&NodeInfo::Term(TermOp::Times)));
    assert_eq!("/", node_label(&NodeInfo::Term(TermOp::Div)));

    assert_eq!("+", node_label(&NodeInfo::SimpleExpression(SimpleExpressionOp::Plus)));
    assert_eq!("-", node_label(&NodeInfo::SimpleExpression(SimpleExpressionOp::Minus)));
    assert_eq!("If", node_label(&NodeInfo::IfStatement));
    assert_eq!("Then", node_label(&NodeInfo::Then));
    assert_eq!("Else", node_label(&NodeInfo::Else));
    assert_eq!("While", node_label(&NodeInfo::WhileStatement));
    assert_eq!("Do", node_label(&NodeInfo::Do));

    assert_eq!("Integer", node_label(&NodeInfo::Type(VarType::Integer)));
    assert_eq!("Array[10]", node_label(&NodeInfo::Type(VarType::Array(10))));

    assert_eq!("StatSeq", node_label(&NodeInfo::StatementSequence));

    assert_eq!(":=", node_label(&NodeInfo::Assignement));

    assert_eq!("=", node_label(&NodeInfo::Expression(ExpressionOp::Eql)));
    assert_eq!("!=", node_label(&NodeInfo::Expression(ExpressionOp::Neq)));
    assert_eq!("<", node_label(&NodeInfo::Expression(ExpressionOp::Lss)));
    assert_eq!("<=", node_label(&NodeInfo::Expression(ExpressionOp::Leq)));
    assert_eq!(">", node_label(&NodeInfo::Expression(ExpressionOp::Gtr)));
    assert_eq!(">=", node_label(&NodeInfo::Expression(ExpressionOp::Geq)));

    assert_eq!("42", node_label(&NodeInfo::Constant(42)));

    assert_eq!(
        "x",
        node_label(&NodeInfo::Ident(Rc::new(Symbol { name: "x".to_string(), adr: 0, size: 0 })))
    );
}

#[test]
fn bin_graph_numbers_zero_and_large_constants() {
    assert_eq!("0", node_label(&NodeInfo::Constant(0)));
    assert_eq!("4294967295", node_label(&NodeInfo::Constant(u32::MAX)));
    assert_eq!("Array[0]", node_label(&NodeInfo::Type(VarType::Array(0))));
}

#[test]
fn bin_graph_draws_a_chain_of_siblings() {
    let t = ast::node(NodeInfo::Var, ast::empty(), ast::leaf(NodeInfo::Constant(7)));
    assert_eq!("digraph G {\nnode0[label=\"Var\"];\nnode1[label=\"7\"];\nnode0->node1;\n}\n", to_dot(&t));
}

#[test]
fn bin_graph_counts_nodes_up_to_a_limit() {
    let x = ast::leaf(NodeInfo::Constant(42));
    let y = ast::leaf(NodeInfo::Constant(10));
    let xy = ast::node(NodeInfo::SimpleExpression(SimpleExpressionOp::Plus), x, y);
    assert_eq!(3, wirth::bin_graph::size_up_to(&xy, 100));
    assert_eq!(2, wirth::bin_graph::size_up_to(&xy, 2));
    assert_eq!(0, wirth::bin_graph::size_up_to(&ast::empty(), 100));
}

#[test]
fn bin_graph_draws_each_node_once_and_one_edge_less() {
    let x = ast::leaf(NodeInfo::Constant(42));
    let y = ast::leaf(NodeInfo::Constant(10));
    let xy = ast::node(NodeInfo::SimpleExpression(SimpleExpressionOp::Plus), x, y);
    let z = ast::leaf(NodeInfo::Constant(2));
    let zxy = ast::node(NodeInfo::Term(TermOp::Times), z, xy);
    let text = to_dot(&zxy);
    let lines: Vec<&str> = text.lines().collect();
    assert_eq!("digraph G {", lines[0]);
    assert_eq!("}", lines[lines.len() - 1]);
    let nodes: Vec<&&str> = lines.iter().filter(|l| l.contains("[label=")).collect();
    let edges = lines.iter().filter(|l| l.contains("->")).count();
    assert_eq!(5, nodes.len());
    assert_eq!(4, edges);
    for (k, l) in nodes.iter().enumerate() {
        assert!(l.starts_with(&format!("node{}[", k)));
    }
}
