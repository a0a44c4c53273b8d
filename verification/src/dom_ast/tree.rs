//! Syntax trees whose nodes have a first child and a next sibling.

use vstd::prelude::*;

use std::rc::Rc;

use crate::dom_ast::scope::{Symbol, SymbolV};

verus! {

#[derive(Debug, Copy, Clone, PartialEq, Eq, Structural)]
pub enum TermOp {
    Times,
    Div,
}

#[derive(Debug, Copy, Clone, PartialEq, Eq, Structural)]
pub enum SimpleExpressionOp {
    Plus,
    Minus,
}

#[derive(Debug, Copy, Clone, PartialEq, Eq, Structural)]
pub enum ExpressionOp {
    Eql,
    Neq,
    Lss,
    Leq,
    Gtr,
    Geq,
}

#[derive(Debug, Copy, Clone, PartialEq, Eq, Structural)]
pub enum VarType {
    Integer,
    Array(u32),  // nested arrays and arrays of records are not represented
}

#[derive(Debug, PartialEq)]
pub enum NodeInfo {
    Module,
    Declarations,
    Declaration,
    Var,
    Type(VarType),
    StatementSequence,
    Assignement,
    Constant(u32),
    Ident(Rc<Symbol>),
    Term(TermOp),
    SimpleExpression(SimpleExpressionOp),
    Expression(ExpressionOp),
    IfStatement,
    Then,
    Else,
    WhileStatement,
    Do,
}

/// The information of a node, as a mathematical value.
pub enum Info {
    Module,
    Declarations,
    Declaration,
    Var,
    Type(VarType),
    StatementSequence,
    Assignement,
    Constant(u32),
    Ident(SymbolV),
    Term(TermOp),
    SimpleExpression(SimpleExpressionOp),
    Expression(ExpressionOp),
    IfStatement,
    Then,
    Else,
    WhileStatement,
    Do,
}

impl View for NodeInfo {
    type V = Info;

    open spec fn view(&self) -> Info {
        match self {
            NodeInfo::Module => Info::Module,
            NodeInfo::Declarations => Info::Declarations,
            NodeInfo::Declaration => Info::Declaration,
            NodeInfo::Var => Info::Var,
            NodeInfo::Type(t) => Info::Type(*t),
            NodeInfo::StatementSequence => Info::StatementSequence,
            NodeInfo::Assignement => Info::Assignement,
            NodeInfo::Constant(c) => Info::Constant(*c),
            NodeInfo::Ident(s) => Info::Ident((**s)@),
            NodeInfo::Term(o) => Info::Term(*o),
            NodeInfo::SimpleExpression(o) => Info::SimpleExpression(*o),
            NodeInfo::Expression(o) => Info::Expression(*o),
            NodeInfo::IfStatement => Info::IfStatement,
            NodeInfo::Then => Info::Then,
            NodeInfo::Else => Info::Else,
            NodeInfo::WhileStatement => Info::WhileStatement,
            NodeInfo::Do => Info::Do,
        }
    }
}

#[derive(Debug)]
pub struct TreeNode {
    pub info: NodeInfo,
    pub child: Rc<Tree>,
    pub sibling: Rc<Tree>,
}

#[derive(Debug)]
pub enum Tree {
    Node(TreeNode),
    Nil,
}

/// A tree as a mathematical value.
pub enum TreeV {
    Node(Info, Box<TreeV>, Box<TreeV>),
    Nil,
}

/// The view of a tree.
pub open spec fn tree_view(t: &Tree) -> TreeV
    decreases t,
{
    match t {
        Tree::Node(n) => TreeV::Node(n.info@, Box::new(tree_view(&*n.child)), Box::new(tree_view(&*n.sibling))),
        Tree::Nil => TreeV::Nil,
    }
}

impl View for Tree {
    type V = TreeV;

    open spec fn view(&self) -> TreeV {
        tree_view(self)
    }
}

} // verus!
