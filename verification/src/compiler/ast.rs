//! Syntax trees whose nodes have a first child and a next sibling, and
//! refer to the symbols of a scope.

use vstd::prelude::*;

use std::rc::Rc;

use crate::compiler::scope::Symbol;

verus! {

#[derive(Debug, PartialEq)]
pub enum NodeInfo<'a> {
    StatementSequence,
    Assignement,
    Constant(u32),
    Ident(&'a Symbol),
}

#[derive(Debug)]
pub struct Node<'a> {
    pub info: NodeInfo<'a>,
    pub child: Rc<Tree<'a>>,
    pub sibling: Rc<Tree<'a>>,
}

#[derive(Debug)]
pub enum Tree<'a> {
    Node(Node<'a>),
    Nil,
}

/// The information of a node, as a mathematical value: a symbol is seen by
/// its name.
pub enum Info {
    StatementSequence,
    Assignement,
    Constant(u32),
    Ident(Seq<char>),
}

impl<'a> View for NodeInfo<'a> {
    type V = Info;

    open spec fn view(&self) -> Info {
        match self {
            NodeInfo::StatementSequence => Info::StatementSequence,
            NodeInfo::Assignement => Info::Assignement,
            NodeInfo::Constant(c) => Info::Constant(*c),
            NodeInfo::Ident(s) => Info::Ident(s.name@),
        }
    }
}

/// A tree as a mathematical value.
pub enum TreeV {
    Node(Info, Box<TreeV>, Box<TreeV>),
    Nil,
}

/// The view of a tree.
pub open spec fn tree_view<'a>(t: &Tree<'a>) -> TreeV
    decreases t,
{
    match t {
        Tree::Node(n) => TreeV::Node(n.info@, Box::new(tree_view(&*n.child)), Box::new(tree_view(&*n.sibling))),
        Tree::Nil => TreeV::Nil,
    }
}

impl<'a> View for Tree<'a> {
    type V = TreeV;

    open spec fn view(&self) -> TreeV {
        tree_view(self)
    }
}

impl<'a> Node<'a> {
    /// A leaf for the symbol.
    pub fn ident(symbol: &'a Symbol) -> (n: Node<'a>)
        ensures
            n.info == NodeInfo::Ident(symbol),
            *n.child == Tree::Nil,
            *n.sibling == Tree::Nil,
    {
        Node { info: NodeInfo::Ident(symbol), child: Rc::new(Tree::Nil), sibling: Rc::new(Tree::Nil) }
    }

    /// A leaf for the constant.
    pub fn constant(c: u32) -> (n: Node<'a>)
        ensures
            n.info == NodeInfo::Constant(c),
            *n.child == Tree::Nil,
            *n.sibling == Tree::Nil,
    {
        Node { info: NodeInfo::Constant(c), child: Rc::new(Tree::Nil), sibling: Rc::new(Tree::Nil) }
    }
}

impl<'a> Tree<'a> {
    /// The node at the top of a tree, unless it is empty.
    pub fn get_node(tree: &'a Rc<Tree<'a>>) -> (r: Option<&'a Node<'a>>)
        ensures
            match r {
                Some(n) => **tree == Tree::Node(*n),
                None => **tree == Tree::Nil,
            },
    {
        match &**tree {
            Tree::Node(node) => Some(node),
            Tree::Nil => None,
        }
    }
}

} // verus!
