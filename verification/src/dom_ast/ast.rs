//! Building syntax trees, and walking them along paths of child and sibling
//! steps.

use vstd::prelude::*;

use std::collections::VecDeque;
use std::rc::Rc;

use crate::dom_ast::tree::{Info, NodeInfo, Tree, TreeNode, TreeV};

verus! {

pub type Ast = Rc<Tree>;

#[derive(Debug, Copy, Clone, PartialEq, Eq, Structural)]
pub enum PathDir {
    Child,
    Sibling,
}

pub struct Path {
    dirs: VecDeque<PathDir>,
}

impl View for Path {
    type V = Seq<PathDir>;

    closed spec fn view(&self) -> Seq<PathDir> {
        self.dirs@
    }
}

/// Following steps `dirs` from the top of `t`: the steps left when the walk
/// ends, and the information of the node reached, if it is one.
pub open spec fn follow_spec(dirs: Seq<PathDir>, t: TreeV) -> (Seq<PathDir>, Option<Info>)
    decreases dirs.len(),
{
    if dirs.len() == 0 {
        (
            dirs,
            match t {
                TreeV::Node(i, _, _) => Some(i),
                TreeV::Nil => None,
            },
        )
    } else {
        match t {
            TreeV::Node(_, c, s) => follow_spec(
                dirs.drop_first(),
                if dirs[0] == PathDir::Child {
                    *c
                } else {
                    *s
                },
            ),
            TreeV::Nil => (dirs.drop_first(), None),
        }
    }
}

impl Path {
    pub fn root() -> (p: Path)
        ensures
            p@ == Seq::<PathDir>::empty(),
    {
        Path { dirs: VecDeque::new() }
    }

    /// Adds a step to the first child.
    pub fn child(&mut self) -> (p: &mut Path)
        ensures
            p@ == old(self)@.push(PathDir::Child),
            *final(self) == *final(p),
    {
        self.dirs.push_back(PathDir::Child);
        self
    }

    /// Adds a step to the next sibling.
    pub fn sibling(&mut self) -> (p: &mut Path)
        ensures
            p@ == old(self)@.push(PathDir::Sibling),
            *final(self) == *final(p),
    {
        self.dirs.push_back(PathDir::Sibling);
        self
    }

    /// Walks the steps from the top of `ast`, using them up, and gives the
    /// information of the node reached.
    pub fn follow<'a>(&'a mut self, ast: &'a Ast) -> (r: Option<&'a NodeInfo>)
        ensures
            final(self)@ == follow_spec(old(self)@, (**ast)@).0,
            match r {
                Some(i) => follow_spec(old(self)@, (**ast)@).1 == Some(i@),
                None => follow_spec(old(self)@, (**ast)@).1 is None,
            },
        decreases old(self)@.len(),
    {
        match self.dirs.pop_front() {
            None => info(ast),
            Some(PathDir::Child) => match child(ast) {
                Some(c) => self.follow(c),
                None => None,
            },
            Some(PathDir::Sibling) => match sibling(ast) {
                Some(s) => self.follow(s),
                None => None,
            },
        }
    }
}

/// The empty tree.
pub fn empty() -> (t: Ast)
    ensures
        (*t)@ == TreeV::Nil,
{
    Rc::new(Tree::Nil)
}

/// The information at the top of a tree.
pub fn info(ast: &Ast) -> (r: Option<&NodeInfo>)
    ensures
        match r {
            Some(i) => (**ast)@ matches TreeV::Node(j, _, _) && j == i@,
            None => (**ast)@ is Nil,
        },
{
    match &**ast {
        Tree::Node(TreeNode { info, .. }) => Some(info),
        Tree::Nil => None,
    }
}

/// The next sibling of the top of a tree.
pub fn sibling(ast: &Ast) -> (r: Option<&Ast>)
    ensures
        match r {
            Some(s) => (**ast)@ matches TreeV::Node(_, _, t) && *t == (**s)@,
            None => (**ast)@ is Nil,
        },
{
    match &**ast {
        Tree::Node(TreeNode { sibling, .. }) => Some(sibling),
        Tree::Nil => None,
    }
}

/// The first child of the top of a tree.
pub fn child(ast: &Ast) -> (r: Option<&Ast>)
    ensures
        match r {
            Some(c) => (**ast)@ matches TreeV::Node(_, t, _) && *t == (**c)@,
            None => (**ast)@ is Nil,
        },
{
    match &**ast {
        Tree::Node(TreeNode { child, .. }) => Some(child),
        Tree::Nil => None,
    }
}

/// A node without child or sibling.
pub fn leaf(node_info: NodeInfo) -> (t: Ast)
    ensures
        (*t)@ == TreeV::Node(node_info@, Box::new(TreeV::Nil), Box::new(TreeV::Nil)),
{
    Rc::new(Tree::Node(TreeNode { info: node_info, child: empty(), sibling: empty() }))
}

/// A node with a first child and a next sibling.
pub fn node(node_info: NodeInfo, child: Ast, sibling: Ast) -> (t: Ast)
    ensures
        (*t)@ == TreeV::Node(node_info@, Box::new((*child)@), Box::new((*sibling)@)),
{
    Rc::new(Tree::Node(TreeNode { info: node_info, child, sibling }))
}

/// Whether a tree is empty.
pub fn is_empty(ast: &Ast) -> (b: bool)
    ensures
        b == ((**ast)@ is Nil),
{
    matches!(&**ast, Tree::Nil)
}

} // verus!
