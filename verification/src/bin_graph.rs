//! Drawing syntax trees as Graphviz graphs.
//!
//! Nodes are numbered in the order the drawing reaches them, depth first,
//! children before siblings; each node has an edge to its first child and
//! one to its next sibling.

use vstd::prelude::*;

use crate::dom_ast::ast::Ast;
use crate::dom_ast::tree::{ExpressionOp, Info, NodeInfo, SimpleExpressionOp, TermOp, Tree, TreeV, VarType};
use crate::text::{chars_of, string_from_chars};

verus! {

/// The character of a decimal digit.
pub open spec fn digit_char(d: nat) -> char {
    if d == 0 {
        '0'
    } else if d == 1 {
        '1'
    } else if d == 2 {
        '2'
    } else if d == 3 {
        '3'
    } else if d == 4 {
        '4'
    } else if d == 5 {
        '5'
    } else if d == 6 {
        '6'
    } else if d == 7 {
        '7'
    } else if d == 8 {
        '8'
    } else {
        '9'
    }
}

/// `n` written in decimal.
pub open spec fn decimal(n: nat) -> Seq<char>
    decreases n,
{
    if n < 10 {
        seq![digit_char(n)]
    } else {
        decimal(n / 10).push(digit_char(n % 10))
    }
}

/// The label of a node.
pub open spec fn label(i: Info) -> Seq<char> {
    match i {
        Info::Constant(n) => decimal(n as nat),
        Info::Term(TermOp::Times) => "*"@,
        Info::Term(TermOp::Div) => "/"@,
        Info::SimpleExpression(SimpleExpressionOp::Plus) => "+"@,
        Info::SimpleExpression(SimpleExpressionOp::Minus) => "-"@,
        Info::Module => "Module"@,
        Info::Declaration => "Declaration"@,
        Info::Declarations => "Declarations"@,
        Info::Var => "Var"@,
        Info::IfStatement => "If"@,
        Info::Then => "Then"@,
        Info::Else => "Else"@,
        Info::WhileStatement => "While"@,
        Info::Do => "Do"@,
        Info::StatementSequence => "StatSeq"@,
        Info::Type(VarType::Integer) => "Integer"@,
        Info::Type(VarType::Array(n)) => "Array["@ + decimal(n as nat) + "]"@,
        Info::Assignement => ":="@,
        Info::Expression(ExpressionOp::Eql) => "="@,
        Info::Expression(ExpressionOp::Neq) => "!="@,
        Info::Expression(ExpressionOp::Lss) => "<"@,
        Info::Expression(ExpressionOp::Leq) => "<="@,
        Info::Expression(ExpressionOp::Gtr) => ">"@,
        Info::Expression(ExpressionOp::Geq) => ">="@,
        Info::Ident(s) => s.name,
    }
}

/// The line declaring node `id` with its label.
pub open spec fn node_line(id: nat, i: Info) -> Seq<char> {
    "node"@ + decimal(id) + "[label=\""@ + label(i) + "\"];\n"@
}

/// The line of an edge from node `from` to node `to`.
pub open spec fn edge_line(from: nat, to: nat) -> Seq<char> {
    "node"@ + decimal(from) + "->node"@ + decimal(to) + ";\n"@
}

/// The lines that draw `t`, whose top gets number `n`, and the number of
/// nodes numbered once it is drawn.
pub open spec fn dot_lines(t: TreeV, n: nat) -> (Seq<char>, nat)
    decreases t,
{
    match t {
        TreeV::Nil => (Seq::empty(), n),
        TreeV::Node(i, c, s) => {
            let (child_lines, n1) = match *c {
                TreeV::Nil => (Seq::<char>::empty(), n),
                _ => {
                    let (l, m) = dot_lines(*c, n + 1);
                    (l + edge_line(n, n + 1), m)
                },
            };
            let (sibling_lines, n2) = match *s {
                TreeV::Nil => (Seq::<char>::empty(), n1),
                _ => {
                    let (l, m) = dot_lines(*s, n1 + 1);
                    (l + edge_line(n, n1 + 1), m)
                },
            };
            (node_line(n, i) + child_lines + sibling_lines, n2)
        },
    }
}

/// The number of nodes of a tree.
pub open spec fn size(t: TreeV) -> nat
    decreases t,
{
    match t {
        TreeV::Nil => 0,
        TreeV::Node(_, c, s) => 1 + size(*c) + size(*s),
    }
}

/// The Graphviz text of a tree.
pub open spec fn dot(t: TreeV) -> Seq<char> {
    "digraph G {\n"@ + dot_lines(t, 0).0 + "}\n"@
}

fn digit_char_exec(d: u64) -> (c: char)
    requires
        d < 10,
    ensures
        c == digit_char(d as nat),
{
    if d == 0 {
        '0'
    } else if d == 1 {
        '1'
    } else if d == 2 {
        '2'
    } else if d == 3 {
        '3'
    } else if d == 4 {
        '4'
    } else if d == 5 {
        '5'
    } else if d == 6 {
        '6'
    } else if d == 7 {
        '7'
    } else if d == 8 {
        '8'
    } else {
        '9'
    }
}

/// Appends `n` in decimal to `out`.
fn push_decimal(out: &mut Vec<char>, n: u64)
    ensures
        final(out)@ == old(out)@ + decimal(n as nat),
    decreases n,
{
    if n < 10 {
        out.push(digit_char_exec(n));
    } else {
        push_decimal(out, n / 10);
        out.push(digit_char_exec(n % 10));
        assert(decimal(n as nat) == decimal((n / 10) as nat).push(digit_char((n % 10) as nat)));
    }
}

/// Appends the characters of `s` to `out`.
fn push_str(out: &mut Vec<char>, s: &str)
    ensures
        final(out)@ == old(out)@ + s@,
{
    let v = chars_of(s);
    let mut i: usize = 0;
    while i < v.len()
        invariant
            i <= v.len(),
            v@ == s@,
            out@ == old(out)@ + v@.take(i as int),
        decreases v.len() - i,
    {
        out.push(v[i]);
        i = i + 1;
        assert(out@ =~= old(out)@ + v@.take(i as int));
    }
    assert(v@.take(i as int) =~= v@);
}

/// The label of a node.
pub fn node_label(node_info: &NodeInfo) -> (s: String)
    ensures
        s@ == label(node_info@),
{
    let mut out: Vec<char> = Vec::new();
    push_label(&mut out, node_info);
    assert(out@ =~= label(node_info@));
    string_from_chars(&out)
}

/// Appends the label of a node to `out`.
fn push_label(out: &mut Vec<char>, node_info: &NodeInfo)
    ensures
        final(out)@ == old(out)@ + label(node_info@),
{
    match node_info {
        NodeInfo::Constant(number) => push_decimal(out, *number as u64),
        NodeInfo::Term(TermOp::Times) => push_str(out, "*"),
        NodeInfo::Term(TermOp::Div) => push_str(out, "/"),
        NodeInfo::SimpleExpression(SimpleExpressionOp::Plus) => push_str(out, "+"),
        NodeInfo::SimpleExpression(SimpleExpressionOp::Minus) => push_str(out, "-"),
        NodeInfo::Module => push_str(out, "Module"),
        NodeInfo::Declaration => push_str(out, "Declaration"),
        NodeInfo::Declarations => push_str(out, "Declarations"),
        NodeInfo::Var => push_str(out, "Var"),
        NodeInfo::IfStatement => push_str(out, "If"),
        NodeInfo::Then => push_str(out, "Then"),
        NodeInfo::Else => push_str(out, "Else"),
        NodeInfo::WhileStatement => push_str(out, "While"),
        NodeInfo::Do => push_str(out, "Do"),
        NodeInfo::StatementSequence => push_str(out, "StatSeq"),
        NodeInfo::Type(VarType::Integer) => push_str(out, "Integer"),
        NodeInfo::Type(VarType::Array(n)) => {
            push_str(out, "Array[");
            push_decimal(out, *n as u64);
            push_str(out, "]");
            assert(out@ =~= old(out)@ + label(node_info@));
        },
        NodeInfo::Assignement => push_str(out, ":="),
        NodeInfo::Expression(ExpressionOp::Eql) => push_str(out, "="),
        NodeInfo::Expression(ExpressionOp::Neq) => push_str(out, "!="),
        NodeInfo::Expression(ExpressionOp::Lss) => push_str(out, "<"),
        NodeInfo::Expression(ExpressionOp::Leq) => push_str(out, "<="),
        NodeInfo::Expression(ExpressionOp::Gtr) => push_str(out, ">"),
        NodeInfo::Expression(ExpressionOp::Geq) => push_str(out, ">="),
        NodeInfo::Ident(ident) => push_str(out, ident.name.as_str()),
    }
}

/// Appends the line of an edge.
fn push_edge(out: &mut Vec<char>, from: u64, to: u64)
    ensures
        final(out)@ == old(out)@ + edge_line(from as nat, to as nat),
{
    push_str(out, "node");
    push_decimal(out, from);
    push_str(out, "->node");
    push_decimal(out, to);
    push_str(out, ";\n");
    assert(final(out)@ =~= old(out)@ + edge_line(from as nat, to as nat));
}

/// Drawing a tree numbers each of its nodes once: after the top, numbered
/// `n`, the last number given is `n + size - 1`.
pub proof fn lemma_dot_lines_count(t: TreeV, n: nat)
    ensures
        dot_lines(t, n).1 == (if t is Nil { n as int } else { n + size(t) - 1 }),
    decreases t,
{
    match t {
        TreeV::Nil => {},
        TreeV::Node(i, c, s) => {
            lemma_dot_lines_count(*c, n + 1);
            let n1 = match *c {
                TreeV::Nil => n,
                _ => dot_lines(*c, n + 1).1,
            };
            lemma_dot_lines_count(*s, n1 + 1);
        },
    }
}

/// Appends the lines that draw `ast`, whose top gets number `*grow`, and
/// counts the nodes it numbers in `grow`.
#[verifier::spinoff_prover]
#[verifier::rlimit(40)]
fn push_strings(s: &mut Vec<char>, ast: &Ast, grow: &mut u64)
    requires
        *old(grow) + size((**ast)@) < u32::MAX,
    ensures
        final(s)@ == old(s)@ + dot_lines((**ast)@, *old(grow) as nat).0,
        *final(grow) == dot_lines((**ast)@, *old(grow) as nat).1,
    decreases (**ast)@,
{
    let ghost n = *grow as nat;
    match &**ast {
        Tree::Nil => {
            assert(s@ =~= old(s)@ + Seq::<char>::empty());
        },
        Tree::Node(node) => {
            let ghost c = (*node.child)@;
            let ghost sib = (*node.sibling)@;
            proof {
                lemma_dot_lines_count(c, n + 1);
            }
            let node_id = *grow;
            push_str(s, "node");
            push_decimal(s, node_id);
            push_str(s, "[label=\"");
            push_label(s, &node.info);
            push_str(s, "\"];\n");
            let ghost after_head = s@;
            assert(after_head =~= old(s)@ + node_line(n, node.info@));
            if !crate::dom_ast::ast::is_empty(&node.child) {
                let l = *grow;
                *grow = *grow + 1;
                push_strings(s, &node.child, grow);
                push_edge(s, node_id, l + 1);
            }
            let ghost n1: nat = match c {
                TreeV::Nil => n,
                _ => dot_lines(c, n + 1).1,
            };
            let ghost cl: Seq<char> = match c {
                TreeV::Nil => Seq::<char>::empty(),
                _ => dot_lines(c, n + 1).0 + edge_line(n, n + 1),
            };
            assert(s@ =~= after_head + cl);
            assert(*grow == n1);
            let ghost after_child = s@;
            proof {
                lemma_dot_lines_count(sib, n1 + 1);
            }
            if !crate::dom_ast::ast::is_empty(&node.sibling) {
                let l = *grow;
                *grow = *grow + 1;
                push_strings(s, &node.sibling, grow);
                push_edge(s, node_id, l + 1);
            }
            let ghost sl: Seq<char> = match sib {
                TreeV::Nil => Seq::<char>::empty(),
                _ => dot_lines(sib, n1 + 1).0 + edge_line(n, n1 + 1),
            };
            assert(s@ =~= after_child + sl);
            assert(s@ =~= old(s)@ + dot_lines((**ast)@, n).0);
        },
    }
}

/// The number of nodes of a tree, or `limit` where it has at least that
/// many (`to_dot` draws trees of fewer than `u32::MAX` nodes).
pub fn size_up_to(ast: &Ast, limit: u64) -> (n: u64)
    ensures
        n == (if size((**ast)@) < limit {
            size((**ast)@)
        } else {
            limit as nat
        }),
    decreases (**ast)@,
{
    match &**ast {
        Tree::Nil => 0,
        Tree::Node(node) => {
            if limit == 0 {
                return 0;
            }
            let ghost t = (**ast)@;
            assert(decreases_to!(t => *t->Node_1));
            assert(decreases_to!(t => *t->Node_2));
            let c = size_up_to(&node.child, limit - 1);
            if c == limit - 1 {
                return limit;
            }
            let s = size_up_to(&node.sibling, limit - 1 - c);
            1 + c + s
        },
    }
}

/// The Graphviz text of a tree.
pub fn to_dot(ast: &Ast) -> (r: String)
    requires
        size((**ast)@) < u32::MAX,
    ensures
        r@ == dot((**ast)@),
{
    let mut s: Vec<char> = Vec::new();
    push_str(&mut s, "digraph G {\n");
    let mut grow: u64 = 0;
    push_strings(&mut s, ast, &mut grow);
    push_str(&mut s, "}\n");
    assert(s@ =~= dot((**ast)@));
    string_from_chars(&s)
}

/// A line of the drawing: a node with its number and label, or an edge
/// between two numbered nodes.
pub enum DotLine {
    Node(nat, Info),
    Edge(nat, nat),
}

/// The text of a line of the drawing.
pub open spec fn line_text(d: DotLine) -> Seq<char> {
    match d {
        DotLine::Node(id, i) => node_line(id, i),
        DotLine::Edge(from, to) => edge_line(from, to),
    }
}

/// The text of lines of the drawing, one after the other.
pub open spec fn render(ds: Seq<DotLine>) -> Seq<char>
    decreases ds.len(),
{
    if ds.len() == 0 {
        Seq::empty()
    } else {
        line_text(ds[0]) + render(ds.drop_first())
    }
}

/// The lines that draw `t`, whose top gets number `n`: the top node, then
/// the child's subtree and the edge to it, then the sibling's subtree and
/// the edge to it.
pub open spec fn dot_items(t: TreeV, n: nat) -> Seq<DotLine>
    decreases t,
{
    match t {
        TreeV::Nil => Seq::empty(),
        TreeV::Node(i, c, s) => {
            let child_items = match *c {
                TreeV::Nil => Seq::empty(),
                _ => dot_items(*c, n + 1).push(DotLine::Edge(n, n + 1)),
            };
            let n1 = n + size(*c);
            let sibling_items = match *s {
                TreeV::Nil => Seq::empty(),
                _ => dot_items(*s, n1 + 1).push(DotLine::Edge(n, n1 + 1)),
            };
            seq![DotLine::Node(n, i)] + child_items + sibling_items
        },
    }
}

/// The information of the nodes of a tree in pre-order: a node, then its
/// child's subtree, then its sibling's subtree.
pub open spec fn preorder(t: TreeV) -> Seq<Info>
    decreases t,
{
    match t {
        TreeV::Nil => Seq::empty(),
        TreeV::Node(i, c, s) => seq![i] + preorder(*c) + preorder(*s),
    }
}

/// The nodes among lines of the drawing, in order, with their numbers.
pub open spec fn node_items(ds: Seq<DotLine>) -> Seq<(nat, Info)>
    decreases ds.len(),
{
    if ds.len() == 0 {
        Seq::empty()
    } else {
        let rest = node_items(ds.drop_first());
        match ds[0] {
            DotLine::Node(id, i) => seq![(id, i)] + rest,
            DotLine::Edge(_, _) => rest,
        }
    }
}

/// The edges among lines of the drawing, in order.
pub open spec fn edge_items(ds: Seq<DotLine>) -> Seq<(nat, nat)>
    decreases ds.len(),
{
    if ds.len() == 0 {
        Seq::empty()
    } else {
        let rest = edge_items(ds.drop_first());
        match ds[0] {
            DotLine::Node(_, _) => rest,
            DotLine::Edge(from, to) => seq![(from, to)] + rest,
        }
    }
}

/// Each item of `infos`, numbered from `n`.
pub open spec fn numbered(infos: Seq<Info>, n: nat) -> Seq<(nat, Info)> {
    Seq::new(infos.len(), |k: int| ((n + k) as nat, infos[k]))
}

proof fn lemma_items_append(a: Seq<DotLine>, b: Seq<DotLine>)
    ensures
        render(a + b) == render(a) + render(b),
        node_items(a + b) == node_items(a) + node_items(b),
        edge_items(a + b) == edge_items(a) + edge_items(b),
    decreases a.len(),
{
    if a.len() == 0 {
        assert(a + b =~= b);
        assert(render(a) + render(b) =~= render(b));
        assert(node_items(a) + node_items(b) =~= node_items(b));
        assert(edge_items(a) + edge_items(b) =~= edge_items(b));
    } else {
        lemma_items_append(a.drop_first(), b);
        assert((a + b).drop_first() =~= a.drop_first() + b);
        assert(render(a + b) =~= render(a) + render(b));
        assert(node_items(a + b) =~= node_items(a) + node_items(b));
        assert(edge_items(a + b) =~= edge_items(a) + edge_items(b));
    }
}

proof fn lemma_edge_item(from: nat, to: nat)
    ensures
        render(seq![DotLine::Edge(from, to)]) == edge_line(from, to),
        node_items(seq![DotLine::Edge(from, to)]) == Seq::<(nat, Info)>::empty(),
        edge_items(seq![DotLine::Edge(from, to)]) == seq![(from, to)],
{
    let d = seq![DotLine::Edge(from, to)];
    assert(d.drop_first() =~= Seq::<DotLine>::empty());
    assert(d[0] == DotLine::Edge(from, to));
    assert(render(d.drop_first()) == Seq::<char>::empty());
    assert(edge_items(d.drop_first()) == Seq::<(nat, nat)>::empty());
    assert(node_items(d.drop_first()) == Seq::<(nat, Info)>::empty());
    assert(render(d) =~= edge_line(from, to));
    assert(edge_items(d) =~= seq![(from, to)]);
}

proof fn lemma_node_item(id: nat, i: Info)
    ensures
        render(seq![DotLine::Node(id, i)]) == node_line(id, i),
        node_items(seq![DotLine::Node(id, i)]) == seq![(id, i)],
        edge_items(seq![DotLine::Node(id, i)]) == Seq::<(nat, nat)>::empty(),
{
    let d = seq![DotLine::Node(id, i)];
    assert(d.drop_first() =~= Seq::<DotLine>::empty());
    assert(d[0] == DotLine::Node(id, i));
    assert(render(d.drop_first()) == Seq::<char>::empty());
    assert(edge_items(d.drop_first()) == Seq::<(nat, nat)>::empty());
    assert(node_items(d.drop_first()) == Seq::<(nat, Info)>::empty());
    assert(render(d) =~= node_line(id, i));
    assert(node_items(d) =~= seq![(id, i)]);
}

/// The lines that draw a tree with its top numbered `n`: their text is the
/// drawing's; the nodes are those of the tree in pre-order, numbered from
/// `n` on; there is one edge less than nodes, each from a node to one
/// numbered after it.
pub proof fn lemma_dot_items(t: TreeV, n: nat)
    ensures
        dot_lines(t, n).0 == render(dot_items(t, n)),
        preorder(t).len() == size(t),
        node_items(dot_items(t, n)) == numbered(preorder(t), n),
        edge_items(dot_items(t, n)).len() == (if t is Nil { 0 } else { size(t) - 1 }),
        forall|k: int|
            0 <= k < edge_items(dot_items(t, n)).len() ==> n <= (#[trigger] edge_items(dot_items(t, n))[k]).0
                < edge_items(dot_items(t, n))[k].1 < n + size(t),
    decreases t,
{
    match t {
        TreeV::Nil => {
            assert(numbered(preorder(t), n) =~= Seq::<(nat, Info)>::empty());
        },
        TreeV::Node(i, c, s) => {
            let c = *c;
            let s = *s;
            lemma_dot_items(c, n + 1);
            lemma_dot_lines_count(c, n + 1);
            let n1 = n + size(c);
            lemma_dot_items(s, n1 + 1);
            let head = seq![DotLine::Node(n, i)];
            lemma_node_item(n, i);
            let ci = match c {
                TreeV::Nil => Seq::<DotLine>::empty(),
                _ => dot_items(c, n + 1).push(DotLine::Edge(n, n + 1)),
            };
            let si = match s {
                TreeV::Nil => Seq::<DotLine>::empty(),
                _ => dot_items(s, n1 + 1).push(DotLine::Edge(n, n1 + 1)),
            };
            if !(c is Nil) {
                lemma_edge_item(n, n + 1);
                assert(dot_items(c, n + 1).push(DotLine::Edge(n, n + 1)) =~= dot_items(c, n + 1) + seq![
                    DotLine::Edge(n, n + 1),
                ]);
                lemma_items_append(dot_items(c, n + 1), seq![DotLine::Edge(n, n + 1)]);
            } else {
                assert(render(ci) =~= Seq::<char>::empty());
                assert(node_items(ci) =~= Seq::<(nat, Info)>::empty());
                assert(edge_items(ci) =~= Seq::<(nat, nat)>::empty());
            }
            if !(s is Nil) {
                lemma_edge_item(n, n1 + 1);
                assert(dot_items(s, n1 + 1).push(DotLine::Edge(n, n1 + 1)) =~= dot_items(s, n1 + 1) + seq![
                    DotLine::Edge(n, n1 + 1),
                ]);
                lemma_items_append(dot_items(s, n1 + 1), seq![DotLine::Edge(n, n1 + 1)]);
            } else {
                assert(render(si) =~= Seq::<char>::empty());
                assert(node_items(si) =~= Seq::<(nat, Info)>::empty());
                assert(edge_items(si) =~= Seq::<(nat, nat)>::empty());
            }
            lemma_items_append(head, ci);
            lemma_items_append(head + ci, si);
            assert(dot_items(t, n) == head + ci + si);
            assert(dot_lines(t, n).0 =~= render(dot_items(t, n)));
            assert(numbered(preorder(t), n) =~= seq![(n, i)] + numbered(preorder(c), n + 1) + numbered(
                preorder(s),
                n1 + 1,
            ));
            let e = edge_items(dot_items(t, n));
            assert forall|k: int| 0 <= k < e.len() implies n <= (#[trigger] e[k]).0 < e[k].1 < n + size(t) by {
                let ec = edge_items(ci);
                if k < ec.len() {
                    if !(c is Nil) {
                        let ecc = edge_items(dot_items(c, n + 1));
                        if k < ecc.len() {
                            assert(e[k] == ecc[k]);
                        }
                    }
                } else {
                    if !(s is Nil) {
                        let ess = edge_items(dot_items(s, n1 + 1));
                        if k - ec.len() < ess.len() {
                            assert(e[k] == ess[k - ec.len()]);
                        }
                    }
                }
            }
        },
    }
}

/// The drawing of a tree of `n` nodes: a header line, the lines of its
/// nodes and edges, and a closing line. The nodes come in pre-order,
/// numbered `0` to `n - 1`, each labelled with its information; there are
/// `n - 1` edges, each from a node to one numbered after it.
pub proof fn law_dot_draws_each_node_once(t: TreeV)
    ensures
        dot(t) == "digraph G {\n"@ + render(dot_items(t, 0)) + "}\n"@,
        node_items(dot_items(t, 0)).len() == size(t),
        forall|k: int|
            0 <= k < size(t) ==> #[trigger] node_items(dot_items(t, 0))[k] == (k as nat, preorder(t)[k]),
        edge_items(dot_items(t, 0)).len() == (if t is Nil { 0 } else { size(t) - 1 }),
        forall|k: int|
            0 <= k < edge_items(dot_items(t, 0)).len() ==> (#[trigger] edge_items(dot_items(t, 0))[k]).0
                < edge_items(dot_items(t, 0))[k].1 < size(t),
{
    lemma_dot_items(t, 0);
}

/// The subtree whose top is the node numbered `k` in pre-order.
pub open spec fn subtree_at(t: TreeV, k: int) -> TreeV
    decreases t,
{
    match t {
        TreeV::Nil => TreeV::Nil,
        TreeV::Node(_, c, s) => if k == 0 {
            t
        } else if k <= size(*c) {
            subtree_at(*c, k - 1)
        } else {
            subtree_at(*s, k - 1 - size(*c))
        },
    }
}

/// Whether the node numbered `q` in pre-order is the first child or the
/// next sibling of the node numbered `p`: the child comes right after its
/// parent, the sibling right after the parent's child subtree.
pub open spec fn is_link(t: TreeV, p: int, q: int) -> bool {
    0 <= p < size(t) && match subtree_at(t, p) {
        TreeV::Node(_, c, s) => (!(*c is Nil) && q == p + 1) || (!(*s is Nil) && q == p + 1 + size(*c)),
        TreeV::Nil => false,
    }
}

proof fn lemma_edges_are_links(t: TreeV, n: nat)
    ensures
        forall|p: nat, q: nat|
            edge_items(dot_items(t, n)).contains((p, q)) <==> #[trigger] is_link(t, p - n, q - n),
    decreases t,
{
    lemma_dot_items(t, n);
    match t {
        TreeV::Nil => {
            assert forall|p: nat, q: nat| !#[trigger] is_link(t, p - n, q - n) by {}
        },
        TreeV::Node(i, c0, s0) => {
            let c = *c0;
            let s = *s0;
            let n1 = n + size(c);
            lemma_edges_are_links(c, n + 1);
            lemma_edges_are_links(s, n1 + 1);
            lemma_dot_items(c, n + 1);
            lemma_dot_items(s, n1 + 1);
            let head = seq![DotLine::Node(n, i)];
            lemma_node_item(n, i);
            let ci = match c {
                TreeV::Nil => Seq::<DotLine>::empty(),
                _ => dot_items(c, n + 1).push(DotLine::Edge(n, n + 1)),
            };
            let si = match s {
                TreeV::Nil => Seq::<DotLine>::empty(),
                _ => dot_items(s, n1 + 1).push(DotLine::Edge(n, n1 + 1)),
            };
            let ce = edge_items(dot_items(c, n + 1));
            let se = edge_items(dot_items(s, n1 + 1));
            if !(c is Nil) {
                lemma_edge_item(n, n + 1);
                assert(ci =~= dot_items(c, n + 1) + seq![DotLine::Edge(n, n + 1)]);
                lemma_items_append(dot_items(c, n + 1), seq![DotLine::Edge(n, n + 1)]);
            } else {
                assert(edge_items(ci) =~= Seq::<(nat, nat)>::empty());
                assert(ce =~= Seq::<(nat, nat)>::empty());
            }
            if !(s is Nil) {
                lemma_edge_item(n, n1 + 1);
                assert(si =~= dot_items(s, n1 + 1) + seq![DotLine::Edge(n, n1 + 1)]);
                lemma_items_append(dot_items(s, n1 + 1), seq![DotLine::Edge(n, n1 + 1)]);
            } else {
                assert(edge_items(si) =~= Seq::<(nat, nat)>::empty());
                assert(se =~= Seq::<(nat, nat)>::empty());
            }
            lemma_items_append(head, ci);
            lemma_items_append(head + ci, si);
            assert(dot_items(t, n) == head + ci + si);
            let e = edge_items(dot_items(t, n));
            let ec: Seq<(nat, nat)> = if c is Nil { Seq::empty() } else { seq![(n, (n + 1) as nat)] };
            let es: Seq<(nat, nat)> = if s is Nil { Seq::empty() } else { seq![(n, (n1 + 1) as nat)] };
            assert(e =~= ce + ec + se + es);
            assert forall|p: nat, q: nat| e.contains((p, q)) <==> #[trigger] is_link(t, p - n, q - n) by {
                let pp = p - n;
                let qq = q - n;
                if 1 <= pp <= size(c) {
                    assert(subtree_at(t, pp) == subtree_at(c, pp - 1));
                    assert(is_link(t, pp, qq) == is_link(c, (p - (n + 1)), (q - (n + 1))));
                } else if pp > size(c) {
                    assert(subtree_at(t, pp) == subtree_at(s, pp - 1 - size(c)));
                    assert(is_link(t, pp, qq) == is_link(s, (p - (n1 + 1)), (q - (n1 + 1))));
                }
                if e.contains((p, q)) {
                    let k = choose|k: int| 0 <= k < e.len() && e[k] == (p, q);
                    if k < ce.len() {
                        assert(ce[k] == (p, q));
                        assert(ce.contains((p, q)));
                    } else if k < ce.len() + ec.len() {
                    } else if k < ce.len() + ec.len() + se.len() {
                        assert(se[k - ce.len() - ec.len()] == (p, q));
                        assert(se.contains((p, q)));
                    }
                }
                if is_link(t, pp, qq) {
                    if pp == 0 {
                        if !(c is Nil) && qq == 1 {
                            assert(e[ce.len() as int] == (p, q));
                        } else {
                            assert(e[(ce.len() + ec.len() + se.len()) as int] == (p, q));
                        }
                    } else if pp <= size(c) {
                        assert(ce.contains((p, q)));
                        let k = choose|k: int| 0 <= k < ce.len() && ce[k] == (p, q);
                        assert(e[k] == (p, q));
                    } else {
                        assert(se.contains((p, q)));
                        let k = choose|k: int| 0 <= k < se.len() && se[k] == (p, q);
                        assert(e[ce.len() + ec.len() + k] == (p, q));
                    }
                }
            }
        },
    }
}

/// The edges of the drawing of a tree are exactly the links from a node to
/// its first child and to its next sibling, with nodes numbered in
/// pre-order.
pub proof fn law_dot_edges_are_the_links(t: TreeV)
    ensures
        forall|p: nat, q: nat| edge_items(dot_items(t, 0)).contains((p, q)) <==> #[trigger] is_link(t, p as int, q as int),
{
    lemma_edges_are_links(t, 0);
    assert forall|p: nat, q: nat| edge_items(dot_items(t, 0)).contains((p, q)) <==> #[trigger] is_link(t, p as int, q as int) by {
        assert(is_link(t, p - 0, q - 0) == is_link(t, p as int, q as int));
    }
}

} // verus!
