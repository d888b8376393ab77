//! The abstract syntax tree of an expression.
//!
//! Each binary node exclusively owns its two operand subtrees; a tree is
//! built once by the parser and then only read.  A numeric leaf carries
//! the literal text of the number exactly as it was written, so a
//! consumer may interpret it with the numeric type of its choice.

use vstd::prelude::*;

verus! {

/// Mathematical model of a syntax tree.
pub enum NodeView {
    Number(Seq<char>),
    Negative(Box<NodeView>),
    Add(Box<NodeView>, Box<NodeView>),
    Subtract(Box<NodeView>, Box<NodeView>),
    Multiply(Box<NodeView>, Box<NodeView>),
    Divide(Box<NodeView>, Box<NodeView>),
    Caret(Box<NodeView>, Box<NodeView>),
}

/// One node of a parsed expression.
#[derive(Debug)]
pub enum Node {
    Number(Vec<char>),
    Negative(Box<Node>),
    Add(Box<Node>, Box<Node>),
    Subtract(Box<Node>, Box<Node>),
    Multiply(Box<Node>, Box<Node>),
    Divide(Box<Node>, Box<Node>),
    Caret(Box<Node>, Box<Node>),
}

/// The model a syntax tree stands for.
pub open spec fn node_view(n: Node) -> NodeView
    decreases n,
{
    match n {
        Node::Number(lit) => NodeView::Number(lit@),
        Node::Negative(e) => NodeView::Negative(Box::new(node_view(*e))),
        Node::Add(l, r) => NodeView::Add(Box::new(node_view(*l)), Box::new(node_view(*r))),
        Node::Subtract(l, r) => NodeView::Subtract(
            Box::new(node_view(*l)),
            Box::new(node_view(*r)),
        ),
        Node::Multiply(l, r) => NodeView::Multiply(
            Box::new(node_view(*l)),
            Box::new(node_view(*r)),
        ),
        Node::Divide(l, r) => NodeView::Divide(Box::new(node_view(*l)), Box::new(node_view(*r))),
        Node::Caret(l, r) => NodeView::Caret(Box::new(node_view(*l)), Box::new(node_view(*r))),
    }
}

impl View for Node {
    type V = NodeView;

    open spec fn view(&self) -> NodeView {
        node_view(*self)
    }
}

} // verus!
