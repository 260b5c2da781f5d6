//! Syntax trees of calculator expressions, and their text.
use vstd::prelude::*;
use crate::text::{int_text, write_int};

verus! {

/// The four arithmetic operators; `+` and `-` also stand in front of a term.
#[derive(Debug, Clone, Copy, PartialEq, Eq, Structural)]
pub enum Operator {
    Plus,
    Min,
    Mul,
    Div,
}

/// An expression. A floating-point literal holds the bits of its `f32` value.
#[derive(Debug, PartialEq)]
pub enum Node {
    Int(i32),
    Float(u32),
    UnaryExpr { op: Operator, child: Box<Node> },
    BinaryExpr { op: Operator, lhs: Box<Node>, rhs: Box<Node> },
}

pub open spec fn op_char(op: Operator) -> char {
    match op {
        Operator::Plus => '+',
        Operator::Min => '-',
        Operator::Mul => '*',
        Operator::Div => '/',
    }
}

/// Whether a floating-point literal occurs in `n`.
pub open spec fn has_float(n: Node) -> bool
    decreases n,
{
    match n {
        Node::Int(_) => false,
        Node::Float(_) => true,
        Node::UnaryExpr { op: _, child } => has_float(*child),
        Node::BinaryExpr { op: _, lhs, rhs } => has_float(*lhs) || has_float(*rhs),
    }
}

/// The text of an expression without floating-point literals: an operator in front of its
/// operand, binary operators between spaces, and no parentheses.
pub open spec fn node_text(n: Node) -> Seq<char>
    decreases n,
{
    match n {
        Node::Int(v) => int_text(v as int),
        Node::Float(_) => Seq::empty(),
        Node::UnaryExpr { op, child } => seq![op_char(op)] + node_text(*child),
        Node::BinaryExpr { op, lhs, rhs } => node_text(*lhs) + seq![' ', op_char(op), ' '] + node_text(*rhs),
    }
}

impl Operator {
    /// The operator's character.
    pub fn symbol(self) -> (c: char)
        ensures
            c == op_char(self),
    {
        match self {
            Operator::Plus => '+',
            Operator::Min => '-',
            Operator::Mul => '*',
            Operator::Div => '/',
        }
    }
}

impl Node {
    /// A copy of this expression.
    pub fn deep_copy(&self) -> (r: Node)
        ensures
            r == *self,
        decreases self,
    {
        match self {
            Node::Int(v) => Node::Int(*v),
            Node::Float(b) => Node::Float(*b),
            Node::UnaryExpr { op, child } => Node::UnaryExpr { op: *op, child: Box::new(child.deep_copy()) },
            Node::BinaryExpr { op, lhs, rhs } => Node::BinaryExpr {
                op: *op,
                lhs: Box::new(lhs.deep_copy()),
                rhs: Box::new(rhs.deep_copy()),
            },
        }
    }

    /// Appends the text of this expression.
    pub fn write_text(&self, out: &mut String)
        requires
            !has_float(*self),
        ensures
            final(out)@ == old(out)@ + node_text(*self),
        decreases self,
    {
        let ghost start = out@;
        match self {
            Node::Int(v) => write_int(out, *v as i64),
            Node::Float(_) => {},
            Node::UnaryExpr { op, child } => {
                crate::text::push_char(out, op.symbol());
                child.write_text(out);
                assert(out@ =~= start + node_text(*self));
            },
            Node::BinaryExpr { op, lhs, rhs } => {
                lhs.write_text(out);
                crate::text::push_char(out, ' ');
                crate::text::push_char(out, op.symbol());
                crate::text::push_char(out, ' ');
                rhs.write_text(out);
                assert(out@ =~= start + node_text(*self));
            },
        }
    }

    /// The text of this expression, as `Display` shows it.
    pub fn render(&self) -> (r: String)
        requires
            !has_float(*self),
        ensures
            r@ == node_text(*self),
    {
        let mut out = String::new();
        self.write_text(&mut out);
        out
    }
}

impl Clone for Node {
    fn clone(&self) -> (r: Node)
        ensures
            r == *self,
    {
        self.deep_copy()
    }
}

} // verus!
