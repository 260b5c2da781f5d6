//! The result type of a program: integer unless a floating-point literal occurs.
use vstd::prelude::*;
use crate::calculator::ast::{has_float, Node};

verus! {

#[derive(Debug, Clone, Copy, PartialEq, Eq)]
pub enum Ty {
    Int,
    Float,
}

/// Whether a floating-point literal occurs in `node`.
fn recurse(node: &Node) -> (r: bool)
    ensures
        r == has_float(*node),
    decreases node,
{
    match node {
        Node::Int(_) => false,
        Node::Float(_) => true,
        Node::UnaryExpr { op: _, child } => recurse(child),
        Node::BinaryExpr { op: _, lhs, rhs } => recurse(lhs) || recurse(rhs),
    }
}

/// `Float` when some expression holds a floating-point literal, `Int` otherwise.
pub fn infer_type(ast: &Vec<Node>) -> (r: Ty)
    ensures
        r == (if exists|i: int| 0 <= i < ast@.len() && has_float(#[trigger] ast@[i]) {
            Ty::Float
        } else {
            Ty::Int
        }),
{
    for i in 0..ast.len()
        invariant
            forall|j: int| 0 <= j < i ==> !has_float(#[trigger] ast@[j]),
    {
        if recurse(&ast[i]) {
            return Ty::Float;
        }
    }
    Ty::Int
}

} // verus!
