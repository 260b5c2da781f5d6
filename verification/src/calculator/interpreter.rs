//! The tree-walking back end: each expression evaluated to a 32-bit integer.
use vstd::prelude::*;
use crate::calculator::ast::{Node, Operator};

verus! {

/// The integer value of an expression built of integers, unary `+`/`-` and binary `+`/`-`;
/// it is left unspecified for floating-point literals, `*` and `/`, which no back end here
/// evaluates.
pub open spec fn value(n: Node) -> int
    decreases n,
{
    match n {
        Node::Int(v) => v as int,
        Node::Float(_) => arbitrary(),
        Node::UnaryExpr { op, child } => match op {
            Operator::Plus => value(*child),
            Operator::Min => -value(*child),
            _ => arbitrary(),
        },
        Node::BinaryExpr { op, lhs, rhs } => match op {
            Operator::Plus => value(*lhs) + value(*rhs),
            Operator::Min => value(*lhs) - value(*rhs),
            _ => arbitrary(),
        },
    }
}

pub open spec fn fits(v: int) -> bool {
    i32::MIN <= v <= i32::MAX
}

/// The expression uses only integers, unary `+`/`-` and binary `+`/`-`, and no step of its
/// evaluation leaves the 32-bit range.
pub open spec fn evaluable(n: Node) -> bool
    decreases n,
{
    match n {
        Node::Int(_) => true,
        Node::Float(_) => false,
        Node::UnaryExpr { op, child } => evaluable(*child) && match op {
            Operator::Plus => true,
            Operator::Min => fits(-value(*child)),
            _ => false,
        },
        Node::BinaryExpr { op, lhs, rhs } => evaluable(*lhs) && evaluable(*rhs) && match op {
            Operator::Plus => fits(value(*lhs) + value(*rhs)),
            Operator::Min => fits(value(*lhs) - value(*rhs)),
            _ => false,
        },
    }
}

pub open spec fn all_evaluable(ast: Seq<Node>) -> bool {
    forall|i: int| 0 <= i < ast.len() ==> evaluable(#[trigger] ast[i])
}

/// The arithmetic of the values: subtracting `r` and adding it back gives the left operand
/// again, swapping the operands of `-` negates the result, `+` does not depend on the order of
/// its operands, unary minus negates and unary plus keeps, and a literal is worth its number.
pub proof fn lemma_value_arithmetic(l: Node, r: Node, v: i32)
    ensures
        value(Node::BinaryExpr { op: Operator::Min, lhs: Box::new(l), rhs: Box::new(r) }) + value(r) == value(l),
        value(Node::BinaryExpr { op: Operator::Min, lhs: Box::new(l), rhs: Box::new(r) })
            == -value(Node::BinaryExpr { op: Operator::Min, lhs: Box::new(r), rhs: Box::new(l) }),
        value(Node::BinaryExpr { op: Operator::Plus, lhs: Box::new(l), rhs: Box::new(r) }) - value(r) == value(l),
        value(Node::BinaryExpr { op: Operator::Plus, lhs: Box::new(l), rhs: Box::new(r) })
            == value(Node::BinaryExpr { op: Operator::Plus, lhs: Box::new(r), rhs: Box::new(l) }),
        value(Node::UnaryExpr { op: Operator::Min, child: Box::new(l) }) + value(l) == 0,
        value(Node::UnaryExpr { op: Operator::Plus, child: Box::new(l) }) == value(l),
        value(Node::Int(v)) == v as int,
{
}

/// The tree-walking back end.
pub struct Interpreter;

impl Interpreter {
    /// The value of `node`, or `None` where evaluating it is not possible (an operator other
    /// than `+`/`-` where evaluation would stop, a floating-point literal, or a result outside
    /// the 32-bit range).
    pub fn try_eval(node: &Node) -> (r: Option<i32>)
        ensures
            match r {
                Some(v) => evaluable(*node) && v == value(*node),
                None => !evaluable(*node),
            },
        decreases node,
    {
        match node {
            Node::Int(n) => Some(*n),
            Node::Float(_) => None,
            Node::UnaryExpr { op, child } => {
                let c = match Self::try_eval(child) {
                    Some(c) => c,
                    None => return None,
                };
                match op {
                    Operator::Plus => Some(c),
                    Operator::Min => 0i32.checked_sub(c),
                    _ => None,
                }
            },
            Node::BinaryExpr { op, lhs, rhs } => {
                let l = match Self::try_eval(lhs) {
                    Some(l) => l,
                    None => return None,
                };
                let r = match Self::try_eval(rhs) {
                    Some(r) => r,
                    None => return None,
                };
                match op {
                    Operator::Plus => l.checked_add(r),
                    Operator::Min => l.checked_sub(r),
                    _ => None,
                }
            },
        }
    }

    fn eval(node: &Node) -> (r: i32)
        requires
            evaluable(*node),
        ensures
            r == value(*node),
        decreases node,
    {
        match node {
            Node::Int(n) => *n,
            Node::Float(_) => 0,
            Node::UnaryExpr { op, child } => {
                let child = Self::eval(child);
                match op {
                    Operator::Plus => child,
                    Operator::Min => -child,
                    _ => 0,
                }
            },
            Node::BinaryExpr { op, lhs, rhs } => {
                let lhs_ret = Self::eval(lhs);
                let rhs_ret = Self::eval(rhs);
                match op {
                    Operator::Plus => lhs_ret + rhs_ret,
                    Operator::Min => lhs_ret - rhs_ret,
                    _ => 0,
                }
            },
        }
    }

    /// The value of each expression, in order.
    pub fn from_ast(ast: Vec<Node>) -> (r: Vec<i32>)
        requires
            all_evaluable(ast@),
        ensures
            r@.len() == ast@.len(),
            forall|i: int| 0 <= i < ast@.len() ==> #[trigger] r@[i] == value(ast@[i]),
    {
        let mut out: Vec<i32> = Vec::new();
        for k in 0..ast.len()
            invariant
                all_evaluable(ast@),
                out@.len() == k,
                forall|i: int| 0 <= i < k ==> #[trigger] out@[i] == value(ast@[i]),
        {
            let mut ret: i32 = 0;
            ret += Self::eval(&ast[k]);
            out.push(ret);
        }
        out
    }

    /// Whether every expression can be evaluated (`from_ast` asks for it).
    pub fn can_evaluate(ast: &Vec<Node>) -> (r: bool)
        ensures
            r == all_evaluable(ast@),
    {
        for k in 0..ast.len()
            invariant
                forall|i: int| 0 <= i < k ==> evaluable(#[trigger] ast@[i]),
        {
            if Self::try_eval(&ast[k]).is_none() {
                return false;
            }
        }
        true
    }
}

} // verus!
