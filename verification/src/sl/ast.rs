//! Syntax trees of the typed language.
use vstd::prelude::*;
use crate::sl::types::Type;

verus! {

/// An expression of the typed language.
#[derive(Debug, PartialEq)]
pub enum Expr {
    Int(i64),
    Bool(bool),
    Var(String),
    Block(Vec<Stmt>),
}

/// An expression with the type inferred for it so far.
#[derive(Debug, PartialEq)]
pub struct TypedExpr {
    pub expr: Expr,
    pub ty: Type,
}

impl TypedExpr {
    /// An expression whose type is not inferred yet.
    pub fn unknown(expr: Expr) -> (r: TypedExpr)
        ensures
            r.expr == expr,
            r.ty == Type::Unknown,
    {
        TypedExpr { expr, ty: Type::Unknown }
    }
}

/// A statement of the typed language.
#[derive(Debug, PartialEq)]
pub enum Stmt {
    Function { name: String, params: Vec<(String, Type)>, return_type: Type, body: Vec<Stmt> },
    Return(TypedExpr),
    Assignment { name: String, type_ann: Option<Type>, value: TypedExpr },
    Expr(TypedExpr),
}

} // verus!
