//! The syntax of the typed language's programs, as functions from source characters to what
//! the parser builds of them.
//!
//! ```text
//! Program     = Stmt* EOI
//! Stmt        = (Function | Return | Assignment | Expr) ";"?
//! Function    = "fn" Identifier "(" (TypedParam ("," TypedParam)*)? ")" ReturnType? Block
//! TypedParam  = Identifier ":" Type
//! ReturnType  = "->" Type
//! Type        = "int" | "bool"
//! Block       = "{" Stmt* "}"
//! Return      = "return" Expr
//! Assignment  = Identifier (":" Type)? "=" Expr
//! ```
//!
//! Expressions follow the expression grammar of the small interpreted language (`Expr` in
//! `fl::grammar`). Of a statement the parser keeps only whether it is a function definition,
//! with the function's name and typed parameters; a function's return type and body are
//! checked for their syntax and not kept.
use vstd::prelude::*;
use crate::fl::grammar::{expr, identifier, keyword, syntax_error_text};
use crate::lexical::{skip_ws, symbol};
use crate::sl::types::SType;

verus! {

/// What the parser makes of a statement: a function definition with its name and typed
/// parameters, or another statement.
pub enum SItem {
    Function(Seq<char>, Seq<(Seq<char>, SType)>),
    Other,
}

/// `"int" | "bool"`.
pub open spec fn type_word(s: Seq<char>, i: nat) -> Option<(SType, nat)> {
    if let Some(k) = keyword(s, i, "int"@) {
        Some((SType::Int, k))
    } else if let Some(k) = keyword(s, i, "bool"@) {
        Some((SType::Bool, k))
    } else {
        None
    }
}

/// `Identifier ":" Type`.
pub open spec fn typed_param(s: Seq<char>, i: nat) -> Option<((Seq<char>, SType), nat)> {
    match identifier(s, i) {
        Some((name, k)) => match symbol(s, k, ":"@) {
            Some(k2) => match type_word(s, k2) {
                Some((t, j)) => Some(((name, t), j)),
                None => None,
            },
            None => None,
        },
        None => None,
    }
}

/// `("," TypedParam)*` after the parameters `acc`.
pub open spec fn typed_param_tail(s: Seq<char>, i: nat, acc: Seq<(Seq<char>, SType)>) -> (Seq<(Seq<char>, SType)>, nat)
    decreases s.len() - i,
{
    match symbol(s, i, ","@) {
        Some(k) => match typed_param(s, k) {
            Some((p, j)) => if i < j <= s.len() {
                typed_param_tail(s, j, acc.push(p))
            } else {
                (acc, i)
            },
            None => (acc, i),
        },
        None => (acc, i),
    }
}

/// `"(" (TypedParam ("," TypedParam)*)? ")"`.
pub open spec fn typed_params(s: Seq<char>, i: nat) -> Option<(Seq<(Seq<char>, SType)>, nat)> {
    match symbol(s, i, "("@) {
        Some(k) => {
            let (ps, j) = match typed_param(s, k) {
                Some((first, j0)) => typed_param_tail(s, j0, seq![first]),
                None => (Seq::empty(), k),
            };
            match symbol(s, j, ")"@) {
                Some(m) => Some((ps, m)),
                None => None,
            }
        },
        None => None,
    }
}

/// The position after `ReturnType?`.
pub open spec fn after_return_type(s: Seq<char>, i: nat) -> nat {
    match symbol(s, i, "->"@) {
        Some(k) => match type_word(s, k) {
            Some((_, j)) => j,
            None => i,
        },
        None => i,
    }
}

/// The position after a block.
pub open spec fn block_end(s: Seq<char>, i: nat) -> Option<nat>
    decreases s.len() - i, 3nat,
{
    match symbol(s, i, "{"@) {
        Some(k) => if i < k <= s.len() {
            match symbol(s, stmts(s, k).1, "}"@) {
                Some(m) => Some(m),
                None => None,
            }
        } else {
            None
        },
        None => None,
    }
}

pub open spec fn function(s: Seq<char>, i: nat) -> Option<(SItem, nat)>
    decreases s.len() - i, 2nat,
{
    match keyword(s, i, "fn"@) {
        Some(k) => if i < k <= s.len() {
            match identifier(s, k) {
                Some((name, k2)) => match typed_params(s, k2) {
                    Some((ps, k3)) => {
                        let k4 = after_return_type(s, k3);
                        if k < k4 <= s.len() {
                            match block_end(s, k4) {
                                Some(m) => Some((SItem::Function(name, ps), m)),
                                None => None,
                            }
                        } else {
                            None
                        }
                    },
                    None => None,
                },
                None => None,
            }
        } else {
            None
        },
        None => None,
    }
}

/// The position after `"return" Expr`.
pub open spec fn return_end(s: Seq<char>, i: nat) -> Option<nat> {
    match keyword(s, i, "return"@) {
        Some(k) => match expr(s, k) {
            Some((_, j)) => Some(j),
            None => None,
        },
        None => None,
    }
}

/// The position after `Identifier (":" Type)? "=" Expr`.
pub open spec fn assignment_end(s: Seq<char>, i: nat) -> Option<nat> {
    match identifier(s, i) {
        Some((_, k)) => {
            let k2 = match symbol(s, k, ":"@) {
                Some(c) => match type_word(s, c) {
                    Some((_, t)) => Some(t),
                    None => None,
                },
                None => Some(k),
            };
            match k2 {
                Some(k3) => match symbol(s, k3, "="@) {
                    Some(k4) => match expr(s, k4) {
                        Some((_, j)) => Some(j),
                        None => None,
                    },
                    None => None,
                },
                None => None,
            }
        },
        None => None,
    }
}

pub open spec fn stmt(s: Seq<char>, i: nat) -> Option<(SItem, nat)>
    decreases s.len() - i, 4nat,
{
    let body = if let Some(r) = function(s, i) {
        Some(r)
    } else if let Some(j) = return_end(s, i) {
        Some((SItem::Other, j))
    } else if let Some(j) = assignment_end(s, i) {
        Some((SItem::Other, j))
    } else {
        match expr(s, i) {
            Some((_, j)) => Some((SItem::Other, j)),
            None => None,
        }
    };
    match body {
        Some((it, j)) => match symbol(s, j, ";"@) {
            Some(k) => Some((it, k)),
            None => Some((it, j)),
        },
        None => None,
    }
}

/// `Stmt*`: as many statements as match from `i`.
pub open spec fn stmts(s: Seq<char>, i: nat) -> (Seq<SItem>, nat)
    decreases s.len() - i, 5nat,
{
    match stmt(s, i) {
        Some((it, j)) => if i < j <= s.len() {
            let (rest, k) = stmts(s, j);
            (seq![it] + rest, k)
        } else {
            (Seq::empty(), i)
        },
        None => (Seq::empty(), i),
    }
}

/// The statements that the source text `s` denotes, or the message of why it denotes none.
pub open spec fn program(s: Seq<char>) -> Result<Seq<SItem>, Seq<char>> {
    let (items, p) = stmts(s, 0);
    let q = skip_ws(s, p);
    if q < s.len() {
        Err(syntax_error_text(q))
    } else {
        Ok(items)
    }
}

/// Every statement of the program is a function definition.
pub open spec fn only_functions(items: Seq<SItem>) -> bool {
    forall|k: int| 0 <= k < items.len() ==> #[trigger] items[k] is Function
}

} // verus!
