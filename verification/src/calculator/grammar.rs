//! The syntax of calculator programs, as a function from source characters to expressions.
//!
//! ```text
//! Program    = (Expr EOF)+
//! EOF        = end of input | ";"
//! Expr       = BinaryExpr | UnaryExpr | Term
//! BinaryExpr = (UnaryExpr | Term) (Operator Term)+
//! UnaryExpr  = Operator Term
//! Term       = Int | "(" Expr ")"
//! Operator   = "+" | "-" | "*" | "/"
//! Int        = digit+
//! ```
//!
//! Choices are ordered and repetitions greedy; white space (space, tab, carriage return, line
//! feed) may stand before any token. Binary operators group to the left, all with the same
//! precedence. Text after the last expression that cannot start another one is not read.
use vstd::prelude::*;
use crate::calculator::ast::{op_char, Node, Operator};
use crate::lexical::{digits_end, digits_value, is_digit, is_ws, skip_ws, symbol};

verus! {

/// Why a text is not a program.
#[derive(Debug, Clone, Copy, PartialEq, Eq)]
pub enum ParseError {
    /// The text does not start with an expression followed by `;` or the end.
    Syntax,
    /// An integer literal does not fit in 32 bits.
    IntTooLarge,
}

/// A value built by a rule, or why building it failed.
pub type Built<T> = Result<T, ParseError>;

pub open spec fn operator(s: Seq<char>, i: nat) -> Option<(Operator, nat)> {
    if let Some(k) = symbol(s, i, "+"@) {
        Some((Operator::Plus, k))
    } else if let Some(k) = symbol(s, i, "-"@) {
        Some((Operator::Min, k))
    } else if let Some(k) = symbol(s, i, "*"@) {
        Some((Operator::Mul, k))
    } else if let Some(k) = symbol(s, i, "/"@) {
        Some((Operator::Div, k))
    } else {
        None
    }
}

/// Each operator character after white space reads as its own operator, and whatever operator
/// is read, its character is what stands there.
pub proof fn lemma_operator_tokens(s: Seq<char>, i: nat, op: Operator)
    requires
        i <= s.len(),
    ensures
        skip_ws(s, i) < s.len() && s[skip_ws(s, i) as int] == op_char(op) ==> operator(s, i) == Some((op, skip_ws(s, i) + 1)),
        operator(s, i) matches Some((o, k)) ==> k == skip_ws(s, i) + 1 && skip_ws(s, i) < s.len()
            && s[skip_ws(s, i) as int] == op_char(o),
{
    reveal_strlit("+");
    reveal_strlit("-");
    reveal_strlit("*");
    reveal_strlit("/");
    assert("+"@ =~= seq!['+']);
    assert("-"@ =~= seq!['-']);
    assert("*"@ =~= seq!['*']);
    assert("/"@ =~= seq!['/']);
    lemma_one_char_symbol(s, i, '+');
    lemma_one_char_symbol(s, i, '-');
    lemma_one_char_symbol(s, i, '*');
    lemma_one_char_symbol(s, i, '/');
    match op {
        Operator::Plus => {},
        Operator::Min => {},
        Operator::Mul => {},
        Operator::Div => {},
    }
}

proof fn lemma_one_char_symbol(s: Seq<char>, i: nat, c: char)
    ensures
        symbol(s, i, seq![c]) == (if skip_ws(s, i) < s.len() && s[skip_ws(s, i) as int] == c {
            Some(skip_ws(s, i) + 1)
        } else {
            None::<nat>
        }),
{
    let a = skip_ws(s, i);
    if a < s.len() {
        assert(s.subrange(a as int, a + 1 as int) =~= seq![s[a as int]]);
        if s.subrange(a as int, a + 1 as int) == seq![c] {
            assert(s.subrange(a as int, a + 1 as int)[0] == s[a as int]);
        }
    }
}

pub open spec fn int_term(s: Seq<char>, i: nat) -> Option<(Built<Node>, nat)> {
    let a = skip_ws(s, i);
    if a < s.len() && is_digit(s[a as int]) {
        let b = digits_end(s, a);
        let v = digits_value(s.subrange(a as int, b as int));
        Some((if v <= i32::MAX { Ok(Node::Int(v as i32)) } else { Err(ParseError::IntTooLarge) }, b))
    } else {
        None
    }
}

pub open spec fn unary_of(op: Operator, child: Built<Node>) -> Built<Node> {
    match child {
        Ok(c) => Ok(Node::UnaryExpr { op, child: Box::new(c) }),
        Err(e) => Err(e),
    }
}

pub open spec fn binary_of(op: Operator, l: Built<Node>, r: Built<Node>) -> Built<Node> {
    match (l, r) {
        (Err(e), _) => Err(e),
        (Ok(_), Err(e)) => Err(e),
        (Ok(a), Ok(b)) => Ok(Node::BinaryExpr { op, lhs: Box::new(a), rhs: Box::new(b) }),
    }
}

pub open spec fn term(s: Seq<char>, i: nat) -> Option<(Built<Node>, nat)>
    decreases s.len() - i, 1nat,
{
    if let Some(r) = int_term(s, i) {
        Some(r)
    } else {
        match symbol(s, i, "("@) {
            Some(k) => if i < k <= s.len() {
                match expr(s, k) {
                    Some((e, j)) => match symbol(s, j, ")"@) {
                        Some(m) => Some((e, m)),
                        None => None,
                    },
                    None => None,
                }
            } else {
                None
            },
            None => None,
        }
    }
}

pub open spec fn unary_expr(s: Seq<char>, i: nat) -> Option<(Built<Node>, nat)>
    decreases s.len() - i, 2nat,
{
    match operator(s, i) {
        Some((op, k)) => if i < k <= s.len() {
            match term(s, k) {
                Some((t, j)) => Some((unary_of(op, t), j)),
                None => None,
            }
        } else {
            None
        },
        None => None,
    }
}

/// `(Operator Term)*` after the left operand `acc`, folded to the left.
pub open spec fn binary_tail(s: Seq<char>, i: nat, acc: Built<Node>) -> (Built<Node>, nat)
    decreases s.len() - i, 3nat,
{
    match operator(s, i) {
        Some((op, k)) => if i < k <= s.len() {
            match term(s, k) {
                Some((t, j)) => if k < j <= s.len() {
                    binary_tail(s, j, binary_of(op, acc, t))
                } else {
                    (acc, i)
                },
                None => (acc, i),
            }
        } else {
            (acc, i)
        },
        None => (acc, i),
    }
}

pub open spec fn binary_expr(s: Seq<char>, i: nat) -> Option<(Built<Node>, nat)>
    decreases s.len() - i, 4nat,
{
    let first = match unary_expr(s, i) {
        Some(r) => Some(r),
        None => term(s, i),
    };
    match first {
        Some((l, j)) => if i < j <= s.len() {
            let (acc, p) = binary_tail(s, j, l);
            if p > j {
                Some((acc, p))
            } else {
                None
            }
        } else {
            None
        },
        None => None,
    }
}

pub open spec fn expr(s: Seq<char>, i: nat) -> Option<(Built<Node>, nat)>
    decreases s.len() - i, 5nat,
{
    match binary_expr(s, i) {
        Some(r) => Some(r),
        None => match unary_expr(s, i) {
            Some(r) => Some(r),
            None => term(s, i),
        },
    }
}

/// The end of input, or `;`.
pub open spec fn eof(s: Seq<char>, i: nat) -> Option<nat> {
    let a = skip_ws(s, i);
    if a >= s.len() {
        Some(a)
    } else if s[a as int] == ';' {
        Some(a + 1)
    } else {
        None
    }
}

/// `(Expr EOF)*` from `i`.
pub open spec fn items(s: Seq<char>, i: nat) -> (Built<Seq<Node>>, nat)
    decreases s.len() - i,
{
    match expr(s, i) {
        Some((e, j)) => match eof(s, j) {
            Some(k) => if i < k <= s.len() {
                let (rest, m) = items(s, k);
                (
                    match (e, rest) {
                        (Err(x), _) => Err(x),
                        (Ok(_), Err(x)) => Err(x),
                        (Ok(a), Ok(r)) => Ok(seq![a] + r),
                    },
                    m,
                )
            } else {
                (Ok(Seq::empty()), i)
            },
            None => (Ok(Seq::empty()), i),
        },
        None => (Ok(Seq::empty()), i),
    }
}

/// The expressions that the source text `s` denotes.
pub open spec fn program(s: Seq<char>) -> Built<Seq<Node>> {
    let (r, p) = items(s, 0);
    if p == 0 {
        Err(ParseError::Syntax)
    } else {
        r
    }
}

// ---------------------------------------------------------------- a `;` at the end

proof fn lemma_skip_ws_semi(s: Seq<char>, i: nat)
    requires
        i <= s.len(),
    ensures
        skip_ws(s.push(';'), i) == skip_ws(s, i),
        i <= skip_ws(s, i) <= s.len(),
    decreases s.len() - i,
{
    if i < s.len() && is_ws(s[i as int]) {
        lemma_skip_ws_semi(s, i + 1);
    }
}

proof fn lemma_digits_end_semi(s: Seq<char>, i: nat)
    requires
        i <= s.len(),
    ensures
        digits_end(s.push(';'), i) == digits_end(s, i),
        i <= digits_end(s, i) <= s.len(),
        i < s.len() && is_digit(s[i as int]) ==> digits_end(s, i) > i,
    decreases s.len() - i,
{
    if i < s.len() && is_digit(s[i as int]) {
        lemma_digits_end_semi(s, i + 1);
    }
}

proof fn lemma_symbol_semi(s: Seq<char>, i: nat, t: Seq<char>)
    requires
        i <= s.len(),
        t.len() == 1,
        t[0] != ';',
    ensures
        symbol(s.push(';'), i, t) == symbol(s, i, t),
        symbol(s, i, t) matches Some(k) ==> i < k <= s.len(),
{
    lemma_skip_ws_semi(s, i);
    let a = skip_ws(s, i);
    let sc = s.push(';');
    if a < s.len() {
        assert(sc.subrange(a as int, a + 1 as int) =~= s.subrange(a as int, a + 1 as int));
    } else {
        assert(sc.subrange(a as int, a + 1 as int)[0] == ';');
    }
}

proof fn lemma_operator_semi(s: Seq<char>, i: nat)
    requires
        i <= s.len(),
    ensures
        operator(s.push(';'), i) == operator(s, i),
        operator(s, i) matches Some((_, k)) ==> i < k <= s.len(),
{
    reveal_strlit("+");
    reveal_strlit("-");
    reveal_strlit("*");
    reveal_strlit("/");
    lemma_symbol_semi(s, i, "+"@);
    lemma_symbol_semi(s, i, "-"@);
    lemma_symbol_semi(s, i, "*"@);
    lemma_symbol_semi(s, i, "/"@);
}

proof fn lemma_int_term_semi(s: Seq<char>, i: nat)
    requires
        i <= s.len(),
    ensures
        int_term(s.push(';'), i) == int_term(s, i),
        int_term(s, i) matches Some((_, k)) ==> i < k <= s.len(),
{
    lemma_skip_ws_semi(s, i);
    let a = skip_ws(s, i);
    if a < s.len() {
        lemma_digits_end_semi(s, a);
        let b = digits_end(s, a);
        assert(s.push(';').subrange(a as int, b as int) =~= s.subrange(a as int, b as int));
    }
}

proof fn lemma_term_semi(s: Seq<char>, i: nat)
    requires
        i <= s.len(),
    ensures
        term(s.push(';'), i) == term(s, i),
        term(s, i) matches Some((_, k)) ==> i < k <= s.len(),
    decreases s.len() - i, 1nat,
{
    reveal_strlit("(");
    reveal_strlit(")");
    lemma_int_term_semi(s, i);
    lemma_symbol_semi(s, i, "("@);
    if int_term(s, i) is None {
        if let Some(k) = symbol(s, i, "("@) {
            lemma_expr_semi(s, k);
            if let Some((e, j)) = expr(s, k) {
                lemma_symbol_semi(s, j, ")"@);
            }
        }
    }
}

proof fn lemma_unary_expr_semi(s: Seq<char>, i: nat)
    requires
        i <= s.len(),
    ensures
        unary_expr(s.push(';'), i) == unary_expr(s, i),
        unary_expr(s, i) matches Some((_, k)) ==> i < k <= s.len(),
    decreases s.len() - i, 2nat,
{
    lemma_operator_semi(s, i);
    if let Some((op, k)) = operator(s, i) {
        lemma_term_semi(s, k);
    }
}

proof fn lemma_binary_tail_semi(s: Seq<char>, i: nat, acc: Built<Node>)
    requires
        i <= s.len(),
    ensures
        binary_tail(s.push(';'), i, acc) == binary_tail(s, i, acc),
        i <= binary_tail(s, i, acc).1 <= s.len(),
    decreases s.len() - i, 3nat,
{
    lemma_operator_semi(s, i);
    if let Some((op, k)) = operator(s, i) {
        lemma_term_semi(s, k);
        if let Some((t, j)) = term(s, k) {
            lemma_binary_tail_semi(s, j, binary_of(op, acc, t));
        }
    }
}

proof fn lemma_binary_expr_semi(s: Seq<char>, i: nat)
    requires
        i <= s.len(),
    ensures
        binary_expr(s.push(';'), i) == binary_expr(s, i),
        binary_expr(s, i) matches Some((_, k)) ==> i < k <= s.len(),
    decreases s.len() - i, 4nat,
{
    lemma_unary_expr_semi(s, i);
    lemma_term_semi(s, i);
    let first = match unary_expr(s, i) {
        Some(r) => Some(r),
        None => term(s, i),
    };
    if let Some((l, j)) = first {
        lemma_binary_tail_semi(s, j, l);
    }
}

proof fn lemma_expr_semi(s: Seq<char>, i: nat)
    requires
        i <= s.len(),
    ensures
        expr(s.push(';'), i) == expr(s, i),
        expr(s, i) matches Some((_, k)) ==> i < k <= s.len(),
    decreases s.len() - i, 5nat,
{
    lemma_binary_expr_semi(s, i);
    lemma_unary_expr_semi(s, i);
    lemma_term_semi(s, i);
}

proof fn lemma_items_semi(s: Seq<char>, i: nat)
    requires
        i <= s.len(),
    ensures
        items(s.push(';'), i).0 == items(s, i).0,
        items(s, i).1 >= i,
        items(s.push(';'), i).1 >= i,
        (items(s, i).1 == i) == (items(s.push(';'), i).1 == i),
    decreases s.len() - i,
{
    let sc = s.push(';');
    lemma_expr_semi(s, i);
    if let Some((e, j)) = expr(s, i) {
        lemma_skip_ws_semi(s, j);
        let a = skip_ws(s, j);
        if a < s.len() {
            assert(sc[a as int] == s[a as int]);
            assert(eof(sc, j) == eof(s, j));
            if let Some(k) = eof(s, j) {
                lemma_items_semi(s, k);
            }
        } else {
            assert(sc[a as int] == ';');
            assert(eof(s, j) == Some(a));
            assert(eof(sc, j) == Some(a + 1));
            lemma_expr_semi(s, a);
            lemma_expr_semi(sc, a + 1);
            assert(expr(s, a) is None);
            assert(expr(sc, a + 1) is None);
            assert(items(s, a) == (Ok::<Seq<Node>, ParseError>(Seq::empty()), a));
            assert(items(sc, a + 1) == (Ok::<Seq<Node>, ParseError>(Seq::empty()), a + 1));
        }
    }
}

/// A `;` after the text of a program changes nothing of what it parses to: `;` may end the
/// last expression, and text after the last expression is not read.
pub proof fn lemma_semicolon_keeps_parse(s: Seq<char>)
    ensures
        program(s.push(';')) == program(s),
{
    lemma_items_semi(s, 0);
}

} // verus!
