//! The parser: source text to expressions, by the grammar of `calculator::grammar`.
use vstd::prelude::*;
use crate::calculator::ast::{Node, Operator};
use crate::calculator::grammar::{
    binary_expr, binary_of, binary_tail, eof, expr, int_term, items, operator, program, term, unary_expr,
    unary_of, Built, ParseError,
};
use crate::lexical::{digits_end, digits_end_at, digits_value, is_digit, skip_ws, skip_ws_at, symbol, symbol_at};
use crate::text::chars_of;

verus! {

pub open spec fn within<T>(r: Option<(T, usize)>, n: nat) -> bool {
    r matches Some((_, j)) ==> j <= n
}

pub open spec fn found(r: Option<(Built<Node>, usize)>) -> Option<(Built<Node>, nat)> {
    match r {
        Some((e, j)) => Some((e, j as nat)),
        None => None,
    }
}

fn parse_operator(cs: &Vec<char>, i: usize) -> (r: Option<(Operator, usize)>)
    requires
        i <= cs@.len(),
    ensures
        r matches Some((_, j)) ==> j <= cs@.len(),
        match r {
            Some((op, j)) => operator(cs@, i as nat) == Some((op, j as nat)),
            None => operator(cs@, i as nat) is None,
        },
{
    if let Some(k) = symbol_at(cs, i, "+") {
        Some((Operator::Plus, k))
    } else if let Some(k) = symbol_at(cs, i, "-") {
        Some((Operator::Min, k))
    } else if let Some(k) = symbol_at(cs, i, "*") {
        Some((Operator::Mul, k))
    } else if let Some(k) = symbol_at(cs, i, "/") {
        Some((Operator::Div, k))
    } else {
        None
    }
}

proof fn lemma_digits_in_run(s: Seq<char>, a: nat, k: nat)
    requires
        a <= k < digits_end(s, a),
        digits_end(s, a) <= s.len(),
    ensures
        is_digit(s[k as int]),
    decreases k - a,
{
    if a < k {
        lemma_digits_in_run(s, a + 1, k);
    }
}

fn parse_int(cs: &Vec<char>, i: usize) -> (r: Option<(Built<Node>, usize)>)
    requires
        i <= cs@.len(),
    ensures
        within(r, cs@.len()),
        found(r) == int_term(cs@, i as nat),
{
    let a = skip_ws_at(cs, i);
    if !(a < cs.len() && '0' <= cs[a] && cs[a] <= '9') {
        return None;
    }
    let b = digits_end_at(cs, a);
    let ghost s = cs@;
    let mut value: u32 = 0;
    let mut too_large = false;
    let mut k = a;
    while k < b
        invariant
            a <= k <= b <= s.len(),
            s == cs@,
            b as nat == digits_end(s, a as nat),
            !too_large ==> value as nat == digits_value(s.subrange(a as int, k as int)) && value <= i32::MAX,
            too_large ==> digits_value(s.subrange(a as int, k as int)) > i32::MAX,
        decreases b - k,
    {
        proof {
            lemma_digits_in_run(s, a as nat, k as nat);
        }
        let d = cs[k] as u32 - 48u32;
        assert(s.subrange(a as int, k + 1).drop_last() =~= s.subrange(a as int, k as int));
        if !too_large {
            if value > 214748364u32 || (value == 214748364u32 && d > 7) {
                too_large = true;
            } else {
                value = value * 10 + d;
            }
        }
        k = k + 1;
    }
    if too_large {
        Some((Err(ParseError::IntTooLarge), b))
    } else {
        Some((Ok(Node::Int(value as i32)), b))
    }
}

fn fold_unary_expr(op: Operator, child: Built<Node>) -> (r: Built<Node>)
    ensures
        r == unary_of(op, child),
{
    match child {
        Ok(c) => Ok(Node::UnaryExpr { op, child: Box::new(c) }),
        Err(e) => Err(e),
    }
}

fn fold_binary_expr(op: Operator, l: Built<Node>, r: Built<Node>) -> (res: Built<Node>)
    ensures
        res == binary_of(op, l, r),
{
    match (l, r) {
        (Err(e), _) => Err(e),
        (Ok(_), Err(e)) => Err(e),
        (Ok(a), Ok(b)) => Ok(Node::BinaryExpr { op, lhs: Box::new(a), rhs: Box::new(b) }),
    }
}

fn parse_term(cs: &Vec<char>, i: usize) -> (r: Option<(Built<Node>, usize)>)
    requires
        i <= cs@.len(),
    ensures
        within(r, cs@.len()),
        found(r) == term(cs@, i as nat),
    decreases cs@.len() - i, 1nat,
{
    if let Some(r) = parse_int(cs, i) {
        return Some(r);
    }
    let n = cs.len();
    let k = match symbol_at(cs, i, "(") {
        Some(k) => k,
        None => return None,
    };
    if !(i < k && k <= n) {
        return None;
    }
    match parse_expr(cs, k) {
        Some((e, j)) => match symbol_at(cs, j, ")") {
            Some(m) => Some((e, m)),
            None => None,
        },
        None => None,
    }
}

fn parse_unary(cs: &Vec<char>, i: usize) -> (r: Option<(Built<Node>, usize)>)
    requires
        i <= cs@.len(),
    ensures
        within(r, cs@.len()),
        found(r) == unary_expr(cs@, i as nat),
    decreases cs@.len() - i, 2nat,
{
    let n = cs.len();
    let (op, k) = match parse_operator(cs, i) {
        Some(r) => r,
        None => return None,
    };
    if !(i < k && k <= n) {
        return None;
    }
    match parse_term(cs, k) {
        Some((t, j)) => Some((fold_unary_expr(op, t), j)),
        None => None,
    }
}

fn parse_binary(cs: &Vec<char>, i: usize) -> (r: Option<(Built<Node>, usize)>)
    requires
        i <= cs@.len(),
    ensures
        within(r, cs@.len()),
        found(r) == binary_expr(cs@, i as nat),
    decreases cs@.len() - i, 4nat,
{
    let n = cs.len();
    let first = match parse_unary(cs, i) {
        Some(r) => Some(r),
        None => parse_term(cs, i),
    };
    let (l, j) = match first {
        Some(r) => r,
        None => return None,
    };
    if !(i < j && j <= n) {
        return None;
    }
    let ghost s = cs@;
    let ghost goal = binary_tail(s, j as nat, l);
    let mut acc = l;
    let mut p = j;
    loop
        invariant
            s == cs@,
            n == s.len(),
            i < j <= p <= n,
            binary_tail(s, p as nat, acc) == goal,
            goal == binary_tail(s, j as nat, binary_expr_first(s, i as nat)),
        ensures
            goal == (acc, p as nat),
        decreases n - p,
    {
        let (op, k) = match parse_operator(cs, p) {
            Some(r) => r,
            None => break,
        };
        if !(p < k && k <= n) {
            break;
        }
        let (t, q) = match parse_term(cs, k) {
            Some(r) => r,
            None => break,
        };
        if !(k < q && q <= n) {
            break;
        }
        acc = fold_binary_expr(op, acc, t);
        p = q;
    }
    if p > j {
        Some((acc, p))
    } else {
        None
    }
}

spec fn binary_expr_first(s: Seq<char>, i: nat) -> Built<Node> {
    match unary_expr(s, i) {
        Some((l, _)) => l,
        None => match term(s, i) {
            Some((l, _)) => l,
            None => Err(ParseError::Syntax),
        },
    }
}

fn parse_expr(cs: &Vec<char>, i: usize) -> (r: Option<(Built<Node>, usize)>)
    requires
        i <= cs@.len(),
    ensures
        within(r, cs@.len()),
        found(r) == expr(cs@, i as nat),
    decreases cs@.len() - i, 5nat,
{
    match parse_binary(cs, i) {
        Some(r) => Some(r),
        None => match parse_unary(cs, i) {
            Some(r) => Some(r),
            None => parse_term(cs, i),
        },
    }
}

fn parse_eof(cs: &Vec<char>, i: usize) -> (r: Option<usize>)
    requires
        i <= cs@.len(),
    ensures
        r matches Some(j) ==> j <= cs@.len(),
        match r {
            Some(j) => eof(cs@, i as nat) == Some(j as nat),
            None => eof(cs@, i as nat) is None,
        },
{
    let a = skip_ws_at(cs, i);
    if a >= cs.len() {
        Some(a)
    } else if cs[a] == ';' {
        Some(a + 1)
    } else {
        None
    }
}

spec fn built_vec(a: Built<Vec<Node>>) -> Built<Seq<Node>> {
    match a {
        Ok(v) => Ok(v@),
        Err(e) => Err(e),
    }
}

spec fn append_built(a: Built<Seq<Node>>, b: Built<Seq<Node>>) -> Built<Seq<Node>> {
    match (a, b) {
        (Err(e), _) => Err(e),
        (Ok(_), Err(e)) => Err(e),
        (Ok(x), Ok(y)) => Ok(x + y),
    }
}

/// Parses the source text of a calculator program into its expressions.
pub fn parse(source: &str) -> (r: Result<Vec<Node>, ParseError>)
    ensures
        match r {
            Ok(v) => program(source@) == Ok::<Seq<Node>, ParseError>(v@),
            Err(e) => program(source@) == Err::<Seq<Node>, ParseError>(e),
        },
{
    let cs = chars_of(source);
    let ghost s = cs@;
    let n = cs.len();
    let mut acc: Built<Vec<Node>> = Ok(Vec::new());
    let mut p: usize = 0;
    loop
        invariant
            s == cs@,
            s == source@,
            n == s.len(),
            p <= n,
            items(s, 0) == (
                append_built(built_vec(acc), items(s, p as nat).0),
                items(s, p as nat).1,
            ),
        ensures
            p <= n,
            items(s, 0) == (built_vec(acc), p as nat),
        decreases n - p,
    {
        let ghost accv: Built<Seq<Node>> = built_vec(acc);
        let stop = match parse_expr(&cs, p) {
            Some((e, j)) => match parse_eof(&cs, j) {
                Some(k) => {
                    if p < k && k <= n {
                        let ghost rest = items(s, k as nat).0;
                        let ghost ev = e;
                        acc = match (acc, e) {
                            (Err(x), _) => Err(x),
                            (Ok(_), Err(x)) => Err(x),
                            (Ok(mut v), Ok(a)) => {
                                v.push(a);
                                Ok(v)
                            },
                        };
                        proof {
                            if let (Ok(x), Ok(r)) = (accv, rest) {
                                if let Ok(a) = ev {
                                    assert(x + (seq![a] + r) =~= x.push(a) + r);
                                }
                            }
                        }
                        p = k;
                        false
                    } else {
                        true
                    }
                },
                None => true,
            },
            None => true,
        };
        if stop {
            proof {
                if let Ok(x) = accv {
                    assert(x + Seq::<Node>::empty() =~= x);
                }
            }
            break;
        }
    }
    if p == 0 {
        return Err(ParseError::Syntax);
    }
    acc
}

} // verus!
