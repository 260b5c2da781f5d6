//! The syntax of the language, as a function from source characters to programs.
//!
//! ```text
//! Program        = Stmt* EOI
//! Stmt           = (Function | Return | Assignment | Expr) ";"?
//! Function       = "fn" Identifier "(" (Identifier ("," Identifier)*)? ")" Block
//! Return         = "return" Expr
//! Assignment     = Identifier "=" Expr
//! Expr           = Conditional | WhileLoop | Comparison
//! Conditional    = "if" Expr Block "else" Block
//! WhileLoop      = "while" Expr Block
//! Comparison     = Additive (("==" | "!=" | "<=" | ">=" | "<" | ">") Additive)*
//! Additive       = Multiplicative (("+" | "-") Multiplicative)*
//! Multiplicative = Unary (("*" | "/" | "%") Unary)*
//! Unary          = ("!" | "-") Unary | Call
//! Call           = Primary CallArgs*
//! CallArgs       = "(" (Expr ("," Expr)*)? ")"
//! Primary        = Bool | Int | Identifier | "(" Expr ")" | Block
//! Block          = "{" Stmt* "}"
//! Bool           = "true" | "false"
//! Int            = digit+
//! Identifier     = (letter | "_") (letter | digit | "_")*, other than a keyword
//! ```
//!
//! Choices are ordered and repetitions greedy (a parsing expression grammar); whitespace
//! (space, tab, carriage return, line feed) may stand before any token. Keywords (`fn`,
//! `return`, `if`, `else`, `while`, `true`, `false`) are whole words.
//!
//! Each parsing function answers `None` where its rule does not match at the position, or the
//! value built and the position after the match. Building can fail where the text matches
//! (an integer literal that does not fit in 64 bits, a call of something other than a name):
//! such a value is an `Err` with the message, and the first one in the text is reported once
//! the whole program has matched.
use vstd::prelude::*;
use crate::fl::ast::{BinaryOp, SExpr, SStmt, UnaryOp};
use crate::lexical::{digits_end, digits_value, is_digit, skip_ws, symbol};
use crate::text::nat_text;

verus! {

/// A value built by a rule, or the message of what went wrong building it.
pub type Built<T> = Result<T, Seq<char>>;



pub open spec fn is_ident_start(c: char) -> bool {
    ('a' <= c && c <= 'z') || ('A' <= c && c <= 'Z') || c == '_'
}

pub open spec fn is_ident_char(c: char) -> bool {
    is_ident_start(c) || is_digit(c)
}


/// The end of the run of identifier characters from `i`.
pub open spec fn ident_end(s: Seq<char>, i: nat) -> nat
    decreases s.len() - i,
{
    if i < s.len() && is_ident_char(s[i as int]) {
        ident_end(s, i + 1)
    } else {
        i
    }
}



/// The word (identifier characters, starting with a letter or `_`) after whitespace.
pub open spec fn word(s: Seq<char>, i: nat) -> Option<(Seq<char>, nat)> {
    let a = skip_ws(s, i);
    if a < s.len() && is_ident_start(s[a as int]) {
        let b = ident_end(s, a);
        Some((s.subrange(a as int, b as int), b))
    } else {
        None
    }
}

pub open spec fn is_keyword(w: Seq<char>) -> bool {
    w == "fn"@ || w == "return"@ || w == "if"@ || w == "else"@ || w == "while"@ || w == "true"@
        || w == "false"@
}

/// The keyword `k` as a whole word.
pub open spec fn keyword(s: Seq<char>, i: nat, k: Seq<char>) -> Option<nat> {
    match word(s, i) {
        Some((w, b)) => if w == k {
            Some(b)
        } else {
            None
        },
        None => None,
    }
}

pub open spec fn identifier(s: Seq<char>, i: nat) -> Option<(Seq<char>, nat)> {
    match word(s, i) {
        Some((w, b)) => if is_keyword(w) {
            None
        } else {
            Some((w, b))
        },
        None => None,
    }
}


pub open spec fn too_large_text() -> Seq<char> {
    "number too large to fit in target type"@
}

pub open spec fn not_named_text() -> Seq<char> {
    "Can only call named functions"@
}

/// A run of digits after whitespace.
pub open spec fn int_lit(s: Seq<char>, i: nat) -> Option<(Built<i64>, nat)> {
    let a = skip_ws(s, i);
    if a < s.len() && is_digit(s[a as int]) {
        let b = digits_end(s, a);
        let v = digits_value(s.subrange(a as int, b as int));
        Some((if v <= i64::MAX { Ok(v as i64) } else { Err(too_large_text()) }, b))
    } else {
        None
    }
}

pub open spec fn comp_op(s: Seq<char>, i: nat) -> Option<(BinaryOp, nat)> {
    if let Some(k) = symbol(s, i, "=="@) {
        Some((BinaryOp::Eq, k))
    } else if let Some(k) = symbol(s, i, "!="@) {
        Some((BinaryOp::Ne, k))
    } else if let Some(k) = symbol(s, i, "<="@) {
        Some((BinaryOp::Le, k))
    } else if let Some(k) = symbol(s, i, ">="@) {
        Some((BinaryOp::Ge, k))
    } else if let Some(k) = symbol(s, i, "<"@) {
        Some((BinaryOp::Lt, k))
    } else if let Some(k) = symbol(s, i, ">"@) {
        Some((BinaryOp::Gt, k))
    } else {
        None
    }
}

pub open spec fn add_op(s: Seq<char>, i: nat) -> Option<(BinaryOp, nat)> {
    if let Some(k) = symbol(s, i, "+"@) {
        Some((BinaryOp::Add, k))
    } else if let Some(k) = symbol(s, i, "-"@) {
        Some((BinaryOp::Sub, k))
    } else {
        None
    }
}

pub open spec fn mul_op(s: Seq<char>, i: nat) -> Option<(BinaryOp, nat)> {
    if let Some(k) = symbol(s, i, "*"@) {
        Some((BinaryOp::Mul, k))
    } else if let Some(k) = symbol(s, i, "/"@) {
        Some((BinaryOp::Div, k))
    } else if let Some(k) = symbol(s, i, "%"@) {
        Some((BinaryOp::Mod, k))
    } else {
        None
    }
}

pub open spec fn unary_op(s: Seq<char>, i: nat) -> Option<(UnaryOp, nat)> {
    if let Some(k) = symbol(s, i, "!"@) {
        Some((UnaryOp::Not, k))
    } else if let Some(k) = symbol(s, i, "-"@) {
        Some((UnaryOp::Neg, k))
    } else {
        None
    }
}

/// The text of an infix operator in the source.
pub open spec fn binop_symbol(op: BinaryOp) -> Seq<char> {
    match op {
        BinaryOp::Add => seq!['+'],
        BinaryOp::Sub => seq!['-'],
        BinaryOp::Mul => seq!['*'],
        BinaryOp::Div => seq!['/'],
        BinaryOp::Mod => seq!['%'],
        BinaryOp::Lt => seq!['<'],
        BinaryOp::Gt => seq!['>'],
        BinaryOp::Le => seq!['<', '='],
        BinaryOp::Ge => seq!['>', '='],
        BinaryOp::Eq => seq!['=', '='],
        BinaryOp::Ne => seq!['!', '='],
    }
}

/// The text of a prefix operator in the source.
pub open spec fn unop_symbol(op: UnaryOp) -> Seq<char> {
    match op {
        UnaryOp::Neg => seq!['-'],
        UnaryOp::Not => seq!['!'],
    }
}

pub open spec fn is_comparison(op: BinaryOp) -> bool {
    op == BinaryOp::Lt || op == BinaryOp::Gt || op == BinaryOp::Le || op == BinaryOp::Ge || op == BinaryOp::Eq
        || op == BinaryOp::Ne
}

/// The text `t` stands at `a` in `s`.
pub open spec fn text_at(s: Seq<char>, a: nat, t: Seq<char>) -> bool {
    a + t.len() <= s.len() && s.subrange(a as int, (a + t.len()) as int) == t
}

/// A one-character operator token at `a` is not the start of a two-character one ending in `=`.
pub open spec fn token_at(s: Seq<char>, a: nat, t: Seq<char>) -> bool {
    text_at(s, a, t) && (t.len() == 1 ==> !(a + 1 < s.len() && s[a + 1 as int] == '='))
}

proof fn lemma_symbol_chars(s: Seq<char>, i: nat, t: Seq<char>)
    requires
        i <= s.len(),
    ensures
        symbol(s, i, t) == (if text_at(s, skip_ws(s, i), t) { Some(skip_ws(s, i) + t.len()) } else { None::<nat> }),
{
}

proof fn lemma_text_at_one(s: Seq<char>, a: nat, c: char)
    ensures
        text_at(s, a, seq![c]) == (a < s.len() && s[a as int] == c),
{
    if a < s.len() {
        assert(s.subrange(a as int, (a + 1) as int) =~= seq![s[a as int]]);
        if s.subrange(a as int, (a + 1) as int) == seq![c] {
            assert(s.subrange(a as int, (a + 1) as int)[0] == s[a as int]);
        }
    }
}

proof fn lemma_text_at_two(s: Seq<char>, a: nat, c: char, d: char)
    ensures
        text_at(s, a, seq![c, d]) == (a + 1 < s.len() && s[a as int] == c && s[a + 1 as int] == d),
{
    if a + 1 < s.len() {
        assert(s.subrange(a as int, (a + 2) as int) =~= seq![s[a as int], s[a + 1 as int]]);
        if s.subrange(a as int, (a + 2) as int) == seq![c, d] {
            assert(s.subrange(a as int, (a + 2) as int)[0] == s[a as int]);
            assert(s.subrange(a as int, (a + 2) as int)[1] == s[a + 1 as int]);
        }
    }
}

/// Each comparison token after white space reads as its own operator (`>` alone as `Gt`, `>=` as
/// `Ge`, and so on), and whatever comparison operator is read, its text is what stands there.
pub proof fn lemma_comparison_tokens(s: Seq<char>, i: nat, op: BinaryOp)
    requires
        i <= s.len(),
        is_comparison(op),
    ensures
        token_at(s, skip_ws(s, i), binop_symbol(op)) ==> comp_op(s, i) == Some((op, skip_ws(s, i) + binop_symbol(op).len())),
        comp_op(s, i) matches Some((o, k)) ==> is_comparison(o) && k == skip_ws(s, i) + binop_symbol(o).len()
            && text_at(s, skip_ws(s, i), binop_symbol(o)),
{
    reveal_strlit("==");
    reveal_strlit("!=");
    reveal_strlit("<=");
    reveal_strlit(">=");
    reveal_strlit("<");
    reveal_strlit(">");
    let a = skip_ws(s, i);
    assert("=="@ =~= seq!['=', '=']);
    assert("!="@ =~= seq!['!', '=']);
    assert("<="@ =~= seq!['<', '=']);
    assert(">="@ =~= seq!['>', '=']);
    assert("<"@ =~= seq!['<']);
    assert(">"@ =~= seq!['>']);
    lemma_symbol_chars(s, i, "=="@);
    lemma_symbol_chars(s, i, "!="@);
    lemma_symbol_chars(s, i, "<="@);
    lemma_symbol_chars(s, i, ">="@);
    lemma_symbol_chars(s, i, "<"@);
    lemma_symbol_chars(s, i, ">"@);
    lemma_text_at_two(s, a, '=', '=');
    lemma_text_at_two(s, a, '!', '=');
    lemma_text_at_two(s, a, '<', '=');
    lemma_text_at_two(s, a, '>', '=');
    lemma_text_at_one(s, a, '<');
    lemma_text_at_one(s, a, '>');
}

/// `+` reads as `Add` and `-` as `Sub`, and whatever is read is what stands there.
pub proof fn lemma_additive_tokens(s: Seq<char>, i: nat, op: BinaryOp)
    requires
        i <= s.len(),
        op == BinaryOp::Add || op == BinaryOp::Sub,
    ensures
        text_at(s, skip_ws(s, i), binop_symbol(op)) ==> add_op(s, i) == Some((op, skip_ws(s, i) + 1)),
        add_op(s, i) matches Some((o, k)) ==> (o == BinaryOp::Add || o == BinaryOp::Sub) && k == skip_ws(s, i) + 1
            && text_at(s, skip_ws(s, i), binop_symbol(o)),
{
    reveal_strlit("+");
    reveal_strlit("-");
    let a = skip_ws(s, i);
    assert("+"@ =~= seq!['+']);
    assert("-"@ =~= seq!['-']);
    lemma_symbol_chars(s, i, "+"@);
    lemma_symbol_chars(s, i, "-"@);
    lemma_text_at_one(s, a, '+');
    lemma_text_at_one(s, a, '-');
}

/// `*` reads as `Mul`, `/` as `Div` and `%` as `Mod`, and whatever is read is what stands there.
pub proof fn lemma_multiplicative_tokens(s: Seq<char>, i: nat, op: BinaryOp)
    requires
        i <= s.len(),
        op == BinaryOp::Mul || op == BinaryOp::Div || op == BinaryOp::Mod,
    ensures
        text_at(s, skip_ws(s, i), binop_symbol(op)) ==> mul_op(s, i) == Some((op, skip_ws(s, i) + 1)),
        mul_op(s, i) matches Some((o, k)) ==> (o == BinaryOp::Mul || o == BinaryOp::Div || o == BinaryOp::Mod)
            && k == skip_ws(s, i) + 1 && text_at(s, skip_ws(s, i), binop_symbol(o)),
{
    reveal_strlit("*");
    reveal_strlit("/");
    reveal_strlit("%");
    let a = skip_ws(s, i);
    assert("*"@ =~= seq!['*']);
    assert("/"@ =~= seq!['/']);
    assert("%"@ =~= seq!['%']);
    lemma_symbol_chars(s, i, "*"@);
    lemma_symbol_chars(s, i, "/"@);
    lemma_symbol_chars(s, i, "%"@);
    lemma_text_at_one(s, a, '*');
    lemma_text_at_one(s, a, '/');
    lemma_text_at_one(s, a, '%');
}

/// `!` reads as `Not` and `-` as `Neg`, and whatever is read is what stands there.
pub proof fn lemma_prefix_tokens(s: Seq<char>, i: nat, op: UnaryOp)
    requires
        i <= s.len(),
    ensures
        text_at(s, skip_ws(s, i), unop_symbol(op)) ==> unary_op(s, i) == Some((op, skip_ws(s, i) + 1)),
        unary_op(s, i) matches Some((o, k)) ==> k == skip_ws(s, i) + 1 && text_at(s, skip_ws(s, i), unop_symbol(o)),
{
    reveal_strlit("!");
    reveal_strlit("-");
    let a = skip_ws(s, i);
    assert("!"@ =~= seq!['!']);
    assert("-"@ =~= seq!['-']);
    lemma_symbol_chars(s, i, "!"@);
    lemma_symbol_chars(s, i, "-"@);
    lemma_text_at_one(s, a, '!');
    lemma_text_at_one(s, a, '-');
}

/// `Binary(op, l, r)`, or the first failure of the two operands.
pub open spec fn binary_of(op: BinaryOp, l: Built<SExpr>, r: Built<SExpr>) -> Built<SExpr> {
    match (l, r) {
        (Err(m), _) => Err(m),
        (Ok(_), Err(m)) => Err(m),
        (Ok(a), Ok(b)) => Ok(SExpr::Binary(op, Box::new(a), Box::new(b))),
    }
}

/// The expression that calling `callee` with `args` builds: `print(..)` is the print
/// expression, a call of another name a call; anything else cannot be called.
pub open spec fn call_of(callee: Built<SExpr>, args: Built<Seq<SExpr>>) -> Built<SExpr> {
    match (callee, args) {
        (Err(m), _) => Err(m),
        (Ok(_), Err(m)) => Err(m),
        (Ok(c), Ok(a)) => match c {
            SExpr::Var(name) => if name == "print"@ {
                Ok(SExpr::Print(a))
            } else {
                Ok(SExpr::Call(name, a))
            },
            _ => Err(not_named_text()),
        },
    }
}

/// `first` in front of `rest`, or the first failure.
pub open spec fn cons<T>(first: Built<T>, rest: Built<Seq<T>>) -> Built<Seq<T>> {
    match (first, rest) {
        (Err(m), _) => Err(m),
        (Ok(_), Err(m)) => Err(m),
        (Ok(a), Ok(r)) => Ok(seq![a] + r),
    }
}

pub open spec fn snoc<T>(init: Built<Seq<T>>, last: Built<T>) -> Built<Seq<T>> {
    match (init, last) {
        (Err(m), _) => Err(m),
        (Ok(_), Err(m)) => Err(m),
        (Ok(a), Ok(b)) => Ok(a.push(b)),
    }
}

// ---------------------------------------------------------------- expressions

pub open spec fn expr(s: Seq<char>, i: nat) -> Option<(Built<SExpr>, nat)>
    decreases s.len() - i, 11nat,
{
    match conditional(s, i) {
        Some(r) => Some(r),
        None => match while_loop(s, i) {
            Some(r) => Some(r),
            None => comparison(s, i),
        },
    }
}

pub open spec fn conditional(s: Seq<char>, i: nat) -> Option<(Built<SExpr>, nat)>
    decreases s.len() - i, 10nat,
{
    match keyword(s, i, "if"@) {
        Some(k) => if i < k <= s.len() {
            match expr(s, k) {
                Some((c, k2)) => if k < k2 <= s.len() {
                    match block(s, k2) {
                        Some((t, k3)) => match keyword(s, k3, "else"@) {
                            Some(k4) => if k < k4 <= s.len() {
                                match block(s, k4) {
                                    Some((el, k5)) => Some((
                                        match (c, t, el) {
                                            (Err(m), _, _) => Err(m),
                                            (Ok(_), Err(m), _) => Err(m),
                                            (Ok(_), Ok(_), Err(m)) => Err(m),
                                            (Ok(cv), Ok(tv), Ok(ev)) => Ok(SExpr::If(Box::new(cv), tv, ev)),
                                        },
                                        k5,
                                    )),
                                    None => None,
                                }
                            } else {
                                None
                            },
                            None => None,
                        },
                        None => None,
                    }
                } else {
                    None
                },
                None => None,
            }
        } else {
            None
        },
        None => None,
    }
}

pub open spec fn while_loop(s: Seq<char>, i: nat) -> Option<(Built<SExpr>, nat)>
    decreases s.len() - i, 10nat,
{
    match keyword(s, i, "while"@) {
        Some(k) => if i < k <= s.len() {
            match expr(s, k) {
                Some((c, k2)) => if k < k2 <= s.len() {
                    match block(s, k2) {
                        Some((b, k3)) => Some((
                            match (c, b) {
                                (Err(m), _) => Err(m),
                                (Ok(_), Err(m)) => Err(m),
                                (Ok(cv), Ok(bv)) => Ok(SExpr::While(Box::new(cv), bv)),
                            },
                            k3,
                        )),
                        None => None,
                    }
                } else {
                    None
                },
                None => None,
            }
        } else {
            None
        },
        None => None,
    }
}

pub open spec fn comparison(s: Seq<char>, i: nat) -> Option<(Built<SExpr>, nat)>
    decreases s.len() - i, 9nat,
{
    match additive(s, i) {
        Some((l, j)) => if i < j <= s.len() {
            Some(comparison_tail(s, j, l))
        } else {
            None
        },
        None => None,
    }
}

/// `(op Additive)*` after the left operand `acc`, folded to the left.
pub open spec fn comparison_tail(s: Seq<char>, i: nat, acc: Built<SExpr>) -> (Built<SExpr>, nat)
    decreases s.len() - i, 9nat,
{
    match comp_op(s, i) {
        Some((op, k)) => if i < k <= s.len() {
            match additive(s, k) {
                Some((r, j)) => if k < j <= s.len() {
                    comparison_tail(s, j, binary_of(op, acc, r))
                } else {
                    (acc, i)
                },
                None => (acc, i),
            }
        } else {
            (acc, i)
        },
        None => (acc, i),
    }
}

pub open spec fn additive(s: Seq<char>, i: nat) -> Option<(Built<SExpr>, nat)>
    decreases s.len() - i, 8nat,
{
    match multiplicative(s, i) {
        Some((l, j)) => if i < j <= s.len() {
            Some(additive_tail(s, j, l))
        } else {
            None
        },
        None => None,
    }
}

pub open spec fn additive_tail(s: Seq<char>, i: nat, acc: Built<SExpr>) -> (Built<SExpr>, nat)
    decreases s.len() - i, 8nat,
{
    match add_op(s, i) {
        Some((op, k)) => if i < k <= s.len() {
            match multiplicative(s, k) {
                Some((r, j)) => if k < j <= s.len() {
                    additive_tail(s, j, binary_of(op, acc, r))
                } else {
                    (acc, i)
                },
                None => (acc, i),
            }
        } else {
            (acc, i)
        },
        None => (acc, i),
    }
}

pub open spec fn multiplicative(s: Seq<char>, i: nat) -> Option<(Built<SExpr>, nat)>
    decreases s.len() - i, 7nat,
{
    match unary(s, i) {
        Some((l, j)) => if i < j <= s.len() {
            Some(multiplicative_tail(s, j, l))
        } else {
            None
        },
        None => None,
    }
}

pub open spec fn multiplicative_tail(s: Seq<char>, i: nat, acc: Built<SExpr>) -> (Built<SExpr>, nat)
    decreases s.len() - i, 7nat,
{
    match mul_op(s, i) {
        Some((op, k)) => if i < k <= s.len() {
            match unary(s, k) {
                Some((r, j)) => if k < j <= s.len() {
                    multiplicative_tail(s, j, binary_of(op, acc, r))
                } else {
                    (acc, i)
                },
                None => (acc, i),
            }
        } else {
            (acc, i)
        },
        None => (acc, i),
    }
}

pub open spec fn unary(s: Seq<char>, i: nat) -> Option<(Built<SExpr>, nat)>
    decreases s.len() - i, 6nat,
{
    match unary_op(s, i) {
        Some((op, k)) => if i < k <= s.len() {
            match unary(s, k) {
                Some((a, j)) => Some((
                    match a {
                        Err(m) => Err(m),
                        Ok(av) => Ok(SExpr::Unary(op, Box::new(av))),
                    },
                    j,
                )),
                None => call(s, i),
            }
        } else {
            call(s, i)
        },
        None => call(s, i),
    }
}

pub open spec fn call(s: Seq<char>, i: nat) -> Option<(Built<SExpr>, nat)>
    decreases s.len() - i, 5nat,
{
    match primary(s, i) {
        Some((p, j)) => if i < j <= s.len() {
            Some(call_tail(s, j, p))
        } else {
            None
        },
        None => None,
    }
}

/// `CallArgs*` after the callee `acc`.
pub open spec fn call_tail(s: Seq<char>, i: nat, acc: Built<SExpr>) -> (Built<SExpr>, nat)
    decreases s.len() - i, 5nat,
{
    match call_args(s, i) {
        Some((a, k)) => if i < k <= s.len() {
            call_tail(s, k, call_of(acc, a))
        } else {
            (acc, i)
        },
        None => (acc, i),
    }
}

/// `"(" (Expr ("," Expr)*)? ")"`.
pub open spec fn call_args(s: Seq<char>, i: nat) -> Option<(Built<Seq<SExpr>>, nat)>
    decreases s.len() - i, 4nat,
{
    match symbol(s, i, "("@) {
        Some(k) => if i < k <= s.len() {
            let (items, j) = match expr(s, k) {
                Some((first, j0)) => if k < j0 <= s.len() {
                    expr_list_tail(s, j0, snoc(Ok(Seq::empty()), first))
                } else {
                    (Ok(Seq::empty()), k)
                },
                None => (Ok(Seq::empty()), k),
            };
            match symbol(s, j, ")"@) {
                Some(m) => Some((items, m)),
                None => None,
            }
        } else {
            None
        },
        None => None,
    }
}

/// `("," Expr)*` after the items `acc`.
pub open spec fn expr_list_tail(s: Seq<char>, i: nat, acc: Built<Seq<SExpr>>) -> (Built<Seq<SExpr>>, nat)
    decreases s.len() - i, 4nat,
{
    match symbol(s, i, ","@) {
        Some(k) => if i < k <= s.len() {
            match expr(s, k) {
                Some((e, j)) => if k < j <= s.len() {
                    expr_list_tail(s, j, snoc(acc, e))
                } else {
                    (acc, i)
                },
                None => (acc, i),
            }
        } else {
            (acc, i)
        },
        None => (acc, i),
    }
}

pub open spec fn primary(s: Seq<char>, i: nat) -> Option<(Built<SExpr>, nat)>
    decreases s.len() - i, 4nat,
{
    if let Some(k) = keyword(s, i, "true"@) {
        Some((Ok(SExpr::Bool(true)), k))
    } else if let Some(k) = keyword(s, i, "false"@) {
        Some((Ok(SExpr::Bool(false)), k))
    } else if let Some((n, k)) = int_lit(s, i) {
        Some((
            match n {
                Ok(v) => Ok(SExpr::Int(v)),
                Err(m) => Err(m),
            },
            k,
        ))
    } else if let Some((name, k)) = identifier(s, i) {
        Some((Ok(SExpr::Var(name)), k))
    } else if let Some(Some(r)) = parenthesized(s, i) {
        Some(r)
    } else {
        match block(s, i) {
            Some((b, k)) => Some((
                match b {
                    Err(m) => Err(m),
                    Ok(stmts) => Ok(SExpr::Block(stmts)),
                },
                k,
            )),
            None => None,
        }
    }
}

/// `"(" Expr ")"`: `None` where there is no `(`, `Some(None)` where the rest does not match.
pub open spec fn parenthesized(s: Seq<char>, i: nat) -> Option<Option<(Built<SExpr>, nat)>>
    decreases s.len() - i, 3nat,
{
    match symbol(s, i, "("@) {
        Some(k) => if i < k <= s.len() {
            match expr(s, k) {
                Some((e, j)) => match symbol(s, j, ")"@) {
                    Some(m) => Some(Some((e, m))),
                    None => Some(None),
                },
                None => Some(None),
            }
        } else {
            Some(None)
        },
        None => None,
    }
}

pub open spec fn block(s: Seq<char>, i: nat) -> Option<(Built<Seq<SStmt>>, nat)>
    decreases s.len() - i, 3nat,
{
    match symbol(s, i, "{"@) {
        Some(k) => if i < k <= s.len() {
            let (stmts, j) = stmt_list(s, k);
            match symbol(s, j, "}"@) {
                Some(m) => Some((stmts, m)),
                None => None,
            }
        } else {
            None
        },
        None => None,
    }
}

// ---------------------------------------------------------------- statements

/// `Stmt*`: as many statements as match from `i`.
pub open spec fn stmt_list(s: Seq<char>, i: nat) -> (Built<Seq<SStmt>>, nat)
    decreases s.len() - i, 14nat,
{
    match stmt(s, i) {
        Some((st, j)) => if i < j <= s.len() {
            let (rest, k) = stmt_list(s, j);
            (cons(st, rest), k)
        } else {
            (Ok(Seq::empty()), i)
        },
        None => (Ok(Seq::empty()), i),
    }
}

pub open spec fn stmt(s: Seq<char>, i: nat) -> Option<(Built<SStmt>, nat)>
    decreases s.len() - i, 13nat,
{
    let body = if let Some(r) = function(s, i) {
        Some(r)
    } else if let Some(r) = return_stmt(s, i) {
        Some(r)
    } else if let Some(r) = assignment(s, i) {
        Some(r)
    } else {
        match expr(s, i) {
            Some((e, j)) => Some((
                match e {
                    Err(m) => Err(m),
                    Ok(ev) => Ok(SStmt::Expr(ev)),
                },
                j,
            )),
            None => None,
        }
    };
    match body {
        Some((st, j)) => match symbol(s, j, ";"@) {
            Some(k) => Some((st, k)),
            None => Some((st, j)),
        },
        None => None,
    }
}

pub open spec fn function(s: Seq<char>, i: nat) -> Option<(Built<SStmt>, nat)>
    decreases s.len() - i, 12nat,
{
    match keyword(s, i, "fn"@) {
        Some(k) => if i < k <= s.len() {
            match identifier(s, k) {
                Some((name, k2)) => match params(s, k2) {
                    Some((ps, k3)) => if k < k3 <= s.len() {
                        match block(s, k3) {
                            Some((body, k4)) => Some((
                                match body {
                                    Err(m) => Err(m),
                                    Ok(b) => Ok(SStmt::Function(name, ps, b)),
                                },
                                k4,
                            )),
                            None => None,
                        }
                    } else {
                        None
                    },
                    None => None,
                },
                None => None,
            }
        } else {
            None
        },
        None => None,
    }
}

/// `"(" (Identifier ("," Identifier)*)? ")"`.
pub open spec fn params(s: Seq<char>, i: nat) -> Option<(Seq<Seq<char>>, nat)> {
    match symbol(s, i, "("@) {
        Some(k) => {
            let (names, j) = match identifier(s, k) {
                Some((first, j0)) => name_list_tail(s, j0, seq![first]),
                None => (Seq::empty(), k),
            };
            match symbol(s, j, ")"@) {
                Some(m) => Some((names, m)),
                None => None,
            }
        },
        None => None,
    }
}

pub open spec fn name_list_tail(s: Seq<char>, i: nat, acc: Seq<Seq<char>>) -> (Seq<Seq<char>>, nat)
    decreases s.len() - i,
{
    match symbol(s, i, ","@) {
        Some(k) => match identifier(s, k) {
            Some((name, j)) => if i < j <= s.len() {
                name_list_tail(s, j, acc.push(name))
            } else {
                (acc, i)
            },
            None => (acc, i),
        },
        None => (acc, i),
    }
}

pub open spec fn return_stmt(s: Seq<char>, i: nat) -> Option<(Built<SStmt>, nat)>
    decreases s.len() - i, 12nat,
{
    match keyword(s, i, "return"@) {
        Some(k) => if i < k <= s.len() {
            match expr(s, k) {
                Some((e, j)) => Some((
                    match e {
                        Err(m) => Err(m),
                        Ok(ev) => Ok(SStmt::Return(ev)),
                    },
                    j,
                )),
                None => None,
            }
        } else {
            None
        },
        None => None,
    }
}

pub open spec fn assignment(s: Seq<char>, i: nat) -> Option<(Built<SStmt>, nat)>
    decreases s.len() - i, 12nat,
{
    match identifier(s, i) {
        Some((name, k)) => match symbol(s, k, "="@) {
            Some(k2) => if i < k2 <= s.len() {
                match expr(s, k2) {
                    Some((e, j)) => Some((
                        match e {
                            Err(m) => Err(m),
                            Ok(ev) => Ok(SStmt::Assignment(name, ev)),
                        },
                        j,
                    )),
                    None => None,
                }
            } else {
                None
            },
            None => None,
        },
        None => None,
    }
}

/// The message for text that does not match the grammar at character offset `pos`.
pub open spec fn syntax_error_text(pos: nat) -> Seq<char> {
    "parser err unexpected input at offset "@ + nat_text(pos)
}

/// The program that the source text `s` denotes, or the message of why it denotes none.
pub open spec fn parse_program(s: Seq<char>) -> Built<Seq<SStmt>> {
    let (stmts, p) = stmt_list(s, 0);
    let q = skip_ws(s, p);
    if q < s.len() {
        Err(syntax_error_text(q))
    } else {
        stmts
    }
}

} // verus!
