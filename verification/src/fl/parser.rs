//! The parser: source text to syntax tree, by the grammar of `fl::grammar`.
use vstd::prelude::*;
use crate::fl::ast::{
    expr_view, exprs_view, lemma_exprs_view, lemma_stmts_view, names_view, stmt_view, stmts_view, BinaryOp, Expr,
    SExpr, SStmt, Stmt, UnaryOp,
};
use crate::fl::grammar::{
    add_op, additive, additive_tail, assignment, binary_of, block, call, call_args, call_of, call_tail,
    comp_op, comparison, comparison_tail, conditional, cons, expr, expr_list_tail,
    function, ident_end, identifier, int_lit, is_ident_char, is_ident_start, is_keyword, keyword,
    mul_op, multiplicative, multiplicative_tail, name_list_tail, not_named_text, params, parenthesized,
    parse_program, primary, return_stmt, snoc, stmt, stmt_list, syntax_error_text,
    too_large_text, unary, unary_op, while_loop, word, Built,
};
use crate::lexical::{digits_end, digits_value, is_digit, is_ws, skip_ws, symbol};
use crate::text::{chars_of, push_char, write_nat};

verus! {

pub open spec fn built_expr(r: Result<Expr, String>) -> Built<SExpr> {
    match r {
        Ok(e) => Ok(expr_view(e)),
        Err(m) => Err(m@),
    }
}

pub open spec fn built_exprs(r: Result<Vec<Expr>, String>) -> Built<Seq<SExpr>> {
    match r {
        Ok(e) => Ok(exprs_view(e@)),
        Err(m) => Err(m@),
    }
}

pub open spec fn built_stmt(r: Result<Stmt, String>) -> Built<SStmt> {
    match r {
        Ok(e) => Ok(stmt_view(e)),
        Err(m) => Err(m@),
    }
}

pub open spec fn built_stmts(r: Result<Vec<Stmt>, String>) -> Built<Seq<SStmt>> {
    match r {
        Ok(e) => Ok(stmts_view(e@)),
        Err(m) => Err(m@),
    }
}

pub open spec fn found_expr(r: Option<(Result<Expr, String>, usize)>) -> Option<(Built<SExpr>, nat)> {
    match r {
        Some((e, j)) => Some((built_expr(e), j as nat)),
        None => None,
    }
}

pub open spec fn found_stmt(r: Option<(Result<Stmt, String>, usize)>) -> Option<(Built<SStmt>, nat)> {
    match r {
        Some((e, j)) => Some((built_stmt(e), j as nat)),
        None => None,
    }
}

pub open spec fn found_stmts(r: Option<(Result<Vec<Stmt>, String>, usize)>) -> Option<(Built<Seq<SStmt>>, nat)> {
    match r {
        Some((e, j)) => Some((built_stmts(e), j as nat)),
        None => None,
    }
}

pub open spec fn found_exprs(r: Option<(Result<Vec<Expr>, String>, usize)>) -> Option<(Built<Seq<SExpr>>, nat)> {
    match r {
        Some((e, j)) => Some((built_exprs(e), j as nat)),
        None => None,
    }
}

pub open spec fn within<T>(r: Option<(T, usize)>, n: nat) -> bool {
    r matches Some((_, j)) ==> j <= n
}

/// The parser's state: the characters of the source text.
pub struct RuleParser {
    pub(crate) chars: Vec<char>,
}

impl RuleParser {
    pub closed spec fn text(&self) -> Seq<char> {
        self.chars@
    }

    pub fn new(source: &str) -> (r: RuleParser)
        ensures
            r.text() == source@,
    {
        RuleParser { chars: chars_of(source) }
    }

    /// A parser over the characters of `source`, for the parsers of other languages.
    pub(crate) fn over(source: &str) -> (r: RuleParser)
        ensures
            r.chars@ == source@,
    {
        RuleParser { chars: chars_of(source) }
    }

    pub(crate) fn skip_ws(&self, i: usize) -> (r: usize)
        requires
            i <= self.chars@.len(),
        ensures
            r as nat == skip_ws(self.chars@, i as nat),
            i <= r <= self.chars@.len(),
    {
        let n = self.chars.len();
        let mut k = i;
        while k < n && (self.chars[k] == ' ' || self.chars[k] == '\t' || self.chars[k] == '\r' || self.chars[k] == '\n')
            invariant
                n == self.chars@.len(),
                i <= k <= n,
                skip_ws(self.chars@, k as nat) == skip_ws(self.chars@, i as nat),
            decreases n - k,
        {
            k = k + 1;
        }
        k
    }

    fn ident_end(&self, i: usize) -> (r: usize)
        requires
            i <= self.chars@.len(),
        ensures
            r as nat == ident_end(self.chars@, i as nat),
            i <= r <= self.chars@.len(),
    {
        let n = self.chars.len();
        let mut k = i;
        while k < n && is_ident_char_exec(self.chars[k])
            invariant
                n == self.chars@.len(),
                i <= k <= n,
                ident_end(self.chars@, k as nat) == ident_end(self.chars@, i as nat),
            decreases n - k,
        {
            k = k + 1;
        }
        k
    }

    fn digits_end(&self, i: usize) -> (r: usize)
        requires
            i <= self.chars@.len(),
        ensures
            r as nat == digits_end(self.chars@, i as nat),
            i <= r <= self.chars@.len(),
    {
        let n = self.chars.len();
        let mut k = i;
        while k < n && is_digit_exec(self.chars[k])
            invariant
                n == self.chars@.len(),
                i <= k <= n,
                digits_end(self.chars@, k as nat) == digits_end(self.chars@, i as nat),
            decreases n - k,
        {
            k = k + 1;
        }
        k
    }

    /// Whether the characters from `a` to `b` are `t`.
    fn text_is(&self, a: usize, b: usize, t: &str) -> (r: bool)
        requires
            a <= b <= self.chars@.len(),
        ensures
            r == (self.chars@.subrange(a as int, b as int) == t@),
    {
        let tc = chars_of(t);
        if b - a != tc.len() {
            assert(self.chars@.subrange(a as int, b as int).len() != t@.len());
            return false;
        }
        let mut k: usize = 0;
        while k < tc.len()
            invariant
                tc@ == t@,
                b - a == tc@.len(),
                a <= b <= self.chars@.len(),
                k <= tc@.len(),
                forall|j: int| 0 <= j < k ==> self.chars@[a + j] == tc@[j],
            decreases tc@.len() - k,
        {
            if self.chars[a + k] != tc[k] {
                assert(self.chars@.subrange(a as int, b as int)[k as int] != t@[k as int]);
                return false;
            }
            k = k + 1;
        }
        assert(self.chars@.subrange(a as int, b as int) =~= t@);
        true
    }

    fn word(&self, i: usize) -> (r: Option<(usize, usize)>)
        requires
            i <= self.chars@.len(),
        ensures
            match r {
                Some((a, b)) => a <= b <= self.chars@.len() && word(self.chars@, i as nat)
                    == Some((self.chars@.subrange(a as int, b as int), b as nat)),
                None => word(self.chars@, i as nat) is None,
            },
    {
        let a = self.skip_ws(i);
        if a < self.chars.len() && is_ident_start_exec(self.chars[a]) {
            let b = self.ident_end(a);
            Some((a, b))
        } else {
            None
        }
    }

    fn is_keyword_at(&self, a: usize, b: usize) -> (r: bool)
        requires
            a <= b <= self.chars@.len(),
        ensures
            r == is_keyword(self.chars@.subrange(a as int, b as int)),
    {
        self.text_is(a, b, "fn") || self.text_is(a, b, "return") || self.text_is(a, b, "if")
            || self.text_is(a, b, "else") || self.text_is(a, b, "while") || self.text_is(a, b, "true")
            || self.text_is(a, b, "false")
    }

    pub(crate) fn keyword(&self, i: usize, k: &str) -> (r: Option<usize>)
        requires
            i <= self.chars@.len(),
        ensures
            r matches Some(j) ==> j <= self.chars@.len(),
            match r {
                Some(j) => keyword(self.chars@, i as nat, k@) == Some(j as nat),
                None => keyword(self.chars@, i as nat, k@) is None,
            },
    {
        match self.word(i) {
            Some((a, b)) => if self.text_is(a, b, k) {
                Some(b)
            } else {
                None
            },
            None => None,
        }
    }

    pub(crate) fn identifier(&self, i: usize) -> (r: Option<(String, usize)>)
        requires
            i <= self.chars@.len(),
        ensures
            r matches Some((_, j)) ==> j <= self.chars@.len(),
            match r {
                Some((w, j)) => identifier(self.chars@, i as nat) == Some((w@, j as nat)),
                None => identifier(self.chars@, i as nat) is None,
            },
    {
        match self.word(i) {
            Some((a, b)) => {
                if self.is_keyword_at(a, b) {
                    None
                } else {
                    let mut w = String::new();
                    let mut k = a;
                    while k < b
                        invariant
                            a <= k <= b <= self.chars@.len(),
                            w@ == self.chars@.subrange(a as int, k as int),
                        decreases b - k,
                    {
                        push_char(&mut w, self.chars[k]);
                        k = k + 1;
                        assert(w@ =~= self.chars@.subrange(a as int, k as int));
                    }
                    Some((w, b))
                }
            },
            None => None,
        }
    }

    pub(crate) fn symbol(&self, i: usize, t: &str) -> (r: Option<usize>)
        requires
            i <= self.chars@.len(),
        ensures
            r matches Some(j) ==> j <= self.chars@.len(),
            match r {
                Some(j) => symbol(self.chars@, i as nat, t@) == Some(j as nat),
                None => symbol(self.chars@, i as nat, t@) is None,
            },
    {
        let a = self.skip_ws(i);
        let tl = t.unicode_len();
        if tl <= self.chars.len() - a && self.text_is(a, a + tl, t) {
            Some(a + tl)
        } else {
            None
        }
    }

    fn int_lit(&self, i: usize) -> (r: Option<(Result<i64, String>, usize)>)
        requires
            i <= self.chars@.len(),
        ensures
            r matches Some((_, j)) ==> j <= self.chars@.len(),
            match r {
                Some((v, j)) => int_lit(self.chars@, i as nat) == Some((
                    match v {
                        Ok(n) => Ok(n),
                        Err(m) => Err(m@),
                    },
                    j as nat,
                )),
                None => int_lit(self.chars@, i as nat) is None,
            },
    {
        let a = self.skip_ws(i);
        if !(a < self.chars.len() && is_digit_exec(self.chars[a])) {
            return None;
        }
        let b = self.digits_end(a);
        let ghost s = self.chars@;
        let mut value: u64 = 0;
        let mut too_large = false;
        let mut k = a;
        while k < b
            invariant
                a <= k <= b <= s.len(),
                s == self.chars@,
                b as nat == digits_end(s, a as nat),
                !too_large ==> value as nat == digits_value(s.subrange(a as int, k as int)) && value <= i64::MAX,
                too_large ==> digits_value(s.subrange(a as int, k as int)) > i64::MAX,
            decreases b - k,
        {
            proof {
                lemma_digits_in_run(s, a as nat, k as nat);
            }
            let d = (self.chars[k] as u32 - 48u32) as u64;
            assert(s.subrange(a as int, k + 1).drop_last() =~= s.subrange(a as int, k as int));
            if !too_large {
                if value > 922337203685477580u64 || (value == 922337203685477580u64 && d > 7) {
                    too_large = true;
                } else {
                    value = value * 10 + d;
                }
            }
            k = k + 1;
        }
        if too_large {
            Some((Err(String::from_str("number too large to fit in target type")), b))
        } else {
            Some((Ok(value as i64), b))
        }
    }
}

proof fn lemma_digits_in_run(s: Seq<char>, a: nat, k: nat)
    requires
        a <= k < digits_end(s, a),
        digits_end(s, a) <= s.len(),
    ensures
        is_digit(s[k as int]),
    decreases k - a,
{
    if a < k {
        assert(a < s.len() && is_digit(s[a as int]));
        lemma_digits_in_run(s, a + 1, k);
    }
}

fn is_digit_exec(c: char) -> (r: bool)
    ensures
        r == is_digit(c),
{
    '0' <= c && c <= '9'
}

fn is_ident_start_exec(c: char) -> (r: bool)
    ensures
        r == is_ident_start(c),
{
    ('a' <= c && c <= 'z') || ('A' <= c && c <= 'Z') || c == '_'
}

fn is_ident_char_exec(c: char) -> (r: bool)
    ensures
        r == is_ident_char(c),
{
    is_ident_start_exec(c) || is_digit_exec(c)
}


fn binary_of_exec(op: BinaryOp, l: Result<Expr, String>, r: Result<Expr, String>) -> (res: Result<Expr, String>)
    ensures
        built_expr(res) == binary_of(op, built_expr(l), built_expr(r)),
{
    match (l, r) {
        (Err(m), _) => Err(m),
        (Ok(_), Err(m)) => Err(m),
        (Ok(a), Ok(b)) => Ok(Expr::Binary { op, left: Box::new(a), right: Box::new(b) }),
    }
}

fn call_of_exec(callee: Result<Expr, String>, args: Result<Vec<Expr>, String>) -> (res: Result<Expr, String>)
    ensures
        built_expr(res) == call_of(built_expr(callee), built_exprs(args)),
{
    match (callee, args) {
        (Err(m), _) => Err(m),
        (Ok(_), Err(m)) => Err(m),
        (Ok(c), Ok(a)) => match c {
            Expr::Var(name) => {
                if name.as_str().unicode_len() == 5 && is_print(&name) {
                    Ok(Expr::Print(a))
                } else {
                    proof {
                        reveal_strlit("print");
                    }
                    Ok(Expr::Call { name, args: a })
                }
            },
            _ => Err(String::from_str("Can only call named functions")),
        },
    }
}

fn is_print(name: &String) -> (r: bool)
    ensures
        r == (name@ == "print"@),
{
    let c = chars_of(name.as_str());
    let p = chars_of("print");
    if c.len() != p.len() {
        return false;
    }
    let mut k: usize = 0;
    while k < c.len()
        invariant
            c@ == name@,
            p@ == "print"@,
            c@.len() == p@.len(),
            k <= c@.len(),
            forall|j: int| 0 <= j < k ==> c@[j] == p@[j],
        decreases c@.len() - k,
    {
        if c[k] != p[k] {
            return false;
        }
        k = k + 1;
    }
    assert(c@ =~= p@);
    true
}

impl RuleParser {
    fn comp_op(&self, i: usize) -> (r: Option<(BinaryOp, usize)>)
        requires
            i <= self.chars@.len(),
        ensures
            r matches Some((_, j)) ==> j <= self.chars@.len(),
            match r {
                Some((op, j)) => comp_op(self.chars@, i as nat) == Some((op, j as nat)),
                None => comp_op(self.chars@, i as nat) is None,
            },
    {
        if let Some(k) = self.symbol(i, "==") {
            Some((BinaryOp::Eq, k))
        } else if let Some(k) = self.symbol(i, "!=") {
            Some((BinaryOp::Ne, k))
        } else if let Some(k) = self.symbol(i, "<=") {
            Some((BinaryOp::Le, k))
        } else if let Some(k) = self.symbol(i, ">=") {
            Some((BinaryOp::Ge, k))
        } else if let Some(k) = self.symbol(i, "<") {
            Some((BinaryOp::Lt, k))
        } else if let Some(k) = self.symbol(i, ">") {
            Some((BinaryOp::Gt, k))
        } else {
            None
        }
    }

    fn add_op(&self, i: usize) -> (r: Option<(BinaryOp, usize)>)
        requires
            i <= self.chars@.len(),
        ensures
            r matches Some((_, j)) ==> j <= self.chars@.len(),
            match r {
                Some((op, j)) => add_op(self.chars@, i as nat) == Some((op, j as nat)),
                None => add_op(self.chars@, i as nat) is None,
            },
    {
        if let Some(k) = self.symbol(i, "+") {
            Some((BinaryOp::Add, k))
        } else if let Some(k) = self.symbol(i, "-") {
            Some((BinaryOp::Sub, k))
        } else {
            None
        }
    }

    fn mul_op(&self, i: usize) -> (r: Option<(BinaryOp, usize)>)
        requires
            i <= self.chars@.len(),
        ensures
            r matches Some((_, j)) ==> j <= self.chars@.len(),
            match r {
                Some((op, j)) => mul_op(self.chars@, i as nat) == Some((op, j as nat)),
                None => mul_op(self.chars@, i as nat) is None,
            },
    {
        if let Some(k) = self.symbol(i, "*") {
            Some((BinaryOp::Mul, k))
        } else if let Some(k) = self.symbol(i, "/") {
            Some((BinaryOp::Div, k))
        } else if let Some(k) = self.symbol(i, "%") {
            Some((BinaryOp::Mod, k))
        } else {
            None
        }
    }

    fn unary_op(&self, i: usize) -> (r: Option<(UnaryOp, usize)>)
        requires
            i <= self.chars@.len(),
        ensures
            r matches Some((_, j)) ==> j <= self.chars@.len(),
            match r {
                Some((op, j)) => unary_op(self.chars@, i as nat) == Some((op, j as nat)),
                None => unary_op(self.chars@, i as nat) is None,
            },
    {
        if let Some(k) = self.symbol(i, "!") {
            Some((UnaryOp::Not, k))
        } else if let Some(k) = self.symbol(i, "-") {
            Some((UnaryOp::Neg, k))
        } else {
            None
        }
    }

    pub(crate) fn expr(&self, i: usize) -> (r: Option<(Result<Expr, String>, usize)>)
        requires
            i <= self.chars@.len(),
        ensures
            within(r, self.chars@.len()),
            found_expr(r) == expr(self.chars@, i as nat),
        decreases self.chars@.len() - i, 11nat,
    {
        match self.conditional(i) {
            Some(r) => Some(r),
            None => match self.while_loop(i) {
                Some(r) => Some(r),
                None => self.comparison(i),
            },
        }
    }

    fn conditional(&self, i: usize) -> (r: Option<(Result<Expr, String>, usize)>)
        requires
            i <= self.chars@.len(),
        ensures
            within(r, self.chars@.len()),
            found_expr(r) == conditional(self.chars@, i as nat),
        decreases self.chars@.len() - i, 10nat,
    {
        let n = self.chars.len();
        let k = match self.keyword(i, "if") {
            Some(k) => k,
            None => return None,
        };
        if !(i < k && k <= n) {
            return None;
        }
        let (c, k2) = match self.expr(k) {
            Some(r) => r,
            None => return None,
        };
        if !(k < k2 && k2 <= n) {
            return None;
        }
        let (t, k3) = match self.block(k2) {
            Some(r) => r,
            None => return None,
        };
        let k4 = match self.keyword(k3, "else") {
            Some(k4) => k4,
            None => return None,
        };
        if !(k < k4 && k4 <= n) {
            return None;
        }
        let (el, k5) = match self.block(k4) {
            Some(r) => r,
            None => return None,
        };
        let built = match (c, t, el) {
            (Err(m), _, _) => Err(m),
            (Ok(_), Err(m), _) => Err(m),
            (Ok(_), Ok(_), Err(m)) => Err(m),
            (Ok(cv), Ok(tv), Ok(ev)) => Ok(Expr::If { cond: Box::new(cv), then_branch: tv, else_branch: ev }),
        };
        Some((built, k5))
    }

    fn while_loop(&self, i: usize) -> (r: Option<(Result<Expr, String>, usize)>)
        requires
            i <= self.chars@.len(),
        ensures
            within(r, self.chars@.len()),
            found_expr(r) == while_loop(self.chars@, i as nat),
        decreases self.chars@.len() - i, 10nat,
    {
        let n = self.chars.len();
        let k = match self.keyword(i, "while") {
            Some(k) => k,
            None => return None,
        };
        if !(i < k && k <= n) {
            return None;
        }
        let (c, k2) = match self.expr(k) {
            Some(r) => r,
            None => return None,
        };
        if !(k < k2 && k2 <= n) {
            return None;
        }
        let (b, k3) = match self.block(k2) {
            Some(r) => r,
            None => return None,
        };
        let built = match (c, b) {
            (Err(m), _) => Err(m),
            (Ok(_), Err(m)) => Err(m),
            (Ok(cv), Ok(bv)) => Ok(Expr::While { cond: Box::new(cv), body: bv }),
        };
        Some((built, k3))
    }

    fn comparison(&self, i: usize) -> (r: Option<(Result<Expr, String>, usize)>)
        requires
            i <= self.chars@.len(),
        ensures
            within(r, self.chars@.len()),
            found_expr(r) == comparison(self.chars@, i as nat),
        decreases self.chars@.len() - i, 9nat,
    {
        let n = self.chars.len();
        let (l, j) = match self.additive(i) {
            Some(r) => r,
            None => return None,
        };
        if !(i < j && j <= n) {
            return None;
        }
        let ghost s = self.chars@;
        let ghost goal = comparison_tail(s, j as nat, built_expr(l));
        let mut acc = l;
        let mut p = j;
        loop
            invariant
                s == self.chars@,
                n == s.len(),
                i < p <= n,
                comparison_tail(s, p as nat, built_expr(acc)) == goal,
                comparison(s, i as nat) == Some(goal),
            decreases n - p,
        {
            let (op, k) = match self.comp_op(p) {
                Some(r) => r,
                None => return Some((acc, p)),
            };
            if !(p < k && k <= n) {
                return Some((acc, p));
            }
            let (r, q) = match self.additive(k) {
                Some(r) => r,
                None => return Some((acc, p)),
            };
            if !(k < q && q <= n) {
                return Some((acc, p));
            }
            acc = binary_of_exec(op, acc, r);
            p = q;
        }
    }

    fn additive(&self, i: usize) -> (r: Option<(Result<Expr, String>, usize)>)
        requires
            i <= self.chars@.len(),
        ensures
            within(r, self.chars@.len()),
            found_expr(r) == additive(self.chars@, i as nat),
        decreases self.chars@.len() - i, 8nat,
    {
        let n = self.chars.len();
        let (l, j) = match self.multiplicative(i) {
            Some(r) => r,
            None => return None,
        };
        if !(i < j && j <= n) {
            return None;
        }
        let ghost s = self.chars@;
        let ghost goal = additive_tail(s, j as nat, built_expr(l));
        let mut acc = l;
        let mut p = j;
        loop
            invariant
                s == self.chars@,
                n == s.len(),
                i < p <= n,
                additive_tail(s, p as nat, built_expr(acc)) == goal,
                additive(s, i as nat) == Some(goal),
            decreases n - p,
        {
            let (op, k) = match self.add_op(p) {
                Some(r) => r,
                None => return Some((acc, p)),
            };
            if !(p < k && k <= n) {
                return Some((acc, p));
            }
            let (r, q) = match self.multiplicative(k) {
                Some(r) => r,
                None => return Some((acc, p)),
            };
            if !(k < q && q <= n) {
                return Some((acc, p));
            }
            acc = binary_of_exec(op, acc, r);
            p = q;
        }
    }

    fn multiplicative(&self, i: usize) -> (r: Option<(Result<Expr, String>, usize)>)
        requires
            i <= self.chars@.len(),
        ensures
            within(r, self.chars@.len()),
            found_expr(r) == multiplicative(self.chars@, i as nat),
        decreases self.chars@.len() - i, 7nat,
    {
        let n = self.chars.len();
        let (l, j) = match self.unary(i) {
            Some(r) => r,
            None => return None,
        };
        if !(i < j && j <= n) {
            return None;
        }
        let ghost s = self.chars@;
        let ghost goal = multiplicative_tail(s, j as nat, built_expr(l));
        let mut acc = l;
        let mut p = j;
        loop
            invariant
                s == self.chars@,
                n == s.len(),
                i < p <= n,
                multiplicative_tail(s, p as nat, built_expr(acc)) == goal,
                multiplicative(s, i as nat) == Some(goal),
            decreases n - p,
        {
            let (op, k) = match self.mul_op(p) {
                Some(r) => r,
                None => return Some((acc, p)),
            };
            if !(p < k && k <= n) {
                return Some((acc, p));
            }
            let (r, q) = match self.unary(k) {
                Some(r) => r,
                None => return Some((acc, p)),
            };
            if !(k < q && q <= n) {
                return Some((acc, p));
            }
            acc = binary_of_exec(op, acc, r);
            p = q;
        }
    }

    fn unary(&self, i: usize) -> (r: Option<(Result<Expr, String>, usize)>)
        requires
            i <= self.chars@.len(),
        ensures
            within(r, self.chars@.len()),
            found_expr(r) == unary(self.chars@, i as nat),
        decreases self.chars@.len() - i, 6nat,
    {
        let n = self.chars.len();
        match self.unary_op(i) {
            Some((op, k)) => {
                if i < k && k <= n {
                    match self.unary(k) {
                        Some((a, j)) => {
                            let built = match a {
                                Err(m) => Err(m),
                                Ok(av) => Ok(Expr::Unary { op, expr: Box::new(av) }),
                            };
                            Some((built, j))
                        },
                        None => self.call(i),
                    }
                } else {
                    self.call(i)
                }
            },
            None => self.call(i),
        }
    }

    fn call(&self, i: usize) -> (r: Option<(Result<Expr, String>, usize)>)
        requires
            i <= self.chars@.len(),
        ensures
            within(r, self.chars@.len()),
            found_expr(r) == call(self.chars@, i as nat),
        decreases self.chars@.len() - i, 5nat,
    {
        let n = self.chars.len();
        let (callee, j) = match self.primary(i) {
            Some(r) => r,
            None => return None,
        };
        if !(i < j && j <= n) {
            return None;
        }
        let ghost s = self.chars@;
        let ghost goal = call_tail(s, j as nat, built_expr(callee));
        let mut acc = callee;
        let mut p = j;
        loop
            invariant
                s == self.chars@,
                n == s.len(),
                i < p <= n,
                call_tail(s, p as nat, built_expr(acc)) == goal,
                call(s, i as nat) == Some(goal),
            decreases n - p,
        {
            let (a, k) = match self.call_args(p) {
                Some(r) => r,
                None => return Some((acc, p)),
            };
            if !(p < k && k <= n) {
                return Some((acc, p));
            }
            acc = call_of_exec(acc, a);
            p = k;
        }
    }

    fn call_args(&self, i: usize) -> (r: Option<(Result<Vec<Expr>, String>, usize)>)
        requires
            i <= self.chars@.len(),
        ensures
            within(r, self.chars@.len()),
            found_exprs(r) == call_args(self.chars@, i as nat),
        decreases self.chars@.len() - i, 4nat,
    {
        let n = self.chars.len();
        let k = match self.symbol(i, "(") {
            Some(k) => k,
            None => return None,
        };
        if !(i < k && k <= n) {
            return None;
        }
        let ghost s = self.chars@;
        let mut items: Result<Vec<Expr>, String> = Ok(Vec::new());
        assert(built_exprs(items) == Ok::<Seq<SExpr>, Seq<char>>(Seq::empty())) by {
            assert(exprs_view(Seq::<Expr>::empty()) =~= Seq::<SExpr>::empty());
        }
        let mut p = k;
        match self.expr(k) {
            Some((first, j0)) => {
                if k < j0 && j0 <= n {
                    let ghost fb = built_expr(first);
                    items = push_built(items, first);
                    assert(built_exprs(items) == snoc(Ok(Seq::<SExpr>::empty()), fb));
                    p = j0;
                    let ghost goal = expr_list_tail(s, j0 as nat, built_exprs(items));
                    loop
                        invariant
                            s == self.chars@,
                            n == s.len(),
                            i < k < p <= n,
                            expr_list_tail(s, p as nat, built_exprs(items)) == goal,
                        ensures
                            (built_exprs(items), p as nat) == goal,
                        decreases n - p,
                    {
                        let k1 = match self.symbol(p, ",") {
                            Some(k1) => k1,
                            None => break,
                        };
                        if !(p < k1 && k1 <= n) {
                            break;
                        }
                        let (e, q) = match self.expr(k1) {
                            Some(r) => r,
                            None => break,
                        };
                        if !(k1 < q && q <= n) {
                            break;
                        }
                        items = push_built(items, e);
                        p = q;
                    }
                }
            },
            None => {},
        }
        match self.symbol(p, ")") {
            Some(m) => Some((items, m)),
            None => None,
        }
    }

    fn primary(&self, i: usize) -> (r: Option<(Result<Expr, String>, usize)>)
        requires
            i <= self.chars@.len(),
        ensures
            within(r, self.chars@.len()),
            found_expr(r) == primary(self.chars@, i as nat),
        decreases self.chars@.len() - i, 4nat,
    {
        if let Some(k) = self.keyword(i, "true") {
            Some((Ok(Expr::Bool(true)), k))
        } else if let Some(k) = self.keyword(i, "false") {
            Some((Ok(Expr::Bool(false)), k))
        } else if let Some((v, k)) = self.int_lit(i) {
            let built = match v {
                Ok(n) => Ok(Expr::Int(n)),
                Err(m) => Err(m),
            };
            Some((built, k))
        } else if let Some((name, k)) = self.identifier(i) {
            Some((Ok(Expr::Var(name)), k))
        } else if let Some(Some(r)) = self.parenthesized(i) {
            Some(r)
        } else {
            match self.block(i) {
                Some((b, k)) => {
                    let built = match b {
                        Err(m) => Err(m),
                        Ok(stmts) => Ok(Expr::Block(stmts)),
                    };
                    Some((built, k))
                },
                None => None,
            }
        }
    }

    fn parenthesized(&self, i: usize) -> (r: Option<Option<(Result<Expr, String>, usize)>>)
        requires
            i <= self.chars@.len(),
        ensures
            r matches Some(Some((_, j))) ==> j <= self.chars@.len(),
            match r {
                Some(inner) => parenthesized(self.chars@, i as nat) == Some(found_expr(inner)),
                None => parenthesized(self.chars@, i as nat) is None,
            },
        decreases self.chars@.len() - i, 3nat,
    {
        let n = self.chars.len();
        let k = match self.symbol(i, "(") {
            Some(k) => k,
            None => return None,
        };
        if !(i < k && k <= n) {
            return Some(None);
        }
        match self.expr(k) {
            Some((e, j)) => match self.symbol(j, ")") {
                Some(m) => Some(Some((e, m))),
                None => Some(None),
            },
            None => Some(None),
        }
    }

    fn block(&self, i: usize) -> (r: Option<(Result<Vec<Stmt>, String>, usize)>)
        requires
            i <= self.chars@.len(),
        ensures
            within(r, self.chars@.len()),
            found_stmts(r) == block(self.chars@, i as nat),
        decreases self.chars@.len() - i, 3nat,
    {
        let n = self.chars.len();
        let k = match self.symbol(i, "{") {
            Some(k) => k,
            None => return None,
        };
        if !(i < k && k <= n) {
            return None;
        }
        let (stmts, j) = self.stmt_list(k);
        match self.symbol(j, "}") {
            Some(m) => Some((stmts, m)),
            None => None,
        }
    }
}

fn push_built(items: Result<Vec<Expr>, String>, e: Result<Expr, String>) -> (r: Result<Vec<Expr>, String>)
    ensures
        built_exprs(r) == snoc(built_exprs(items), built_expr(e)),
{
    match (items, e) {
        (Err(m), _) => Err(m),
        (Ok(_), Err(m)) => Err(m),
        (Ok(mut v), Ok(x)) => {
            let ghost before = v@;
            let ghost xv = expr_view(x);
            v.push(x);
            proof {
                lemma_exprs_view(before);
                lemma_exprs_view(v@);
                assert(exprs_view(v@) =~= exprs_view(before).push(xv));
            }
            Ok(v)
        },
    }
}


spec fn append_built<T>(a: Built<Seq<T>>, b: Built<Seq<T>>) -> Built<Seq<T>> {
    match (a, b) {
        (Err(m), _) => Err(m),
        (Ok(_), Err(m)) => Err(m),
        (Ok(x), Ok(y)) => Ok(x + y),
    }
}

proof fn lemma_append_cons<T>(acc: Built<Seq<T>>, st: Built<T>, rest: Built<Seq<T>>)
    ensures
        append_built(acc, cons(st, rest)) == append_built(snoc(acc, st), rest),
{
    match (acc, st, rest) {
        (Ok(a), Ok(x), Ok(r)) => {
            assert(a + (seq![x] + r) =~= a.push(x) + r);
        },
        _ => {},
    }
}

fn push_built_stmt(items: Result<Vec<Stmt>, String>, e: Result<Stmt, String>) -> (r: Result<Vec<Stmt>, String>)
    ensures
        built_stmts(r) == snoc(built_stmts(items), built_stmt(e)),
{
    match (items, e) {
        (Err(m), _) => Err(m),
        (Ok(_), Err(m)) => Err(m),
        (Ok(mut v), Ok(x)) => {
            let ghost before = v@;
            let ghost xv = stmt_view(x);
            v.push(x);
            proof {
                lemma_stmts_view(before);
                lemma_stmts_view(v@);
                assert(stmts_view(v@) =~= stmts_view(before).push(xv));
            }
            Ok(v)
        },
    }
}

impl RuleParser {
    fn stmt_list(&self, i: usize) -> (r: (Result<Vec<Stmt>, String>, usize))
        requires
            i <= self.chars@.len(),
        ensures
            r.1 <= self.chars@.len(),
            (built_stmts(r.0), r.1 as nat) == stmt_list(self.chars@, i as nat),
        decreases self.chars@.len() - i, 14nat,
    {
        let n = self.chars.len();
        let ghost s = self.chars@;
        let mut acc: Result<Vec<Stmt>, String> = Ok(Vec::new());
        assert(built_stmts(acc) == Ok::<Seq<SStmt>, Seq<char>>(Seq::empty())) by {
            assert(stmts_view(Seq::<Stmt>::empty()) =~= Seq::<SStmt>::empty());
        }
        let mut p = i;
        loop
            invariant
                s == self.chars@,
                n == s.len(),
                i <= p <= n,
                stmt_list(s, i as nat) == (append_built(built_stmts(acc), stmt_list(s, p as nat).0), stmt_list(s, p as nat).1),
            decreases n - p,
        {
            match self.stmt(p) {
                Some((st, j)) => {
                    if p < j && j <= n {
                        proof {
                            lemma_append_cons(built_stmts(acc), built_stmt(st), stmt_list(s, j as nat).0);
                        }
                        acc = push_built_stmt(acc, st);
                        p = j;
                    } else {
                        proof {
                            assert(append_built(built_stmts(acc), Ok(Seq::<SStmt>::empty())) == built_stmts(acc)) by {
                                if let Ok(a) = built_stmts(acc) {
                                    assert(a + Seq::<SStmt>::empty() =~= a);
                                }
                            }
                        }
                        return (acc, p);
                    }
                },
                None => {
                    proof {
                        assert(append_built(built_stmts(acc), Ok(Seq::<SStmt>::empty())) == built_stmts(acc)) by {
                            if let Ok(a) = built_stmts(acc) {
                                assert(a + Seq::<SStmt>::empty() =~= a);
                            }
                        }
                    }
                    return (acc, p);
                },
            }
        }
    }

    fn stmt(&self, i: usize) -> (r: Option<(Result<Stmt, String>, usize)>)
        requires
            i <= self.chars@.len(),
        ensures
            within(r, self.chars@.len()),
            found_stmt(r) == stmt(self.chars@, i as nat),
        decreases self.chars@.len() - i, 13nat,
    {
        let body = if let Some(r) = self.function(i) {
            Some(r)
        } else if let Some(r) = self.return_stmt(i) {
            Some(r)
        } else if let Some(r) = self.assignment(i) {
            Some(r)
        } else {
            match self.expr(i) {
                Some((e, j)) => {
                    let built = match e {
                        Err(m) => Err(m),
                        Ok(ev) => Ok(Stmt::Expr(ev)),
                    };
                    Some((built, j))
                },
                None => None,
            }
        };
        match body {
            Some((st, j)) => match self.symbol(j, ";") {
                Some(k) => Some((st, k)),
                None => Some((st, j)),
            },
            None => None,
        }
    }

    fn function(&self, i: usize) -> (r: Option<(Result<Stmt, String>, usize)>)
        requires
            i <= self.chars@.len(),
        ensures
            within(r, self.chars@.len()),
            found_stmt(r) == function(self.chars@, i as nat),
        decreases self.chars@.len() - i, 12nat,
    {
        let n = self.chars.len();
        let k = match self.keyword(i, "fn") {
            Some(k) => k,
            None => return None,
        };
        if !(i < k && k <= n) {
            return None;
        }
        let (name, k2) = match self.identifier(k) {
            Some(r) => r,
            None => return None,
        };
        let (ps, k3) = match self.params(k2) {
            Some(r) => r,
            None => return None,
        };
        if !(k < k3 && k3 <= n) {
            return None;
        }
        let (body, k4) = match self.block(k3) {
            Some(r) => r,
            None => return None,
        };
        let built = match body {
            Err(m) => Err(m),
            Ok(b) => Ok(Stmt::Function { name, params: ps, body: b }),
        };
        Some((built, k4))
    }

    fn params(&self, i: usize) -> (r: Option<(Vec<String>, usize)>)
        requires
            i <= self.chars@.len(),
        ensures
            r matches Some((_, j)) ==> j <= self.chars@.len(),
            match r {
                Some((ps, j)) => params(self.chars@, i as nat) == Some((names_view(ps@), j as nat)),
                None => params(self.chars@, i as nat) is None,
            },
    {
        let n = self.chars.len();
        let ghost s = self.chars@;
        let k = match self.symbol(i, "(") {
            Some(k) => k,
            None => return None,
        };
        let mut names: Vec<String> = Vec::new();
        let mut p = k;
        match self.identifier(k) {
            Some((first, j0)) => {
                let ghost fv = first@;
                names.push(first);
                assert(names_view(names@) =~= seq![fv]);
                p = j0;
                let ghost goal = name_list_tail(s, j0 as nat, names_view(names@));
                loop
                    invariant
                        s == self.chars@,
                        n == s.len(),
                        p <= n,
                        name_list_tail(s, p as nat, names_view(names@)) == goal,
                    ensures
                        (names_view(names@), p as nat) == goal,
                    decreases n - p,
                {
                    let k1 = match self.symbol(p, ",") {
                        Some(k1) => k1,
                        None => break,
                    };
                    let (name, q) = match self.identifier(k1) {
                        Some(r) => r,
                        None => break,
                    };
                    if !(p < q && q <= n) {
                        break;
                    }
                    let ghost before = names_view(names@);
                    let ghost nv = name@;
                    names.push(name);
                    assert(names_view(names@) =~= before.push(nv));
                    p = q;
                }
            },
            None => {
                assert(names_view(names@) =~= Seq::<Seq<char>>::empty());
            },
        }
        match self.symbol(p, ")") {
            Some(m) => Some((names, m)),
            None => None,
        }
    }

    fn return_stmt(&self, i: usize) -> (r: Option<(Result<Stmt, String>, usize)>)
        requires
            i <= self.chars@.len(),
        ensures
            within(r, self.chars@.len()),
            found_stmt(r) == return_stmt(self.chars@, i as nat),
        decreases self.chars@.len() - i, 12nat,
    {
        let n = self.chars.len();
        let k = match self.keyword(i, "return") {
            Some(k) => k,
            None => return None,
        };
        if !(i < k && k <= n) {
            return None;
        }
        match self.expr(k) {
            Some((e, j)) => {
                let built = match e {
                    Err(m) => Err(m),
                    Ok(ev) => Ok(Stmt::Return(ev)),
                };
                Some((built, j))
            },
            None => None,
        }
    }

    fn assignment(&self, i: usize) -> (r: Option<(Result<Stmt, String>, usize)>)
        requires
            i <= self.chars@.len(),
        ensures
            within(r, self.chars@.len()),
            found_stmt(r) == assignment(self.chars@, i as nat),
        decreases self.chars@.len() - i, 12nat,
    {
        let n = self.chars.len();
        let (name, k) = match self.identifier(i) {
            Some(r) => r,
            None => return None,
        };
        let k2 = match self.symbol(k, "=") {
            Some(k2) => k2,
            None => return None,
        };
        if !(i < k2 && k2 <= n) {
            return None;
        }
        match self.expr(k2) {
            Some((e, j)) => {
                let built = match e {
                    Err(m) => Err(m),
                    Ok(ev) => Ok(Stmt::Assignment { name, value: ev }),
                };
                Some((built, j))
            },
            None => None,
        }
    }

    /// The program that the whole text denotes, or the message of why it denotes none.
    pub fn parse_program(&self) -> (r: Result<Vec<Stmt>, String>)
        ensures
            built_stmts(r) == parse_program(self.text()),
    {
        let (stmts, p) = self.stmt_list(0);
        let q = self.skip_ws(p);
        if q < self.chars.len() {
            let mut m = String::from_str("parser err unexpected input at offset ");
            write_nat(&mut m, q as u64);
            Err(m)
        } else {
            stmts
        }
    }
}

/// Parses the source text of a program.
pub fn parse(source: &str) -> (r: Result<Vec<Stmt>, String>)
    ensures
        built_stmts(r) == parse_program(source@),
{
    RuleParser::new(source).parse_program()
}

} // verus!
