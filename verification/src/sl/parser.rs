//! The typed language's parser: a function from source text to the function definitions it
//! holds.
use vstd::prelude::*;
use crate::fl::grammar::{expr, identifier, keyword, syntax_error_text};
use crate::lexical::{skip_ws, symbol};
use crate::sl::ast::Stmt;
use crate::sl::grammar::{
    after_return_type, assignment_end, block_end, function, only_functions, program, return_end, stmt, stmts,
    type_word, typed_param, typed_param_tail, typed_params, SItem,
};
use crate::sl::types::{SType, Type};
use crate::text::write_nat;

verus! {

/// The names and types of typed parameters.
pub open spec fn params_view(p: Seq<(String, Type)>) -> Seq<(Seq<char>, SType)> {
    Seq::new(p.len(), |i: int| (p[i].0@, p[i].1@))
}

/// What a statement the parser kept stands for: a function definition, or (where it kept
/// nothing) another statement.
pub open spec fn item_view(o: Option<Stmt>) -> SItem {
    match o {
        Some(Stmt::Function { name, params, return_type: _, body: _ }) => SItem::Function(name@, params_view(params@)),
        _ => SItem::Other,
    }
}

/// A kept statement is a function definition whose return type is not inferred yet and whose
/// body is not kept.
pub open spec fn fresh_function(o: Option<Stmt>) -> bool {
    o matches Some(st) ==> (st matches Stmt::Function { name: _, params: _, return_type, body }
        && return_type == Type::Unknown && body@.len() == 0)
}

pub open spec fn items_view(v: Seq<Option<Stmt>>) -> Seq<SItem> {
    Seq::new(v.len(), |i: int| item_view(v[i]))
}

/// The parser's state: the characters of the source text.
pub struct RuleParser {
    base: crate::fl::parser::RuleParser,
}

impl RuleParser {
    pub closed spec fn text(&self) -> Seq<char> {
        self.base.chars@
    }

    pub fn new(source: &str) -> (r: RuleParser)
        ensures
            r.text() == source@,
    {
        RuleParser { base: crate::fl::parser::RuleParser::over(source) }
    }

    fn type_word(&self, i: usize) -> (r: Option<(Type, usize)>)
        requires
            i <= self.text().len(),
        ensures
            match r {
                Some((t, j)) => j <= self.text().len() && type_word(self.text(), i as nat) == Some((t@, j as nat)),
                None => type_word(self.text(), i as nat) is None,
            },
    {
        if let Some(k) = self.base.keyword(i, "int") {
            Some((Type::Int, k))
        } else if let Some(k) = self.base.keyword(i, "bool") {
            Some((Type::Bool, k))
        } else {
            None
        }
    }

    fn typed_param(&self, i: usize) -> (r: Option<((String, Type), usize)>)
        requires
            i <= self.text().len(),
        ensures
            match r {
                Some((p, j)) => j <= self.text().len() && typed_param(self.text(), i as nat) == Some(((p.0@, p.1@), j as nat)),
                None => typed_param(self.text(), i as nat) is None,
            },
    {
        let (name, k) = match self.base.identifier(i) {
            Some(r) => r,
            None => return None,
        };
        let k2 = match self.base.symbol(k, ":") {
            Some(k2) => k2,
            None => return None,
        };
        match self.type_word(k2) {
            Some((t, j)) => Some(((name, t), j)),
            None => None,
        }
    }

    fn typed_params(&self, i: usize) -> (r: Option<(Vec<(String, Type)>, usize)>)
        requires
            i <= self.text().len(),
        ensures
            match r {
                Some((ps, j)) => j <= self.text().len() && typed_params(self.text(), i as nat) == Some((params_view(ps@), j as nat)),
                None => typed_params(self.text(), i as nat) is None,
            },
    {
        let n = self.base.chars.len();
        let ghost s = self.text();
        let k = match self.base.symbol(i, "(") {
            Some(k) => k,
            None => return None,
        };
        let mut ps: Vec<(String, Type)> = Vec::new();
        let mut p = k;
        match self.typed_param(k) {
            Some((first, j0)) => {
                let ghost fv = (first.0@, first.1@);
                ps.push(first);
                assert(params_view(ps@) =~= seq![fv]);
                p = j0;
                let ghost goal = typed_param_tail(s, j0 as nat, params_view(ps@));
                loop
                    invariant
                        s == self.text(),
                        n == s.len(),
                        p <= n,
                        typed_param_tail(s, p as nat, params_view(ps@)) == goal,
                    ensures
                        (params_view(ps@), p as nat) == goal,
                    decreases n - p,
                {
                    let k1 = match self.base.symbol(p, ",") {
                        Some(k1) => k1,
                        None => break,
                    };
                    let (param, q) = match self.typed_param(k1) {
                        Some(r) => r,
                        None => break,
                    };
                    if !(p < q && q <= n) {
                        break;
                    }
                    let ghost before = params_view(ps@);
                    let ghost pv = (param.0@, param.1@);
                    ps.push(param);
                    assert(params_view(ps@) =~= before.push(pv));
                    p = q;
                }
            },
            None => {
                assert(params_view(ps@) =~= Seq::<(Seq<char>, SType)>::empty());
            },
        }
        match self.base.symbol(p, ")") {
            Some(m) => Some((ps, m)),
            None => None,
        }
    }

    fn after_return_type(&self, i: usize) -> (r: usize)
        requires
            i <= self.text().len(),
        ensures
            r <= self.text().len(),
            r as nat == after_return_type(self.text(), i as nat),
    {
        match self.base.symbol(i, "->") {
            Some(k) => match self.type_word(k) {
                Some((_, j)) => j,
                None => i,
            },
            None => i,
        }
    }

    fn block_end(&self, i: usize) -> (r: Option<usize>)
        requires
            i <= self.text().len(),
        ensures
            r matches Some(j) ==> j <= self.text().len(),
            match r {
                Some(j) => block_end(self.text(), i as nat) == Some(j as nat),
                None => block_end(self.text(), i as nat) is None,
            },
        decreases self.text().len() - i, 3nat,
    {
        let n = self.base.chars.len();
        let k = match self.base.symbol(i, "{") {
            Some(k) => k,
            None => return None,
        };
        if !(i < k && k <= n) {
            return None;
        }
        let (_, j) = self.stmts(k);
        match self.base.symbol(j, "}") {
            Some(m) => Some(m),
            None => None,
        }
    }

    fn function(&self, i: usize) -> (r: Option<(Option<Stmt>, usize)>)
        requires
            i <= self.text().len(),
        ensures
            match r {
                Some((it, j)) => j <= self.text().len() && fresh_function(it)
                    && function(self.text(), i as nat) == Some((item_view(it), j as nat)),
                None => function(self.text(), i as nat) is None,
            },
        decreases self.text().len() - i, 2nat,
    {
        let n = self.base.chars.len();
        let k = match self.base.keyword(i, "fn") {
            Some(k) => k,
            None => return None,
        };
        if !(i < k && k <= n) {
            return None;
        }
        let (name, k2) = match self.base.identifier(k) {
            Some(r) => r,
            None => return None,
        };
        let (params, k3) = match self.typed_params(k2) {
            Some(r) => r,
            None => return None,
        };
        let k4 = self.after_return_type(k3);
        if !(k < k4 && k4 <= n) {
            return None;
        }
        match self.block_end(k4) {
            Some(m) => {
                let st = Stmt::Function { name, params, return_type: Type::Unknown, body: Vec::new() };
                Some((Some(st), m))
            },
            None => None,
        }
    }

    fn return_end(&self, i: usize) -> (r: Option<usize>)
        requires
            i <= self.text().len(),
        ensures
            r matches Some(j) ==> j <= self.text().len(),
            match r {
                Some(j) => return_end(self.text(), i as nat) == Some(j as nat),
                None => return_end(self.text(), i as nat) is None,
            },
    {
        let k = match self.base.keyword(i, "return") {
            Some(k) => k,
            None => return None,
        };
        match self.base.expr(k) {
            Some((_, j)) => Some(j),
            None => None,
        }
    }

    fn assignment_end(&self, i: usize) -> (r: Option<usize>)
        requires
            i <= self.text().len(),
        ensures
            r matches Some(j) ==> j <= self.text().len(),
            match r {
                Some(j) => assignment_end(self.text(), i as nat) == Some(j as nat),
                None => assignment_end(self.text(), i as nat) is None,
            },
    {
        let (_, k) = match self.base.identifier(i) {
            Some(r) => r,
            None => return None,
        };
        let k3 = match self.base.symbol(k, ":") {
            Some(c) => match self.type_word(c) {
                Some((_, t)) => t,
                None => return None,
            },
            None => k,
        };
        let k4 = match self.base.symbol(k3, "=") {
            Some(k4) => k4,
            None => return None,
        };
        match self.base.expr(k4) {
            Some((_, j)) => Some(j),
            None => None,
        }
    }

    fn stmt(&self, i: usize) -> (r: Option<(Option<Stmt>, usize)>)
        requires
            i <= self.text().len(),
        ensures
            match r {
                Some((it, j)) => j <= self.text().len() && fresh_function(it)
                    && stmt(self.text(), i as nat) == Some((item_view(it), j as nat)),
                None => stmt(self.text(), i as nat) is None,
            },
        decreases self.text().len() - i, 4nat,
    {
        let body = if let Some(r) = self.function(i) {
            Some(r)
        } else if let Some(j) = self.return_end(i) {
            Some((None, j))
        } else if let Some(j) = self.assignment_end(i) {
            Some((None, j))
        } else {
            match self.base.expr(i) {
                Some((_, j)) => Some((None, j)),
                None => None,
            }
        };
        match body {
            Some((it, j)) => match self.base.symbol(j, ";") {
                Some(k) => Some((it, k)),
                None => Some((it, j)),
            },
            None => None,
        }
    }

    fn stmts(&self, i: usize) -> (r: (Vec<Option<Stmt>>, usize))
        requires
            i <= self.text().len(),
        ensures
            r.1 <= self.text().len(),
            forall|k: int| 0 <= k < r.0@.len() ==> fresh_function(#[trigger] r.0@[k]),
            (items_view(r.0@), r.1 as nat) == stmts(self.text(), i as nat),
        decreases self.text().len() - i, 5nat,
    {
        let n = self.base.chars.len();
        let ghost s = self.text();
        let mut acc: Vec<Option<Stmt>> = Vec::new();
        let mut p = i;
        assert(items_view(acc@) =~= Seq::<SItem>::empty());
        loop
            invariant
                s == self.text(),
                n == s.len(),
                i <= p <= n,
                forall|k: int| 0 <= k < acc@.len() ==> fresh_function(#[trigger] acc@[k]),
                stmts(s, i as nat) == (items_view(acc@) + stmts(s, p as nat).0, stmts(s, p as nat).1),
            decreases n - p,
        {
            match self.stmt(p) {
                Some((it, j)) => {
                    if p < j && j <= n {
                        let ghost before = items_view(acc@);
                        let ghost iv = item_view(it);
                        let ghost old_acc = acc@;
                        acc.push(it);
                        assert(items_view(acc@) =~= before.push(iv));
                        assert(before + stmts(s, p as nat).0 =~= before.push(iv) + stmts(s, j as nat).0);
                        assert forall|k: int| 0 <= k < acc@.len() implies fresh_function(#[trigger] acc@[k]) by {
                            if k < old_acc.len() {
                                assert(acc@[k] == old_acc[k]);
                            }
                        }
                        p = j;
                    } else {
                        assert(items_view(acc@) + Seq::<SItem>::empty() =~= items_view(acc@));
                        return (acc, p);
                    }
                },
                None => {
                    assert(items_view(acc@) + Seq::<SItem>::empty() =~= items_view(acc@));
                    return (acc, p);
                },
            }
        }
    }
}

/// Parses the source text of a program of the typed language. Only function definitions are
/// built: their names and typed parameters, with the return type left to inference and the
/// body not kept; a program with another statement at top level is not handed to it.
pub fn parse(source: &str) -> (r: Result<Vec<Stmt>, String>)
    requires
        program(source@) matches Ok(items) ==> only_functions(items),
    ensures
        match program(source@) {
            Err(m) => r matches Err(e) && e@ == m,
            Ok(items) => r matches Ok(v) && v@.len() == items.len() && forall|k: int| 0 <= k < v@.len()
                ==> (#[trigger] v@[k] matches Stmt::Function { name, params, return_type, body }
                    && items[k] == SItem::Function(name@, params_view(params@))
                    && return_type == Type::Unknown && body@.len() == 0),
        },
{
    let parser = RuleParser::new(source);
    let ghost s = source@;
    let (items, p) = parser.stmts(0);
    let q = parser.base.skip_ws(p);
    if q < parser.base.chars.len() {
        let mut m = String::from_str("parser err unexpected input at offset ");
        write_nat(&mut m, q as u64);
        return Err(m);
    }
    let ghost iv = items_view(items@);
    let mut out: Vec<Stmt> = Vec::new();
    let n = items.len();
    let mut rest = items;
    let mut pending: Vec<Option<Stmt>> = Vec::new();
    while rest.len() > 0
        invariant
            pending@.len() + rest@.len() == n,
            n == iv.len(),
            forall|j: int| 0 <= j < rest@.len() ==> #[trigger] item_view(rest@[j]) == iv[j] && fresh_function(rest@[j]),
            forall|j: int| 0 <= j < pending@.len() ==> #[trigger] item_view(pending@[j]) == iv[n - 1 - j]
                && fresh_function(pending@[j]),
        decreases rest@.len(),
    {
        let it = rest.pop().unwrap();
        pending.push(it);
    }
    let mut k: usize = 0;
    while pending.len() > 0
        invariant
            k + pending@.len() == n,
            n == iv.len(),
            iv == stmts(s, 0).0,
            program(s) == Ok::<Seq<SItem>, Seq<char>>(iv),
            program(s) matches Ok(items) ==> only_functions(items),
            forall|j: int| 0 <= j < pending@.len() ==> #[trigger] item_view(pending@[j]) == iv[n - 1 - j]
                && fresh_function(pending@[j]),
            out@.len() == k,
            forall|j: int| 0 <= j < k ==> (#[trigger] out@[j] matches Stmt::Function { name, params, return_type, body }
                && iv[j] == SItem::Function(name@, params_view(params@))
                && return_type == Type::Unknown && body@.len() == 0),
        decreases pending@.len(),
    {
        let it = pending.pop().unwrap();
        assert(item_view(it) == iv[k as int]);
        assert(iv[k as int] is Function);
        match it {
            Some(st) => {
                let ghost old_out = out@;
                out.push(st);
                assert forall|j: int| 0 <= j < k + 1 implies (#[trigger] out@[j] matches Stmt::Function { name, params, return_type, body }
                    && iv[j] == SItem::Function(name@, params_view(params@))
                    && return_type == Type::Unknown && body@.len() == 0) by {
                    if j < k {
                        assert(out@[j] == old_out[j]);
                    }
                }
            },
            None => {
                assert(false);
            },
        }
        k = k + 1;
    }
    Ok(out)
}

} // verus!
