//! The meaning of a program: values, the interpreter's state, and what evaluating an
//! expression or executing a statement does to that state.
//!
//! Evaluation is indexed by a step budget (`fuel`): every nested evaluation and every round of
//! a `while` loop spends one unit, and a computation that runs out stops with `StepLimit`.
use vstd::prelude::*;
use crate::fl::ast::{BinaryOp, SExpr, SStmt, UnaryOp};
use crate::fl::render::{binop_text, unop_text};
use crate::fl::render::{expr_text, name_list, stmt_list};
use crate::text::{bool_text, hex_text, int_text, nat_text};

verus! {

/// A runtime value, as the semantics sees it.
pub enum SValue {
    Int(i64),
    Bool(bool),
    Function(Seq<Seq<char>>, Seq<SStmt>),
    Unit,
}

/// Something the program did that the outside world sees, in order.
pub enum SEvent {
    /// `print` showed a value.
    Print(SValue),
    /// With tracing on: an expression was about to be evaluated (its `Debug` notation).
    Trace(Seq<char>),
}

/// Bindings of names to values; a lookup finds the first entry with the name.
pub type SFrame = Seq<(Seq<char>, SValue)>;

/// The interpreter's state.
pub struct SState {
    pub globals: SFrame,
    /// The innermost frame is the last one.
    pub stack: Seq<SFrame>,
    pub trace: bool,
    pub events: Seq<SEvent>,
    /// The step budget each top-level statement starts with.
    pub fuel: u64,
}

/// The arithmetic operation that overflowed.
#[derive(Debug, Clone, Copy, PartialEq, Eq)]
pub enum Overflow {
    Add,
    Sub,
    Mul,
    Neg,
    Div,
    Rem,
}

/// Why evaluation stopped.
pub enum SErr {
    Undefined(Seq<char>),
    UnaryMismatch(UnaryOp, SValue),
    BinaryMismatch(BinaryOp, SValue, SValue),
    DivisionByZero,
    ModuloByZero,
    Overflow(Overflow),
    CondNotBool(SValue),
    WhileCondNotBool(SValue),
    NotAFunction(Seq<char>),
    Arity(Seq<char>, nat, nat),
    ForBounds(SValue, SValue),
    EmptyCallStack,
    StepLimit,
}

/// How a statement finished: normally with a value, or by `return`.
pub enum SFlow {
    Continue(SValue),
    Return(SValue),
}

pub open spec fn flow_value(f: SFlow) -> SValue {
    match f {
        SFlow::Continue(v) => v,
        SFlow::Return(v) => v,
    }
}

// ---------------------------------------------------------------- bindings

/// Index of the first entry of `l` at or after `i` bound to `k`, or -1.
pub open spec fn assoc_index(l: SFrame, k: Seq<char>, i: nat) -> int
    decreases l.len() - i,
{
    if i >= l.len() {
        -1
    } else if l[i as int].0 == k {
        i as int
    } else {
        assoc_index(l, k, i + 1)
    }
}

pub open spec fn assoc_get(l: SFrame, k: Seq<char>) -> Option<SValue> {
    let i = assoc_index(l, k, 0);
    if i >= 0 {
        Some(l[i].1)
    } else {
        None
    }
}

/// `l` with `k` bound to `v`: the existing binding replaced, or a new one added at the end.
pub open spec fn assoc_insert(l: SFrame, k: Seq<char>, v: SValue) -> SFrame {
    let i = assoc_index(l, k, 0);
    if i >= 0 {
        l.update(i, (k, v))
    } else {
        l.push((k, v))
    }
}

/// The frame of a call: each parameter bound to its argument, in order.
pub open spec fn bind_params(ps: Seq<Seq<char>>, vs: Seq<SValue>, n: nat) -> SFrame
    decreases n,
{
    if n == 0 {
        Seq::empty()
    } else {
        assoc_insert(bind_params(ps, vs, (n - 1) as nat), ps[n - 1], vs[n - 1])
    }
}

// ---------------------------------------------------------------- state changes

pub open spec fn push_frame(st: SState, fr: SFrame) -> SState {
    SState { stack: st.stack.push(fr), ..st }
}

/// Drops the innermost frame; nothing happens when there is none.
pub open spec fn pop_frame(st: SState) -> SState {
    if st.stack.len() > 0 {
        SState { stack: st.stack.drop_last(), ..st }
    } else {
        st
    }
}

pub open spec fn emit(st: SState, ev: SEvent) -> SState {
    SState { events: st.events.push(ev), ..st }
}

pub open spec fn traced(st: SState, e: SExpr) -> SState {
    if st.trace {
        emit(st, SEvent::Trace(expr_text(e)))
    } else {
        st
    }
}

/// The value of a name: the innermost frame first, then the globals.
pub open spec fn lookup(st: SState, k: Seq<char>) -> Result<SValue, SErr> {
    if st.stack.len() == 0 {
        Err(SErr::EmptyCallStack)
    } else {
        match assoc_get(st.stack.last(), k) {
            Some(v) => Ok(v),
            None => match assoc_get(st.globals, k) {
                Some(v) => Ok(v),
                None => Err(SErr::Undefined(k)),
            },
        }
    }
}

/// Binds `k` in the innermost frame.
pub open spec fn assign(st: SState, k: Seq<char>, v: SValue) -> Result<SState, SErr> {
    if st.stack.len() == 0 {
        Err(SErr::EmptyCallStack)
    } else {
        let last = (st.stack.len() - 1) as int;
        Ok(SState { stack: st.stack.update(last, assoc_insert(st.stack[last], k, v)), ..st })
    }
}

// ---------------------------------------------------------------- operators

pub open spec fn apply_unary(op: UnaryOp, v: SValue) -> Result<SValue, SErr> {
    match (op, v) {
        (UnaryOp::Neg, SValue::Int(n)) => match 0i64.checked_sub(n) {
            Some(r) => Ok(SValue::Int(r)),
            None => Err(SErr::Overflow(Overflow::Neg)),
        },
        (UnaryOp::Not, SValue::Bool(b)) => Ok(SValue::Bool(!b)),
        _ => Err(SErr::UnaryMismatch(op, v)),
    }
}

pub open spec fn checked(r: Option<i64>, kind: Overflow) -> Result<SValue, SErr> {
    match r {
        Some(n) => Ok(SValue::Int(n)),
        None => Err(SErr::Overflow(kind)),
    }
}

pub open spec fn apply_binary(op: BinaryOp, l: SValue, r: SValue) -> Result<SValue, SErr> {
    match (l, r) {
        (SValue::Int(a), SValue::Int(b)) => match op {
            BinaryOp::Add => checked(a.checked_add(b), Overflow::Add),
            BinaryOp::Sub => checked(a.checked_sub(b), Overflow::Sub),
            BinaryOp::Mul => checked(a.checked_mul(b), Overflow::Mul),
            BinaryOp::Div => if b == 0 {
                Err(SErr::DivisionByZero)
            } else {
                checked(a.checked_div(b), Overflow::Div)
            },
            BinaryOp::Mod => if b == 0 {
                Err(SErr::ModuloByZero)
            } else {
                checked(a.checked_rem(b), Overflow::Rem)
            },
            BinaryOp::Lt => Ok(SValue::Bool(a < b)),
            BinaryOp::Gt => Ok(SValue::Bool(a > b)),
            BinaryOp::Le => Ok(SValue::Bool(a <= b)),
            BinaryOp::Ge => Ok(SValue::Bool(a >= b)),
            BinaryOp::Eq => Ok(SValue::Bool(a == b)),
            BinaryOp::Ne => Ok(SValue::Bool(a != b)),
        },
        (SValue::Bool(a), SValue::Bool(b)) => match op {
            BinaryOp::Eq => Ok(SValue::Bool(a == b)),
            BinaryOp::Ne => Ok(SValue::Bool(a != b)),
            _ => Err(SErr::BinaryMismatch(op, l, r)),
        },
        _ => Err(SErr::BinaryMismatch(op, l, r)),
    }
}

// ---------------------------------------------------------------- evaluation

/// Evaluates `e` with `fuel` steps left.
pub open spec fn eval(st: SState, e: SExpr, fuel: nat) -> (SState, Result<SValue, SErr>)
    decreases fuel, 1nat, 0nat,
{
    if fuel == 0 {
        (st, Err(SErr::StepLimit))
    } else {
        let f = (fuel - 1) as nat;
        let st = traced(st, e);
        match e {
            SExpr::Print(args) => eval_print(st, args, 0, f),
            SExpr::Int(n) => (st, Ok(SValue::Int(n))),
            SExpr::Bool(b) => (st, Ok(SValue::Bool(b))),
            SExpr::Var(x) => (st, lookup(st, x)),
            SExpr::Unary(op, a) => eval_unary(st, op, *a, f),
            SExpr::Binary(op, l, r) => eval_binary(st, op, *l, *r, f),
            SExpr::If(c, t, el) => eval_if(st, *c, t, el, f),
            SExpr::While(c, body) => eval_while(st, *c, body, f),
            SExpr::Block(b) => eval_block(st, b, f),
            SExpr::Call(name, args) => eval_call(st, name, args, f),
            SExpr::For(var, s, t, body) => eval_for(st, var, *s, *t, body, f),
        }
    }
}

/// Evaluates `args[i..]` and shows each value as soon as it is computed.
pub open spec fn eval_print(st: SState, args: Seq<SExpr>, i: nat, fuel: nat) -> (SState, Result<SValue, SErr>)
    decreases fuel, 2nat, args.len() - i,
{
    if i >= args.len() {
        (st, Ok(SValue::Unit))
    } else {
        let (s1, r) = eval(st, args[i as int], fuel);
        match r {
            Err(er) => (s1, Err(er)),
            Ok(v) => eval_print(emit(s1, SEvent::Print(v)), args, i + 1, fuel),
        }
    }
}

/// Evaluates `args[i..]` in order, after the values `acc` of the arguments before.
pub open spec fn eval_args(st: SState, args: Seq<SExpr>, i: nat, fuel: nat, acc: Seq<SValue>) -> (SState, Result<Seq<SValue>, SErr>)
    decreases fuel, 2nat, args.len() - i,
{
    if i >= args.len() {
        (st, Ok(acc))
    } else {
        let (s1, r) = eval(st, args[i as int], fuel);
        match r {
            Err(er) => (s1, Err(er)),
            Ok(v) => eval_args(s1, args, i + 1, fuel, acc.push(v)),
        }
    }
}

pub open spec fn eval_unary(st: SState, op: UnaryOp, a: SExpr, fuel: nat) -> (SState, Result<SValue, SErr>)
    decreases fuel, 4nat, 0nat,
{
    let (s1, r) = eval(st, a, fuel);
    match r {
        Err(er) => (s1, Err(er)),
        Ok(v) => (s1, apply_unary(op, v)),
    }
}

pub open spec fn eval_binary(st: SState, op: BinaryOp, l: SExpr, r: SExpr, fuel: nat) -> (SState, Result<SValue, SErr>)
    decreases fuel, 4nat, 0nat,
{
    let (s1, a) = eval(st, l, fuel);
    match a {
        Err(er) => (s1, Err(er)),
        Ok(va) => {
            let (s2, b) = eval(s1, r, fuel);
            match b {
                Err(er) => (s2, Err(er)),
                Ok(vb) => (s2, apply_binary(op, va, vb)),
            }
        },
    }
}

/// A `return` inside the branch ends the conditional with that value.
pub open spec fn eval_if(st: SState, c: SExpr, t: Seq<SStmt>, el: Seq<SStmt>, fuel: nat) -> (SState, Result<SValue, SErr>)
    decreases fuel, 4nat, 0nat,
{
    let (s1, rc) = eval(st, c, fuel);
    match rc {
        Err(er) => (s1, Err(er)),
        Ok(SValue::Bool(b)) => {
            let (s2, rr) = exec_seq(s1, if b { t } else { el }, 0, fuel, SValue::Unit);
            match rr {
                Err(er) => (s2, Err(er)),
                Ok(fl) => (s2, Ok(flow_value(fl))),
            }
        },
        Ok(v) => (s1, Err(SErr::CondNotBool(v))),
    }
}

pub open spec fn eval_block(st: SState, b: Seq<SStmt>, fuel: nat) -> (SState, Result<SValue, SErr>)
    decreases fuel, 4nat, 0nat,
{
    let (s1, rr) = exec_seq(st, b, 0, fuel, SValue::Unit);
    match rr {
        Err(er) => (s1, Err(er)),
        Ok(fl) => (s1, Ok(flow_value(fl))),
    }
}

/// Each round spends one step of `fuel`.
pub open spec fn eval_while(st: SState, c: SExpr, body: Seq<SStmt>, fuel: nat) -> (SState, Result<SValue, SErr>)
    decreases fuel, 4nat, 0nat,
{
    if fuel == 0 {
        (st, Err(SErr::StepLimit))
    } else {
        let (s1, rc) = eval(st, c, fuel);
        match rc {
            Err(er) => (s1, Err(er)),
            Ok(SValue::Bool(b)) => if !b {
                (s1, Ok(SValue::Unit))
            } else {
                let (s2, rr) = exec_seq(s1, body, 0, fuel, SValue::Unit);
                match rr {
                    Err(er) => (s2, Err(er)),
                    Ok(SFlow::Return(v)) => (s2, Ok(v)),
                    Ok(SFlow::Continue(_)) => eval_while(s2, c, body, (fuel - 1) as nat),
                }
            },
            Ok(v) => (s1, Err(SErr::WhileCondNotBool(v))),
        }
    }
}

/// A call runs the body in a new frame, which it drops again when the body ends, normally or
/// with an error.
pub open spec fn eval_call(st: SState, name: Seq<char>, args: Seq<SExpr>, fuel: nat) -> (SState, Result<SValue, SErr>)
    decreases fuel, 4nat, 0nat,
{
    match lookup(st, name) {
        Err(er) => (st, Err(er)),
        Ok(SValue::Function(params, body)) => {
            let (s1, ra) = eval_args(st, args, 0, fuel, Seq::empty());
            match ra {
                Err(er) => (s1, Err(er)),
                Ok(vals) => if params.len() != vals.len() {
                    (s1, Err(SErr::Arity(name, params.len(), vals.len())))
                } else {
                    let s2 = push_frame(s1, bind_params(params, vals, params.len()));
                    let (s3, rr) = exec_seq(s2, body, 0, fuel, SValue::Unit);
                    match rr {
                        Err(er) => (pop_frame(s3), Err(er)),
                        Ok(fl) => (pop_frame(s3), Ok(flow_value(fl))),
                    }
                },
            }
        },
        Ok(_) => (st, Err(SErr::NotAFunction(name))),
    }
}

/// `for` evaluates both bounds, then runs the body once for each integer from the start up to
/// (not including) the end.
pub open spec fn eval_for(st: SState, var: Seq<char>, s: SExpr, t: SExpr, body: Seq<SStmt>, fuel: nat) -> (SState, Result<SValue, SErr>)
    decreases fuel, 5nat, 0nat,
{
    let (s1, rs) = eval(st, s, fuel);
    match rs {
        Err(er) => (s1, Err(er)),
        Ok(vs) => {
            let (s2, re) = eval(s1, t, fuel);
            match re {
                Err(er) => (s2, Err(er)),
                Ok(ve) => match (vs, ve) {
                    (SValue::Int(ns), SValue::Int(ne)) => for_rounds(s2, var, ns as int, ne as int, body, fuel),
                    _ => (s2, Err(SErr::ForBounds(vs, ve))),
                },
            }
        },
    }
}

/// The rounds of a `for` from `i` on: each runs the body in a frame of its own that binds the
/// variable, and drops that frame again when the body ends, normally or with an error.
pub open spec fn for_rounds(st: SState, var: Seq<char>, i: int, ne: int, body: Seq<SStmt>, fuel: nat) -> (SState, Result<SValue, SErr>)
    decreases fuel, 4nat, ne - i,
{
    if i >= ne {
        (st, Ok(SValue::Unit))
    } else {
        let s1 = push_frame(st, seq![(var, SValue::Int(i as i64))]);
        let (s2, rr) = exec_seq(s1, body, 0, fuel, SValue::Unit);
        match rr {
            Err(er) => (pop_frame(s2), Err(er)),
            Ok(SFlow::Return(v)) => (pop_frame(s2), Ok(v)),
            Ok(SFlow::Continue(_)) => for_rounds(pop_frame(s2), var, i + 1, ne, body, fuel),
        }
    }
}

/// Executes `stmts[i..]`; finishes with the value of the last statement (`last` if none ran),
/// or stops at the first `return`.
pub open spec fn exec_seq(st: SState, stmts: Seq<SStmt>, i: nat, fuel: nat, last: SValue) -> (SState, Result<SFlow, SErr>)
    decreases fuel, 3nat, stmts.len() - i,
{
    if i >= stmts.len() {
        (st, Ok(SFlow::Continue(last)))
    } else {
        let (s1, r) = exec_stmt(st, stmts[i as int], fuel);
        match r {
            Err(er) => (s1, Err(er)),
            Ok(SFlow::Return(v)) => (s1, Ok(SFlow::Return(v))),
            Ok(SFlow::Continue(v)) => exec_seq(s1, stmts, i + 1, fuel, v),
        }
    }
}

/// Executes one statement.
pub open spec fn exec_stmt(st: SState, s: SStmt, fuel: nat) -> (SState, Result<SFlow, SErr>)
    decreases fuel, 2nat, 0nat,
{
    match s {
        SStmt::Function(name, params, body) => (
            SState { globals: assoc_insert(st.globals, name, SValue::Function(params, body)), ..st },
            Ok(SFlow::Continue(SValue::Unit)),
        ),
        SStmt::Return(e) => {
            let (s1, r) = eval(st, e, fuel);
            match r {
                Err(er) => (s1, Err(er)),
                Ok(v) => (s1, Ok(SFlow::Return(v))),
            }
        },
        SStmt::Assignment(name, e) => {
            let (s1, r) = eval(st, e, fuel);
            match r {
                Err(er) => (s1, Err(er)),
                Ok(v) => match assign(s1, name, v) {
                    Err(er) => (s1, Err(er)),
                    Ok(s2) => (s2, Ok(SFlow::Continue(SValue::Unit))),
                },
            }
        },
        SStmt::Expr(e) => {
            let (s1, r) = eval(st, e, fuel);
            match r {
                Err(er) => (s1, Err(er)),
                Ok(v) => (s1, Ok(SFlow::Continue(v))),
            }
        },
    }
}

/// Runs the top-level statements `stmts[i..]`, each with the step budget `fuel`, and stops at
/// the first error.
pub open spec fn run_program(st: SState, stmts: Seq<SStmt>, i: nat, fuel: nat) -> (SState, Result<(), SErr>)
    decreases stmts.len() - i,
{
    if i >= stmts.len() {
        (st, Ok(()))
    } else {
        let (s1, r) = exec_stmt(st, stmts[i as int], fuel);
        match r {
            Err(er) => (s1, Err(er)),
            Ok(_) => run_program(s1, stmts, i + 1, fuel),
        }
    }
}

/// Running two programs one after the other, the second from the state the first left, is
/// running the two as one program, when the first ends without error.
pub proof fn lemma_run_concat(st: SState, p1: Seq<SStmt>, p2: Seq<SStmt>, fuel: nat)
    requires
        run_program(st, p1, 0, fuel).1 is Ok,
    ensures
        run_program(st, p1 + p2, 0, fuel) == run_program(run_program(st, p1, 0, fuel).0, p2, 0, fuel),
{
    lemma_run_concat_from(st, p1, p2, 0, fuel);
}

proof fn lemma_run_concat_from(st: SState, p1: Seq<SStmt>, p2: Seq<SStmt>, i: nat, fuel: nat)
    requires
        i <= p1.len(),
        run_program(st, p1, i, fuel).1 is Ok,
    ensures
        run_program(st, p1 + p2, i, fuel) == run_program(run_program(st, p1, i, fuel).0, p2, 0, fuel),
    decreases p1.len() - i,
{
    if i >= p1.len() {
        lemma_run_shift(st, p1, p2, 0, fuel);
    } else {
        assert((p1 + p2)[i as int] == p1[i as int]);
        let (s1, r) = exec_stmt(st, p1[i as int], fuel);
        lemma_run_concat_from(s1, p1, p2, i + 1, fuel);
    }
}

/// Running `p1 + p2` from an offset past `p1` runs `p2` from the matching offset.
proof fn lemma_run_shift(st: SState, p1: Seq<SStmt>, p2: Seq<SStmt>, j: nat, fuel: nat)
    ensures
        run_program(st, p1 + p2, p1.len() + j, fuel) == run_program(st, p2, j, fuel),
    decreases p2.len() - j,
{
    if j < p2.len() {
        assert((p1 + p2)[p1.len() + j as int] == p2[j as int]);
        let (s1, r) = exec_stmt(st, p2[j as int], fuel);
        lemma_run_shift(s1, p1, p2, j + 1, fuel);
    }
}

/// The first binding of `k` at or after `i`, if any, is at the index that `assoc_index` gives.
proof fn lemma_assoc_index(l: SFrame, k: Seq<char>, i: nat)
    ensures
        assoc_index(l, k, i) == -1 ==> forall|j: int| i <= j < l.len() ==> #[trigger] l[j].0 != k,
        assoc_index(l, k, i) != -1 ==> i <= assoc_index(l, k, i) < l.len() && l[assoc_index(l, k, i)].0 == k
            && forall|j: int| i <= j < assoc_index(l, k, i) ==> #[trigger] l[j].0 != k,
    decreases l.len() - i,
{
    if i < l.len() && l[i as int].0 != k {
        lemma_assoc_index(l, k, i + 1);
    }
}

/// Binding `k` to `v` in a frame, then reading `k`, gives `v`; every other name reads as before.
pub proof fn lemma_assoc_get_insert(l: SFrame, k: Seq<char>, v: SValue, other: Seq<char>)
    ensures
        assoc_get(assoc_insert(l, k, v), k) == Some(v),
        other != k ==> assoc_get(assoc_insert(l, k, v), other) == assoc_get(l, other),
{
    let l2 = assoc_insert(l, k, v);
    lemma_assoc_index(l, k, 0);
    lemma_assoc_index(l2, k, 0);
    lemma_assoc_index(l, other, 0);
    lemma_assoc_index(l2, other, 0);
    let i = assoc_index(l, k, 0);
    if i >= 0 {
        assert(l2[i].0 == k);
    } else {
        assert(l2[l.len() as int].0 == k);
    }
    if other != k {
        let a = assoc_index(l, other, 0);
        let b = assoc_index(l2, other, 0);
        if a >= 0 {
            assert(l2[a].0 == other);
        }
        if b >= 0 {
            assert(l2[b].0 == other);
            assert(b < l.len());
        }
        assert(a == b);
    }
}

/// Reading a name right after assigning it gives the assigned value, and an assignment leaves
/// the value of every other name as it was.
pub proof fn lemma_lookup_after_assign(st: SState, k: Seq<char>, v: SValue, other: Seq<char>)
    requires
        st.stack.len() > 0,
    ensures
        assign(st, k, v) is Ok,
        lookup(assign(st, k, v)->Ok_0, k) == Ok::<SValue, SErr>(v),
        other != k ==> lookup(assign(st, k, v)->Ok_0, other) == lookup(st, other),
{
    let last = (st.stack.len() - 1) as int;
    lemma_assoc_get_insert(st.stack[last], k, v, other);
    let st2 = assign(st, k, v)->Ok_0;
    assert(st2.stack.last() == assoc_insert(st.stack[last], k, v));
    assert(st.stack.last() == st.stack[last]);
}


// ---------------------------------------------------------------- operators on integers

/// The outcome of evaluating `a op b` on two integer literals.
pub open spec fn literal_outcome(st: SState, op: BinaryOp, a: i64, b: i64, fuel: nat) -> Result<SValue, SErr> {
    eval(st, SExpr::Binary(op, Box::new(SExpr::Int(a)), Box::new(SExpr::Int(b))), fuel).1
}

/// Whether an integer fits in 64 bits.
pub open spec fn fits64(v: int) -> bool {
    i64::MIN <= v <= i64::MAX
}

/// On integers, each comparison is the mathematical comparison of the two values: `<`, `>`,
/// `<=`, `>=`, `==` and `!=` give `true` exactly when `a < b`, `a > b`, `a <= b`, `a >= b`,
/// `a == b` and `a != b`.
pub proof fn lemma_integer_comparisons(st: SState, op: BinaryOp, a: i64, b: i64, fuel: nat)
    requires
        fuel >= 2,
    ensures
        op == BinaryOp::Lt ==> literal_outcome(st, op, a, b, fuel) == Ok::<SValue, SErr>(SValue::Bool(a < b)),
        op == BinaryOp::Gt ==> literal_outcome(st, op, a, b, fuel) == Ok::<SValue, SErr>(SValue::Bool(a > b)),
        op == BinaryOp::Le ==> literal_outcome(st, op, a, b, fuel) == Ok::<SValue, SErr>(SValue::Bool(a <= b)),
        op == BinaryOp::Ge ==> literal_outcome(st, op, a, b, fuel) == Ok::<SValue, SErr>(SValue::Bool(a >= b)),
        op == BinaryOp::Eq ==> literal_outcome(st, op, a, b, fuel) == Ok::<SValue, SErr>(SValue::Bool(a == b)),
        op == BinaryOp::Ne ==> literal_outcome(st, op, a, b, fuel) == Ok::<SValue, SErr>(SValue::Bool(a != b)),
{
    lemma_literal_operands(st, op, a, b, fuel);
}

/// On integers, `+`, `-` and `*` give the sum, the difference (left minus right) and the
/// product, where it fits in 64 bits, and an overflow error where it does not.
pub proof fn lemma_integer_arithmetic(st: SState, op: BinaryOp, a: i64, b: i64, fuel: nat)
    requires
        fuel >= 2,
    ensures
        op == BinaryOp::Add ==> literal_outcome(st, op, a, b, fuel) == (if fits64(a + b) {
            Ok::<SValue, SErr>(SValue::Int((a + b) as i64))
        } else {
            Err(SErr::Overflow(Overflow::Add))
        }),
        op == BinaryOp::Sub ==> literal_outcome(st, op, a, b, fuel) == (if fits64(a - b) {
            Ok::<SValue, SErr>(SValue::Int((a - b) as i64))
        } else {
            Err(SErr::Overflow(Overflow::Sub))
        }),
        op == BinaryOp::Mul ==> literal_outcome(st, op, a, b, fuel) == (if fits64(a * b) {
            Ok::<SValue, SErr>(SValue::Int((a * b) as i64))
        } else {
            Err(SErr::Overflow(Overflow::Mul))
        }),
        op == BinaryOp::Div && b == 0 ==> literal_outcome(st, op, a, b, fuel) == Err::<SValue, SErr>(SErr::DivisionByZero),
        op == BinaryOp::Mod && b == 0 ==> literal_outcome(st, op, a, b, fuel) == Err::<SValue, SErr>(SErr::ModuloByZero),
{
    lemma_literal_operands(st, op, a, b, fuel);
}

/// On integers with `a >= 0` and `b > 0`, `/` gives the quotient `q` and `%` the remainder
/// `a - q * b` of whole division: `q * b <= a < (q + 1) * b`.
pub proof fn lemma_integer_division(st: SState, a: i64, b: i64, fuel: nat)
    requires
        fuel >= 2,
        a >= 0,
        b > 0,
    ensures
        literal_outcome(st, BinaryOp::Div, a, b, fuel) matches Ok(SValue::Int(q)) && q * b <= a < (q + 1) * b,
        literal_outcome(st, BinaryOp::Mod, a, b, fuel) matches Ok(SValue::Int(m))
            && literal_outcome(st, BinaryOp::Div, a, b, fuel) matches Ok(SValue::Int(q)) && m == a - q * b,
{
    lemma_literal_operands(st, BinaryOp::Div, a, b, fuel);
    lemma_literal_operands(st, BinaryOp::Mod, a, b, fuel);
    let x = a as int;
    let d = b as int;
    assert(x / d * d <= x < (x / d + 1) * d) by (nonlinear_arith)
        requires
            x >= 0,
            d > 0,
    ;
    assert(x % d == x - x / d * d) by (nonlinear_arith)
        requires
            x >= 0,
            d > 0,
    ;
    assert(0 <= x / d <= x) by (nonlinear_arith)
        requires
            x >= 0,
            d > 0,
    ;
}

/// On literals, `-` negates an integer (an overflow error for the least one) and `!` negates a
/// boolean.
pub proof fn lemma_literal_prefix_operators(st: SState, a: i64, b: bool, fuel: nat)
    requires
        fuel >= 2,
    ensures
        eval(st, SExpr::Unary(UnaryOp::Neg, Box::new(SExpr::Int(a))), fuel).1 == (if fits64(-a) {
            Ok::<SValue, SErr>(SValue::Int((-a) as i64))
        } else {
            Err(SErr::Overflow(Overflow::Neg))
        }),
        eval(st, SExpr::Unary(UnaryOp::Not, Box::new(SExpr::Bool(b))), fuel).1 == Ok::<SValue, SErr>(SValue::Bool(!b)),
{
    let f = (fuel - 1) as nat;
    let e1 = SExpr::Unary(UnaryOp::Neg, Box::new(SExpr::Int(a)));
    let e2 = SExpr::Unary(UnaryOp::Not, Box::new(SExpr::Bool(b)));
    assert(eval(traced(st, e1), SExpr::Int(a), f).1 == Ok::<SValue, SErr>(SValue::Int(a)));
    assert(eval(traced(st, e2), SExpr::Bool(b), f).1 == Ok::<SValue, SErr>(SValue::Bool(b)));
}

/// Evaluating `a op b` on two literals applies the operator to their values.
proof fn lemma_literal_operands(st: SState, op: BinaryOp, a: i64, b: i64, fuel: nat)
    requires
        fuel >= 2,
    ensures
        literal_outcome(st, op, a, b, fuel) == apply_binary(op, SValue::Int(a), SValue::Int(b)),
{
    let f = (fuel - 1) as nat;
    let e = SExpr::Binary(op, Box::new(SExpr::Int(a)), Box::new(SExpr::Int(b)));
    let s1 = traced(st, e);
    let (s2, ra) = eval(s1, SExpr::Int(a), f);
    assert(ra == Ok::<SValue, SErr>(SValue::Int(a)));
    let (s3, rb) = eval(s2, SExpr::Int(b), f);
    assert(rb == Ok::<SValue, SErr>(SValue::Int(b)));
    assert(eval(st, e, fuel).1 == eval_binary(s1, op, SExpr::Int(a), SExpr::Int(b), f).1);
}

// ---------------------------------------------------------------- tracing

/// The values that `print` showed, in order, leaving out trace events.
pub open spec fn prints(evs: Seq<SEvent>) -> Seq<SValue>
    decreases evs.len(),
{
    if evs.len() == 0 {
        Seq::empty()
    } else {
        match evs.last() {
            SEvent::Print(v) => prints(evs.drop_last()).push(v),
            SEvent::Trace(_) => prints(evs.drop_last()),
        }
    }
}

/// Two states that differ at most in tracing: the same bindings, the same printed values.
pub open spec fn agree(a: SState, b: SState) -> bool {
    &&& a.globals == b.globals
    &&& a.stack == b.stack
    &&& prints(a.events) == prints(b.events)
}

proof fn lemma_emit_agree(a: SState, b: SState, ev: SEvent)
    requires
        agree(a, b),
    ensures
        agree(emit(a, ev), emit(b, ev)),
{
    assert(emit(a, ev).events.drop_last() =~= a.events);
    assert(emit(b, ev).events.drop_last() =~= b.events);
}

proof fn lemma_traced_agree(a: SState, b: SState, e: SExpr)
    requires
        agree(a, b),
    ensures
        agree(traced(a, e), traced(b, e)),
        agree(traced(a, e), a),
{
    if a.trace {
        assert(emit(a, SEvent::Trace(expr_text(e))).events.drop_last() =~= a.events);
    }
    if b.trace {
        assert(emit(b, SEvent::Trace(expr_text(e))).events.drop_last() =~= b.events);
    }
}

proof fn lemma_eval_agree(a: SState, b: SState, e: SExpr, fuel: nat)
    requires
        agree(a, b),
    ensures
        eval(a, e, fuel).1 == eval(b, e, fuel).1,
        agree(eval(a, e, fuel).0, eval(b, e, fuel).0),
    decreases fuel, 1nat, 0nat,
{
    if fuel > 0 {
        let f = (fuel - 1) as nat;
        let a1 = traced(a, e);
        let b1 = traced(b, e);
        lemma_traced_agree(a, b, e);
        lemma_traced_agree(b, a, e);
        match e {
            SExpr::Print(args) => lemma_eval_print_agree(a1, b1, args, 0, f),
            SExpr::Unary(op, x) => lemma_eval_unary_agree(a1, b1, op, *x, f),
            SExpr::Binary(op, l, r) => lemma_eval_binary_agree(a1, b1, op, *l, *r, f),
            SExpr::If(c, t, el) => lemma_eval_if_agree(a1, b1, *c, t, el, f),
            SExpr::While(c, body) => lemma_eval_while_agree(a1, b1, *c, body, f),
            SExpr::Block(body) => lemma_eval_block_agree(a1, b1, body, f),
            SExpr::Call(name, args) => lemma_eval_call_agree(a1, b1, name, args, f),
            SExpr::For(var, x, y, body) => lemma_eval_for_agree(a1, b1, var, *x, *y, body, f),
            _ => {},
        }
    }
}

proof fn lemma_eval_print_agree(a: SState, b: SState, args: Seq<SExpr>, i: nat, fuel: nat)
    requires
        agree(a, b),
    ensures
        eval_print(a, args, i, fuel).1 == eval_print(b, args, i, fuel).1,
        agree(eval_print(a, args, i, fuel).0, eval_print(b, args, i, fuel).0),
    decreases fuel, 2nat, args.len() - i,
{
    if i < args.len() {
        lemma_eval_agree(a, b, args[i as int], fuel);
        let (a1, r) = eval(a, args[i as int], fuel);
        let (b1, _) = eval(b, args[i as int], fuel);
        if let Ok(v) = r {
            lemma_emit_agree(a1, b1, SEvent::Print(v));
            lemma_eval_print_agree(emit(a1, SEvent::Print(v)), emit(b1, SEvent::Print(v)), args, i + 1, fuel);
        }
    }
}

proof fn lemma_eval_args_agree(a: SState, b: SState, args: Seq<SExpr>, i: nat, fuel: nat, acc: Seq<SValue>)
    requires
        agree(a, b),
    ensures
        eval_args(a, args, i, fuel, acc).1 == eval_args(b, args, i, fuel, acc).1,
        agree(eval_args(a, args, i, fuel, acc).0, eval_args(b, args, i, fuel, acc).0),
    decreases fuel, 2nat, args.len() - i,
{
    if i < args.len() {
        lemma_eval_agree(a, b, args[i as int], fuel);
        let (a1, r) = eval(a, args[i as int], fuel);
        let (b1, _) = eval(b, args[i as int], fuel);
        if let Ok(v) = r {
            lemma_eval_args_agree(a1, b1, args, i + 1, fuel, acc.push(v));
        }
    }
}

proof fn lemma_eval_unary_agree(a: SState, b: SState, op: UnaryOp, x: SExpr, fuel: nat)
    requires
        agree(a, b),
    ensures
        eval_unary(a, op, x, fuel).1 == eval_unary(b, op, x, fuel).1,
        agree(eval_unary(a, op, x, fuel).0, eval_unary(b, op, x, fuel).0),
    decreases fuel, 4nat, 0nat,
{
    lemma_eval_agree(a, b, x, fuel);
}

proof fn lemma_eval_binary_agree(a: SState, b: SState, op: BinaryOp, l: SExpr, r: SExpr, fuel: nat)
    requires
        agree(a, b),
    ensures
        eval_binary(a, op, l, r, fuel).1 == eval_binary(b, op, l, r, fuel).1,
        agree(eval_binary(a, op, l, r, fuel).0, eval_binary(b, op, l, r, fuel).0),
    decreases fuel, 4nat, 0nat,
{
    lemma_eval_agree(a, b, l, fuel);
    let (a1, x) = eval(a, l, fuel);
    let (b1, _) = eval(b, l, fuel);
    if x is Ok {
        lemma_eval_agree(a1, b1, r, fuel);
    }
}

proof fn lemma_eval_if_agree(a: SState, b: SState, c: SExpr, t: Seq<SStmt>, el: Seq<SStmt>, fuel: nat)
    requires
        agree(a, b),
    ensures
        eval_if(a, c, t, el, fuel).1 == eval_if(b, c, t, el, fuel).1,
        agree(eval_if(a, c, t, el, fuel).0, eval_if(b, c, t, el, fuel).0),
    decreases fuel, 4nat, 0nat,
{
    lemma_eval_agree(a, b, c, fuel);
    let (a1, rc) = eval(a, c, fuel);
    let (b1, _) = eval(b, c, fuel);
    if let Ok(SValue::Bool(v)) = rc {
        lemma_exec_seq_agree(a1, b1, if v { t } else { el }, 0, fuel, SValue::Unit);
    }
}

proof fn lemma_eval_block_agree(a: SState, b: SState, body: Seq<SStmt>, fuel: nat)
    requires
        agree(a, b),
    ensures
        eval_block(a, body, fuel).1 == eval_block(b, body, fuel).1,
        agree(eval_block(a, body, fuel).0, eval_block(b, body, fuel).0),
    decreases fuel, 4nat, 0nat,
{
    lemma_exec_seq_agree(a, b, body, 0, fuel, SValue::Unit);
}

proof fn lemma_eval_while_agree(a: SState, b: SState, c: SExpr, body: Seq<SStmt>, fuel: nat)
    requires
        agree(a, b),
    ensures
        eval_while(a, c, body, fuel).1 == eval_while(b, c, body, fuel).1,
        agree(eval_while(a, c, body, fuel).0, eval_while(b, c, body, fuel).0),
    decreases fuel, 4nat, 0nat,
{
    if fuel > 0 {
        lemma_eval_agree(a, b, c, fuel);
        let (a1, rc) = eval(a, c, fuel);
        let (b1, _) = eval(b, c, fuel);
        if let Ok(SValue::Bool(v)) = rc {
            if v {
                lemma_exec_seq_agree(a1, b1, body, 0, fuel, SValue::Unit);
                let (a2, rr) = exec_seq(a1, body, 0, fuel, SValue::Unit);
                let (b2, _) = exec_seq(b1, body, 0, fuel, SValue::Unit);
                if let Ok(SFlow::Continue(_)) = rr {
                    lemma_eval_while_agree(a2, b2, c, body, (fuel - 1) as nat);
                }
            }
        }
    }
}

proof fn lemma_eval_call_agree(a: SState, b: SState, name: Seq<char>, args: Seq<SExpr>, fuel: nat)
    requires
        agree(a, b),
    ensures
        eval_call(a, name, args, fuel).1 == eval_call(b, name, args, fuel).1,
        agree(eval_call(a, name, args, fuel).0, eval_call(b, name, args, fuel).0),
    decreases fuel, 4nat, 0nat,
{
    if let Ok(SValue::Function(params, body)) = lookup(a, name) {
        lemma_eval_args_agree(a, b, args, 0, fuel, Seq::empty());
        let (a1, ra) = eval_args(a, args, 0, fuel, Seq::empty());
        let (b1, _) = eval_args(b, args, 0, fuel, Seq::empty());
        if let Ok(vals) = ra {
            if params.len() == vals.len() {
                let fr = bind_params(params, vals, params.len());
                lemma_exec_seq_agree(push_frame(a1, fr), push_frame(b1, fr), body, 0, fuel, SValue::Unit);
            }
        }
    }
}

proof fn lemma_eval_for_agree(a: SState, b: SState, var: Seq<char>, x: SExpr, y: SExpr, body: Seq<SStmt>, fuel: nat)
    requires
        agree(a, b),
    ensures
        eval_for(a, var, x, y, body, fuel).1 == eval_for(b, var, x, y, body, fuel).1,
        agree(eval_for(a, var, x, y, body, fuel).0, eval_for(b, var, x, y, body, fuel).0),
    decreases fuel, 5nat, 0nat,
{
    lemma_eval_agree(a, b, x, fuel);
    let (a1, rs) = eval(a, x, fuel);
    let (b1, _) = eval(b, x, fuel);
    if rs is Ok {
        lemma_eval_agree(a1, b1, y, fuel);
        let (a2, re) = eval(a1, y, fuel);
        let (b2, _) = eval(b1, y, fuel);
        if let (Ok(SValue::Int(ns)), Ok(SValue::Int(ne))) = (rs, re) {
            lemma_for_rounds_agree(a2, b2, var, ns as int, ne as int, body, fuel);
        }
    }
}

proof fn lemma_for_rounds_agree(a: SState, b: SState, var: Seq<char>, i: int, ne: int, body: Seq<SStmt>, fuel: nat)
    requires
        agree(a, b),
    ensures
        for_rounds(a, var, i, ne, body, fuel).1 == for_rounds(b, var, i, ne, body, fuel).1,
        agree(for_rounds(a, var, i, ne, body, fuel).0, for_rounds(b, var, i, ne, body, fuel).0),
    decreases fuel, 4nat, ne - i,
{
    if i < ne {
        let fr = seq![(var, SValue::Int(i as i64))];
        lemma_exec_seq_agree(push_frame(a, fr), push_frame(b, fr), body, 0, fuel, SValue::Unit);
        let (a2, rr) = exec_seq(push_frame(a, fr), body, 0, fuel, SValue::Unit);
        let (b2, _) = exec_seq(push_frame(b, fr), body, 0, fuel, SValue::Unit);
        if let Ok(SFlow::Continue(_)) = rr {
            lemma_for_rounds_agree(pop_frame(a2), pop_frame(b2), var, i + 1, ne, body, fuel);
        }
    }
}

proof fn lemma_exec_seq_agree(a: SState, b: SState, stmts: Seq<SStmt>, i: nat, fuel: nat, last: SValue)
    requires
        agree(a, b),
    ensures
        exec_seq(a, stmts, i, fuel, last).1 == exec_seq(b, stmts, i, fuel, last).1,
        agree(exec_seq(a, stmts, i, fuel, last).0, exec_seq(b, stmts, i, fuel, last).0),
    decreases fuel, 3nat, stmts.len() - i,
{
    if i < stmts.len() {
        lemma_exec_stmt_agree(a, b, stmts[i as int], fuel);
        let (a1, r) = exec_stmt(a, stmts[i as int], fuel);
        let (b1, _) = exec_stmt(b, stmts[i as int], fuel);
        if let Ok(SFlow::Continue(v)) = r {
            lemma_exec_seq_agree(a1, b1, stmts, i + 1, fuel, v);
        }
    }
}

proof fn lemma_exec_stmt_agree(a: SState, b: SState, st: SStmt, fuel: nat)
    requires
        agree(a, b),
    ensures
        exec_stmt(a, st, fuel).1 == exec_stmt(b, st, fuel).1,
        agree(exec_stmt(a, st, fuel).0, exec_stmt(b, st, fuel).0),
    decreases fuel, 2nat, 0nat,
{
    match st {
        SStmt::Function(_, _, _) => {},
        SStmt::Return(e) => lemma_eval_agree(a, b, e, fuel),
        SStmt::Assignment(_, e) => lemma_eval_agree(a, b, e, fuel),
        SStmt::Expr(e) => lemma_eval_agree(a, b, e, fuel),
    }
}

proof fn lemma_run_program_agree(a: SState, b: SState, stmts: Seq<SStmt>, i: nat, fuel: nat)
    requires
        agree(a, b),
    ensures
        run_program(a, stmts, i, fuel).1 == run_program(b, stmts, i, fuel).1,
        agree(run_program(a, stmts, i, fuel).0, run_program(b, stmts, i, fuel).0),
    decreases stmts.len() - i,
{
    if i < stmts.len() {
        lemma_exec_stmt_agree(a, b, stmts[i as int], fuel);
        let (a1, r) = exec_stmt(a, stmts[i as int], fuel);
        let (b1, _) = exec_stmt(b, stmts[i as int], fuel);
        if r is Ok {
            lemma_run_program_agree(a1, b1, stmts, i + 1, fuel);
        }
    }
}

/// Tracing changes nothing but the trace events recorded: with tracing on or off, a program
/// ends with the same result, the same bindings, and the same printed values.
pub proof fn lemma_trace_only_adds_events(st: SState, p: Seq<SStmt>, fuel: nat, trace: bool)
    ensures
        run_program(SState { trace, ..st }, p, 0, fuel).1 == run_program(st, p, 0, fuel).1,
        agree(run_program(SState { trace, ..st }, p, 0, fuel).0, run_program(st, p, 0, fuel).0),
{
    lemma_run_program_agree(SState { trace, ..st }, st, p, 0, fuel);
}

// ---------------------------------------------------------------- frames

/// `b` has the stack of `a` but for the innermost frame's bindings, and its trace flag and
/// step budget.
pub open spec fn frames_kept(a: SState, b: SState) -> bool {
    &&& b.trace == a.trace
    &&& b.fuel == a.fuel
    &&& b.stack.len() == a.stack.len()
    &&& forall|j: int| 0 <= j < a.stack.len() - 1 ==> #[trigger] b.stack[j] == a.stack[j]
}

/// Dropping the frame pushed on `a` gives back `a`'s stack.
proof fn lemma_pop_pushed(a: SState, fr: SFrame, b: SState)
    requires
        frames_kept(push_frame(a, fr), b),
    ensures
        pop_frame(b).stack == a.stack,
        frames_kept(a, pop_frame(b)),
{
    assert(b.stack.len() == a.stack.len() + 1);
    assert forall|j: int| 0 <= j < a.stack.len() implies #[trigger] b.stack[j] == a.stack[j] by {
        assert(push_frame(a, fr).stack[j] == a.stack[j]);
    }
    assert(pop_frame(b).stack =~= a.stack);
}

proof fn lemma_eval_kept(st: SState, e: SExpr, fuel: nat)
    ensures
        frames_kept(st, eval(st, e, fuel).0),
    decreases fuel, 1nat, 0nat,
{
    if fuel > 0 {
        let f = (fuel - 1) as nat;
        let s1 = traced(st, e);
        match e {
            SExpr::Print(args) => lemma_eval_print_kept(s1, args, 0, f),
            SExpr::Unary(op, x) => lemma_eval_kept(s1, *x, f),
            SExpr::Binary(op, l, r) => {
                lemma_eval_kept(s1, *l, f);
                let (s2, x) = eval(s1, *l, f);
                if x is Ok {
                    lemma_eval_kept(s2, *r, f);
                }
            },
            SExpr::If(c, t, el) => lemma_eval_if_kept(s1, *c, t, el, f),
            SExpr::While(c, body) => lemma_eval_while_kept(s1, *c, body, f),
            SExpr::Block(body) => lemma_exec_seq_kept(s1, body, 0, f, SValue::Unit),
            SExpr::Call(name, args) => lemma_eval_call_kept(s1, name, args, f),
            SExpr::For(var, x, y, body) => lemma_eval_for_kept(s1, var, *x, *y, body, f),
            _ => {},
        }
    }
}

proof fn lemma_eval_print_kept(st: SState, args: Seq<SExpr>, i: nat, fuel: nat)
    ensures
        frames_kept(st, eval_print(st, args, i, fuel).0),
    decreases fuel, 2nat, args.len() - i,
{
    if i < args.len() {
        lemma_eval_kept(st, args[i as int], fuel);
        let (s1, r) = eval(st, args[i as int], fuel);
        if let Ok(v) = r {
            lemma_eval_print_kept(emit(s1, SEvent::Print(v)), args, i + 1, fuel);
        }
    }
}

proof fn lemma_eval_args_kept(st: SState, args: Seq<SExpr>, i: nat, fuel: nat, acc: Seq<SValue>)
    ensures
        frames_kept(st, eval_args(st, args, i, fuel, acc).0),
    decreases fuel, 2nat, args.len() - i,
{
    if i < args.len() {
        lemma_eval_kept(st, args[i as int], fuel);
        let (s1, r) = eval(st, args[i as int], fuel);
        if let Ok(v) = r {
            lemma_eval_args_kept(s1, args, i + 1, fuel, acc.push(v));
        }
    }
}

proof fn lemma_eval_if_kept(st: SState, c: SExpr, t: Seq<SStmt>, el: Seq<SStmt>, fuel: nat)
    ensures
        frames_kept(st, eval_if(st, c, t, el, fuel).0),
    decreases fuel, 4nat, 0nat,
{
    lemma_eval_kept(st, c, fuel);
    let (s1, rc) = eval(st, c, fuel);
    if let Ok(SValue::Bool(v)) = rc {
        lemma_exec_seq_kept(s1, if v { t } else { el }, 0, fuel, SValue::Unit);
    }
}

proof fn lemma_eval_while_kept(st: SState, c: SExpr, body: Seq<SStmt>, fuel: nat)
    ensures
        frames_kept(st, eval_while(st, c, body, fuel).0),
    decreases fuel, 4nat, 0nat,
{
    if fuel > 0 {
        lemma_eval_kept(st, c, fuel);
        let (s1, rc) = eval(st, c, fuel);
        if let Ok(SValue::Bool(v)) = rc {
            if v {
                lemma_exec_seq_kept(s1, body, 0, fuel, SValue::Unit);
                let (s2, rr) = exec_seq(s1, body, 0, fuel, SValue::Unit);
                if let Ok(SFlow::Continue(_)) = rr {
                    lemma_eval_while_kept(s2, c, body, (fuel - 1) as nat);
                }
            }
        }
    }
}

proof fn lemma_eval_call_kept(st: SState, name: Seq<char>, args: Seq<SExpr>, fuel: nat)
    ensures
        frames_kept(st, eval_call(st, name, args, fuel).0),
    decreases fuel, 4nat, 0nat,
{
    if let Ok(SValue::Function(params, body)) = lookup(st, name) {
        lemma_eval_args_kept(st, args, 0, fuel, Seq::empty());
        let (s1, ra) = eval_args(st, args, 0, fuel, Seq::empty());
        if let Ok(vals) = ra {
            if params.len() == vals.len() {
                let fr = bind_params(params, vals, params.len());
                lemma_exec_seq_kept(push_frame(s1, fr), body, 0, fuel, SValue::Unit);
                let (s3, _) = exec_seq(push_frame(s1, fr), body, 0, fuel, SValue::Unit);
                lemma_pop_pushed(s1, fr, s3);
            }
        }
    }
}

proof fn lemma_eval_for_kept(st: SState, var: Seq<char>, x: SExpr, y: SExpr, body: Seq<SStmt>, fuel: nat)
    ensures
        frames_kept(st, eval_for(st, var, x, y, body, fuel).0),
    decreases fuel, 5nat, 0nat,
{
    lemma_eval_kept(st, x, fuel);
    let (s1, rs) = eval(st, x, fuel);
    if rs is Ok {
        lemma_eval_kept(s1, y, fuel);
        let (s2, re) = eval(s1, y, fuel);
        if let (Ok(SValue::Int(ns)), Ok(SValue::Int(ne))) = (rs, re) {
            lemma_for_rounds_kept(s2, var, ns as int, ne as int, body, fuel);
        }
    }
}

proof fn lemma_for_rounds_kept(st: SState, var: Seq<char>, i: int, ne: int, body: Seq<SStmt>, fuel: nat)
    ensures
        frames_kept(st, for_rounds(st, var, i, ne, body, fuel).0),
    decreases fuel, 4nat, ne - i,
{
    if i < ne {
        let fr = seq![(var, SValue::Int(i as i64))];
        lemma_exec_seq_kept(push_frame(st, fr), body, 0, fuel, SValue::Unit);
        let (s2, rr) = exec_seq(push_frame(st, fr), body, 0, fuel, SValue::Unit);
        lemma_pop_pushed(st, fr, s2);
        if let Ok(SFlow::Continue(_)) = rr {
            lemma_for_rounds_kept(pop_frame(s2), var, i + 1, ne, body, fuel);
        }
    }
}

proof fn lemma_exec_seq_kept(st: SState, stmts: Seq<SStmt>, i: nat, fuel: nat, last: SValue)
    ensures
        frames_kept(st, exec_seq(st, stmts, i, fuel, last).0),
    decreases fuel, 3nat, stmts.len() - i,
{
    if i < stmts.len() {
        lemma_exec_stmt_kept(st, stmts[i as int], fuel);
        let (s1, r) = exec_stmt(st, stmts[i as int], fuel);
        if let Ok(SFlow::Continue(v)) = r {
            lemma_exec_seq_kept(s1, stmts, i + 1, fuel, v);
        }
    }
}

proof fn lemma_exec_stmt_kept(st: SState, s: SStmt, fuel: nat)
    ensures
        frames_kept(st, exec_stmt(st, s, fuel).0),
    decreases fuel, 2nat, 0nat,
{
    match s {
        SStmt::Function(_, _, _) => {},
        SStmt::Return(e) => lemma_eval_kept(st, e, fuel),
        SStmt::Assignment(name, e) => {
            lemma_eval_kept(st, e, fuel);
            let (s1, r) = eval(st, e, fuel);
            if let Ok(v) = r {
                if let Ok(s2) = assign(s1, name, v) {
                    assert(s2.stack.len() == s1.stack.len());
                }
            }
        },
        SStmt::Expr(e) => lemma_eval_kept(st, e, fuel),
    }
}

/// Evaluating an expression leaves the call stack as long as it was, with every frame but the
/// innermost unchanged (the innermost may gain bindings), and keeps the trace flag and the
/// step budget: every call and every round of a `for` drops the frame it pushed, also when
/// its body fails.
pub proof fn lemma_eval_keeps_frames(st: SState, e: SExpr, fuel: nat)
    ensures
        frames_kept(st, eval(st, e, fuel).0),
{
    lemma_eval_kept(st, e, fuel);
}

/// Running top-level statements keeps the call stack's length and every frame but the
/// innermost, the trace flag and the step budget; so a stack that holds a frame keeps one.
pub proof fn lemma_run_keeps_frames(st: SState, stmts: Seq<SStmt>, i: nat, fuel: nat)
    ensures
        frames_kept(st, run_program(st, stmts, i, fuel).0),
    decreases stmts.len() - i,
{
    if i < stmts.len() {
        lemma_exec_stmt_kept(st, stmts[i as int], fuel);
        let (s1, r) = exec_stmt(st, stmts[i as int], fuel);
        if r is Ok {
            lemma_run_keeps_frames(s1, stmts, i + 1, fuel);
        }
    }
}

// ---------------------------------------------------------------- texts

/// `Debug` notation of a value.
pub open spec fn value_debug(v: SValue) -> Seq<char> {
    match v {
        SValue::Int(n) => "Int("@ + int_text(n as int) + ")"@,
        SValue::Bool(b) => "Bool("@ + bool_text(b) + ")"@,
        SValue::Function(ps, body) => "Function { params: "@ + name_list(ps) + ", body: "@ + stmt_list(body) + " }"@,
        SValue::Unit => "Unit"@,
    }
}

/// The names separated by `, `.
pub open spec fn plain_names(s: Seq<Seq<char>>) -> Seq<char>
    decreases s.len(),
{
    if s.len() == 0 {
        Seq::empty()
    } else if s.len() == 1 {
        s[0]
    } else {
        plain_names(s.drop_last()) + ", "@ + s.last()
    }
}

/// How `print` shows a value; a function shows the address `addr` of the value.
pub open spec fn value_display(v: SValue, addr: nat) -> Seq<char> {
    match v {
        SValue::Int(n) => int_text(n as int) + " "@,
        SValue::Bool(b) => bool_text(b),
        SValue::Function(ps, _) => "<function("@ + plain_names(ps) + ")> at 0x"@ + hex_text(addr, false),
        SValue::Unit => "()"@,
    }
}

pub open spec fn overflow_text(k: Overflow) -> Seq<char> {
    match k {
        Overflow::Add => "attempt to add with overflow"@,
        Overflow::Sub => "attempt to subtract with overflow"@,
        Overflow::Mul => "attempt to multiply with overflow"@,
        Overflow::Neg => "attempt to negate with overflow"@,
        Overflow::Div => "attempt to divide with overflow"@,
        Overflow::Rem => "attempt to calculate the remainder with overflow"@,
    }
}

/// The message of an error.
pub open spec fn error_text(e: SErr) -> Seq<char> {
    match e {
        SErr::Undefined(k) => "Undefined variable not found in this scope: "@ + k,
        SErr::UnaryMismatch(op, v) => "Cannot apply "@ + unop_text(op) + " to "@ + value_debug(v),
        SErr::BinaryMismatch(op, a, b) => "Cannot apply "@ + binop_text(op) + " to "@ + value_debug(a) + " and "@
            + value_debug(b),
        SErr::DivisionByZero => "Division by zero"@,
        SErr::ModuloByZero => "Modulo by zero"@,
        SErr::Overflow(k) => overflow_text(k),
        SErr::CondNotBool(v) => "Condition must be boolean, got "@ + value_debug(v),
        SErr::WhileCondNotBool(v) => "While condition must be boolean, got "@ + value_debug(v),
        SErr::NotAFunction(k) => k + " is not a function"@,
        SErr::Arity(k, a, b) => "Function "@ + k + " expected "@ + nat_text(a) + " arguments, got "@ + nat_text(b),
        SErr::ForBounds(a, b) => "start and end should both be ints, found "@ + value_display(a, 0) + " and "@
            + value_display(b, 0),
        SErr::EmptyCallStack => "Call stack should never be empty"@,
        SErr::StepLimit => "step limit reached"@,
    }
}

} // verus!
