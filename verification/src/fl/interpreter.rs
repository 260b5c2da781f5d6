//! The tree-walking interpreter.
use vstd::prelude::*;
use crate::fl::ast::{
    copy_names, copy_stmts, expr_view, exprs_view, lemma_exprs_view, lemma_stmts_view, names_view,
    stmt_view, stmts_view, BinaryOp, Expr, Stmt, UnaryOp,
};
use crate::fl::render::{name_list, stmt_list, write_expr, write_names, write_stmts, unop_text, binop_text, write_unop, write_binop};
use crate::fl::semantics::{
    frames_kept, lemma_run_keeps_frames,
    apply_binary, apply_unary, assign, assoc_get, assoc_index, assoc_insert, bind_params, emit, eval, eval_args,
    eval_binary, eval_block, eval_call, eval_for, eval_if, eval_print, eval_unary, eval_while, exec_seq, exec_stmt,
    checked, error_text, overflow_text, plain_names, value_debug, value_display, flow_value, for_rounds, lookup, pop_frame, push_frame, run_program, traced, Overflow, SErr, SEvent, SFlow, SFrame,
    SState, SValue,
};
use crate::text::{bool_text, hex_text, int_text, nat_text, push_char, write_hex, write_int, write_nat};

verus! {

/// A runtime value.
#[derive(Debug, PartialEq)]
pub enum Value {
    Int(i64),
    Bool(bool),
    Function { params: Vec<String>, body: Vec<Stmt> },
    Unit,
}

pub open spec fn value_view(v: Value) -> SValue {
    match v {
        Value::Int(n) => SValue::Int(n),
        Value::Bool(b) => SValue::Bool(b),
        Value::Function { params, body } => SValue::Function(names_view(params@), stmts_view(body@)),
        Value::Unit => SValue::Unit,
    }
}

impl Value {
    /// A copy of this value, equal to it in every part.
    pub fn deep_copy(&self) -> (r: Value)
        ensures
            value_view(r) == value_view(*self),
    {
        match self {
            Value::Int(n) => Value::Int(*n),
            Value::Bool(b) => Value::Bool(*b),
            Value::Function { params, body } => Value::Function { params: copy_names(params), body: copy_stmts(body) },
            Value::Unit => Value::Unit,
        }
    }
}

impl Clone for Value {
    fn clone(&self) -> (r: Value)
        ensures
            value_view(r) == value_view(*self),
    {
        self.deep_copy()
    }
}

/// Something the program did that the outside world sees.
#[derive(Debug, PartialEq)]
pub enum Event {
    /// `print` showed this value.
    Print(Value),
    /// Tracing: the `Debug` notation of an expression about to be evaluated.
    Trace(String),
}

pub open spec fn event_view(e: Event) -> SEvent {
    match e {
        Event::Print(v) => SEvent::Print(value_view(v)),
        Event::Trace(t) => SEvent::Trace(t@),
    }
}

pub open spec fn events_view(s: Seq<Event>) -> Seq<SEvent> {
    Seq::new(s.len(), |i: int| event_view(s[i]))
}

/// Why evaluation stopped.
#[derive(Debug, PartialEq)]
pub enum RuntimeError {
    Undefined(String),
    UnaryMismatch(UnaryOp, Value),
    BinaryMismatch(BinaryOp, Value, Value),
    DivisionByZero,
    ModuloByZero,
    Overflow(Overflow),
    CondNotBool(Value),
    WhileCondNotBool(Value),
    NotAFunction(String),
    Arity(String, usize, usize),
    ForBounds(Value, Value),
    EmptyCallStack,
    StepLimit,
}

pub open spec fn error_view(e: RuntimeError) -> SErr {
    match e {
        RuntimeError::Undefined(k) => SErr::Undefined(k@),
        RuntimeError::UnaryMismatch(op, v) => SErr::UnaryMismatch(op, value_view(v)),
        RuntimeError::BinaryMismatch(op, a, b) => SErr::BinaryMismatch(op, value_view(a), value_view(b)),
        RuntimeError::DivisionByZero => SErr::DivisionByZero,
        RuntimeError::ModuloByZero => SErr::ModuloByZero,
        RuntimeError::Overflow(k) => SErr::Overflow(k),
        RuntimeError::CondNotBool(v) => SErr::CondNotBool(value_view(v)),
        RuntimeError::WhileCondNotBool(v) => SErr::WhileCondNotBool(value_view(v)),
        RuntimeError::NotAFunction(k) => SErr::NotAFunction(k@),
        RuntimeError::Arity(k, a, b) => SErr::Arity(k@, a as nat, b as nat),
        RuntimeError::ForBounds(a, b) => SErr::ForBounds(value_view(a), value_view(b)),
        RuntimeError::EmptyCallStack => SErr::EmptyCallStack,
        RuntimeError::StepLimit => SErr::StepLimit,
    }
}

pub open spec fn result_view(r: Result<Value, RuntimeError>) -> Result<SValue, SErr> {
    match r {
        Ok(v) => Ok(value_view(v)),
        Err(e) => Err(error_view(e)),
    }
}

enum ControlFlow {
    Continue(Value),
    Return(Value),
}

spec fn flow_result_view(r: Result<ControlFlow, RuntimeError>) -> Result<SFlow, SErr> {
    match r {
        Ok(ControlFlow::Continue(v)) => Ok(SFlow::Continue(value_view(v))),
        Ok(ControlFlow::Return(v)) => Ok(SFlow::Return(value_view(v))),
        Err(e) => Err(error_view(e)),
    }
}

spec fn args_result_view(r: Result<Vec<Value>, RuntimeError>) -> Result<Seq<SValue>, SErr> {
    match r {
        Ok(v) => Ok(values_view(v@)),
        Err(e) => Err(error_view(e)),
    }
}

pub open spec fn values_view(s: Seq<Value>) -> Seq<SValue> {
    Seq::new(s.len(), |i: int| value_view(s[i]))
}

pub open spec fn frame_view(s: Seq<(String, Value)>) -> SFrame {
    Seq::new(s.len(), |i: int| (s[i].0@, value_view(s[i].1)))
}

#[derive(Debug, PartialEq)]
struct Frame {
    locals: Vec<(String, Value)>,
}

impl Frame {
    fn new() -> (r: Frame)
        ensures
            frame_view(r.locals@) == Seq::<(Seq<char>, SValue)>::empty(),
    {
        let r = Frame { locals: Vec::new() };
        assert(frame_view(r.locals@) =~= Seq::<(Seq<char>, SValue)>::empty());
        r
    }
}

spec fn stack_view(s: Seq<Frame>) -> Seq<SFrame> {
    Seq::new(s.len(), |i: int| frame_view(s[i].locals@))
}

/// Index of the first entry bound to `k`.
fn assoc_find(entries: &Vec<(String, Value)>, k: &String) -> (r: Option<usize>)
    ensures
        match r {
            Some(i) => i < entries@.len() && assoc_index(frame_view(entries@), k@, 0) == i as int,
            None => assoc_index(frame_view(entries@), k@, 0) == -1,
        },
{
    let ghost l = frame_view(entries@);
    let n = entries.len();
    let mut i: usize = 0;
    while i < n
        invariant
            n == entries@.len(),
            l == frame_view(entries@),
            i <= n,
            assoc_index(l, k@, 0) == assoc_index(l, k@, i as nat),
        decreases n - i,
    {
        if entries[i].0 == *k {
            return Some(i);
        }
        i = i + 1;
    }
    None
}

/// Binds `k` to `v`, replacing an existing binding.
fn assoc_set(entries: &mut Vec<(String, Value)>, k: String, v: Value)
    ensures
        frame_view(final(entries)@) == assoc_insert(frame_view(old(entries)@), k@, value_view(v)),
{
    let ghost kv = k@;
    let ghost vv = value_view(v);
    match assoc_find(entries, &k) {
        Some(i) => {
            entries.set(i, (k, v));
            assert(frame_view(entries@) =~= frame_view(old(entries)@).update(i as int, (kv, vv)));
        },
        None => {
            entries.push((k, v));
            assert(frame_view(entries@) =~= frame_view(old(entries)@).push((kv, vv)));
        },
    }
}

/// The value bound to `k`, copied.
fn assoc_lookup(entries: &Vec<(String, Value)>, k: &String) -> (r: Option<Value>)
    ensures
        match r {
            Some(v) => assoc_get(frame_view(entries@), k@) == Some(value_view(v)),
            None => assoc_get(frame_view(entries@), k@) is None,
        },
{
    match assoc_find(entries, k) {
        Some(i) => Some(entries[i].1.deep_copy()),
        None => None,
    }
}

/// The interpreter: global bindings, a stack of frames, and the log of what the program showed.
#[derive(Debug, PartialEq)]
pub struct Interpreter {
    globals: Vec<(String, Value)>,
    call_stack: Vec<Frame>,
    trace: bool,
    events: Vec<Event>,
    fuel: u64,
}

impl View for Interpreter {
    type V = SState;

    closed spec fn view(&self) -> SState {
        SState {
            globals: frame_view(self.globals@),
            stack: stack_view(self.call_stack@),
            trace: self.trace,
            events: events_view(self.events@),
            fuel: self.fuel,
        }
    }
}

/// A copy of a list of bindings.
fn copy_entries(v: &Vec<(String, Value)>) -> (r: Vec<(String, Value)>)
    ensures
        frame_view(r@) == frame_view(v@),
{
    let mut r: Vec<(String, Value)> = Vec::new();
    let n = v.len();
    for i in 0..n
        invariant
            n == v@.len(),
            r@.len() == i,
            forall|j: int| 0 <= j < i ==> #[trigger] frame_view(r@)[j] == frame_view(v@)[j],
    {
        let ghost before = r@;
        let name = v[i].0.clone();
        let value = v[i].1.deep_copy();
        r.push((name, value));
        assert forall|j: int| 0 <= j < i + 1 implies #[trigger] frame_view(r@)[j] == frame_view(v@)[j] by {
            if j < i {
                assert(r@[j] == before[j]);
                assert(frame_view(before)[j] == frame_view(v@)[j]);
            }
        }
    }
    assert(frame_view(r@) =~= frame_view(v@));
    r
}

/// A copy of a stack of frames.
fn copy_frames(v: &Vec<Frame>) -> (r: Vec<Frame>)
    ensures
        stack_view(r@) == stack_view(v@),
{
    let mut r: Vec<Frame> = Vec::new();
    let n = v.len();
    for i in 0..n
        invariant
            n == v@.len(),
            r@.len() == i,
            forall|j: int| 0 <= j < i ==> #[trigger] frame_view(r@[j].locals@) == frame_view(v@[j].locals@),
    {
        let locals = copy_entries(&v[i].locals);
        r.push(Frame { locals });
    }
    assert(stack_view(r@) =~= stack_view(v@));
    r
}

/// A copy of a log of events.
fn copy_events(v: &Vec<Event>) -> (r: Vec<Event>)
    ensures
        events_view(r@) == events_view(v@),
{
    let mut r: Vec<Event> = Vec::new();
    let n = v.len();
    for i in 0..n
        invariant
            n == v@.len(),
            r@.len() == i,
            forall|j: int| 0 <= j < i ==> #[trigger] event_view(r@[j]) == event_view(v@[j]),
    {
        let e = match &v[i] {
            Event::Print(value) => Event::Print(value.deep_copy()),
            Event::Trace(text) => Event::Trace(text.clone()),
        };
        r.push(e);
    }
    assert(events_view(r@) =~= events_view(v@));
    r
}

impl Clone for Interpreter {
    fn clone(&self) -> (r: Interpreter)
        ensures
            r@ == self@,
    {
        Interpreter {
            globals: copy_entries(&self.globals),
            call_stack: copy_frames(&self.call_stack),
            trace: self.trace,
            events: copy_events(&self.events),
            fuel: self.fuel,
        }
    }
}

/// The state of a fresh interpreter: no globals, one empty frame, tracing off, nothing shown,
/// and the largest step budget.
pub open spec fn initial_state() -> SState {
    SState {
        globals: Seq::empty(),
        stack: seq![Seq::empty()],
        trace: false,
        events: Seq::empty(),
        fuel: u64::MAX,
    }
}

impl Default for Interpreter {
    fn default() -> (r: Interpreter)
        ensures
            r@ == initial_state(),
    {
        Interpreter::new()
    }
}

impl Interpreter {
    /// A fresh interpreter.
    pub fn new() -> (r: Interpreter)
        ensures
            r@ == initial_state(),
    {
        let mut call_stack: Vec<Frame> = Vec::new();
        call_stack.push(Frame::new());
        let r = Interpreter { globals: Vec::new(), call_stack, trace: false, events: Vec::new(), fuel: u64::MAX };
        assert(r@.globals =~= Seq::<(Seq<char>, SValue)>::empty());
        assert(r@.stack =~= seq![Seq::<(Seq<char>, SValue)>::empty()]);
        assert(r@.events =~= Seq::<SEvent>::empty());
        r
    }

    /// Turns tracing of evaluated expressions on or off.
    pub fn set_trace(&mut self, trace: bool)
        ensures
            final(self)@ == (SState { trace, ..old(self)@ }),
    {
        self.trace = trace;
    }

    /// Sets the step budget of each top-level statement.
    pub fn set_step_limit(&mut self, limit: u64)
        ensures
            final(self)@ == (SState { fuel: limit, ..old(self)@ }),
    {
        self.fuel = limit;
    }

    /// Hands out what the program showed so far, and forgets it.
    pub fn take_events(&mut self) -> (r: Vec<Event>)
        ensures
            events_view(r@) == old(self)@.events,
            final(self)@ == (SState { events: Seq::empty(), ..old(self)@ }),
    {
        let mut r: Vec<Event> = Vec::new();
        std::mem::swap(&mut r, &mut self.events);
        assert(self@.events =~= Seq::<SEvent>::empty());
        r
    }

    fn emit(&mut self, ev: Event)
        ensures
            final(self)@ == emit(old(self)@, event_view(ev)),
    {
        let ghost e = event_view(ev);
        self.events.push(ev);
        assert(self@.events =~= old(self)@.events.push(e));
        assert(self@ == emit(old(self)@, e));
    }

    fn push_frame(&mut self, fr: Frame)
        ensures
            final(self)@ == push_frame(old(self)@, frame_view(fr.locals@)),
    {
        let ghost f = frame_view(fr.locals@);
        self.call_stack.push(fr);
        assert(self@.stack =~= old(self)@.stack.push(f));
    }

    fn pop_frame(&mut self)
        ensures
            final(self)@ == pop_frame(old(self)@),
    {
        if self.call_stack.len() > 0 {
            let _ = self.call_stack.pop();
            assert(self@.stack =~= old(self)@.stack.drop_last());
        }
    }

    fn lookup_var(&self, ident: &String) -> (r: Result<Value, RuntimeError>)
        ensures
            result_view(r) == lookup(self@, ident@),
    {
        let n = self.call_stack.len();
        if n == 0 {
            return Err(RuntimeError::EmptyCallStack);
        }
        match assoc_lookup(&self.call_stack[n - 1].locals, ident) {
            Some(v) => Ok(v),
            None => match assoc_lookup(&self.globals, ident) {
                Some(v) => Ok(v),
                None => Err(RuntimeError::Undefined(ident.clone())),
            },
        }
    }
}


fn flow_value_exec(f: ControlFlow) -> (r: Value)
    ensures
        flow_result_view(Ok(f)) matches Ok(fl) && value_view(r) == flow_value(fl),
{
    match f {
        ControlFlow::Continue(v) => v,
        ControlFlow::Return(v) => v,
    }
}

impl Interpreter {
    fn eval_expr(&mut self, e: &Expr, fuel: u64) -> (r: Result<Value, RuntimeError>)
        ensures
            (final(self)@, result_view(r)) == eval(old(self)@, expr_view(*e), fuel as nat),
        decreases fuel, 1nat, 0nat,
    {
        if fuel == 0 {
            return Err(RuntimeError::StepLimit);
        }
        let f = fuel - 1;
        if self.trace {
            let mut text = String::new();
            write_expr(&mut text, e);
            self.emit(Event::Trace(text));
        }
        assert(self@ == traced(old(self)@, expr_view(*e)));
        match e {
            Expr::Print(args) => self.eval_print(args, f),
            Expr::Int(n) => Ok(Value::Int(*n)),
            Expr::Bool(b) => Ok(Value::Bool(*b)),
            Expr::Var(x) => self.lookup_var(x),
            Expr::Unary { op, expr } => self.eval_unary(*op, expr, f),
            Expr::Binary { op, left, right } => self.eval_binary(*op, left, right, f),
            Expr::If { cond, then_branch, else_branch } => self.eval_if(cond, then_branch, else_branch, f),
            Expr::While { cond, body } => self.eval_while(cond, body, f),
            Expr::Block(b) => self.eval_block(b, f),
            Expr::Call { name, args } => self.eval_call(name, args, f),
            Expr::For { var, start, end, body } => self.eval_for(var, start, end, body, f),
        }
    }

    fn eval_print(&mut self, args: &Vec<Expr>, f: u64) -> (r: Result<Value, RuntimeError>)
        ensures
            (final(self)@, result_view(r)) == eval_print(old(self)@, exprs_view(args@), 0, f as nat),
        decreases f, 2nat, 0nat,
    {
        let ghost a = exprs_view(args@);
        proof {
            lemma_exprs_view(args@);
        }
        let n = args.len();
        let mut i: usize = 0;
        while i < n
            invariant
                n == args@.len(),
                a == exprs_view(args@),
                a.len() == n,
                forall|j: int| 0 <= j < n ==> #[trigger] a[j] == expr_view(args@[j]),
                i <= n,
                eval_print(self@, a, i as nat, f as nat) == eval_print(old(self)@, a, 0, f as nat),
            decreases n - i,
        {
            match self.eval_expr(&args[i], f) {
                Err(er) => return Err(er),
                Ok(v) => self.emit(Event::Print(v)),
            }
            i = i + 1;
        }
        Ok(Value::Unit)
    }

    fn eval_args(&mut self, args: &Vec<Expr>, f: u64) -> (r: Result<Vec<Value>, RuntimeError>)
        ensures
            (final(self)@, args_result_view(r)) == eval_args(old(self)@, exprs_view(args@), 0, f as nat, Seq::empty()),
        decreases f, 2nat, 0nat,
    {
        let ghost a = exprs_view(args@);
        proof {
            lemma_exprs_view(args@);
        }
        let n = args.len();
        let mut vals: Vec<Value> = Vec::new();
        let mut i: usize = 0;
        assert(values_view(vals@) =~= Seq::<SValue>::empty());
        while i < n
            invariant
                n == args@.len(),
                a == exprs_view(args@),
                a.len() == n,
                forall|j: int| 0 <= j < n ==> #[trigger] a[j] == expr_view(args@[j]),
                i <= n,
                eval_args(self@, a, i as nat, f as nat, values_view(vals@))
                    == eval_args(old(self)@, a, 0, f as nat, Seq::empty()),
            decreases n - i,
        {
            match self.eval_expr(&args[i], f) {
                Err(er) => return Err(er),
                Ok(v) => {
                    let ghost vv = value_view(v);
                    let ghost before = values_view(vals@);
                    vals.push(v);
                    assert(values_view(vals@) =~= before.push(vv));
                },
            }
            i = i + 1;
        }
        Ok(vals)
    }

    fn eval_unary(&mut self, op: UnaryOp, a: &Expr, f: u64) -> (r: Result<Value, RuntimeError>)
        ensures
            (final(self)@, result_view(r)) == eval_unary(old(self)@, op, expr_view(*a), f as nat),
        decreases f, 4nat, 0nat,
    {
        match self.eval_expr(a, f) {
            Err(er) => Err(er),
            Ok(v) => apply_unary_exec(op, v),
        }
    }

    fn eval_binary(&mut self, op: BinaryOp, l: &Expr, r: &Expr, f: u64) -> (res: Result<Value, RuntimeError>)
        ensures
            (final(self)@, result_view(res)) == eval_binary(old(self)@, op, expr_view(*l), expr_view(*r), f as nat),
        decreases f, 4nat, 0nat,
    {
        match self.eval_expr(l, f) {
            Err(er) => Err(er),
            Ok(a) => match self.eval_expr(r, f) {
                Err(er) => Err(er),
                Ok(b) => eval_binary_op(op, a, b),
            },
        }
    }

    fn eval_if(&mut self, c: &Expr, t: &Vec<Stmt>, el: &Vec<Stmt>, f: u64) -> (r: Result<Value, RuntimeError>)
        ensures
            (final(self)@, result_view(r)) == eval_if(old(self)@, expr_view(*c), stmts_view(t@), stmts_view(el@), f as nat),
        decreases f, 4nat, 0nat,
    {
        match self.eval_expr(c, f) {
            Err(er) => Err(er),
            Ok(Value::Bool(b)) => {
                let branch = if b { t } else { el };
                match self.exec_seq(branch, f) {
                    Err(er) => Err(er),
                    Ok(fl) => Ok(flow_value_exec(fl)),
                }
            },
            Ok(v) => Err(RuntimeError::CondNotBool(v)),
        }
    }

    fn eval_block(&mut self, b: &Vec<Stmt>, f: u64) -> (r: Result<Value, RuntimeError>)
        ensures
            (final(self)@, result_view(r)) == eval_block(old(self)@, stmts_view(b@), f as nat),
        decreases f, 4nat, 0nat,
    {
        match self.exec_seq(b, f) {
            Err(er) => Err(er),
            Ok(fl) => Ok(flow_value_exec(fl)),
        }
    }

    fn eval_while(&mut self, c: &Expr, body: &Vec<Stmt>, f: u64) -> (r: Result<Value, RuntimeError>)
        ensures
            (final(self)@, result_view(r)) == eval_while(old(self)@, expr_view(*c), stmts_view(body@), f as nat),
        decreases f, 4nat, 0nat,
    {
        let ghost cv = expr_view(*c);
        let ghost bv = stmts_view(body@);
        let mut g = f;
        loop
            invariant
                g <= f,
                cv == expr_view(*c),
                bv == stmts_view(body@),
                eval_while(self@, cv, bv, g as nat) == eval_while(old(self)@, cv, bv, f as nat),
            decreases g,
        {
            if g == 0 {
                return Err(RuntimeError::StepLimit);
            }
            match self.eval_expr(c, g) {
                Err(er) => return Err(er),
                Ok(Value::Bool(b)) => {
                    if !b {
                        return Ok(Value::Unit);
                    }
                    match self.exec_seq(body, g) {
                        Err(er) => return Err(er),
                        Ok(ControlFlow::Return(v)) => return Ok(v),
                        Ok(ControlFlow::Continue(_)) => {},
                    }
                },
                Ok(v) => return Err(RuntimeError::WhileCondNotBool(v)),
            }
            g = g - 1;
        }
    }

    fn eval_call(&mut self, name: &String, args: &Vec<Expr>, f: u64) -> (r: Result<Value, RuntimeError>)
        ensures
            (final(self)@, result_view(r)) == eval_call(old(self)@, name@, exprs_view(args@), f as nat),
        decreases f, 4nat, 0nat,
    {
        match self.lookup_var(name) {
            Err(er) => Err(er),
            Ok(Value::Function { params, body }) => {
                match self.eval_args(args, f) {
                    Err(er) => Err(er),
                    Ok(vals) => {
                        if params.len() != vals.len() {
                            return Err(RuntimeError::Arity(name.clone(), params.len(), vals.len()));
                        }
                        let frame = bind_frame(&params, vals);
                        self.push_frame(frame);
                        match self.exec_seq(&body, f) {
                            Err(er) => {
                                self.pop_frame();
                                Err(er)
                            },
                            Ok(fl) => {
                                self.pop_frame();
                                Ok(flow_value_exec(fl))
                            },
                        }
                    },
                }
            },
            Ok(_) => Err(RuntimeError::NotAFunction(name.clone())),
        }
    }

    fn eval_for(&mut self, var: &String, s: &Expr, t: &Expr, body: &Vec<Stmt>, f: u64) -> (r: Result<Value, RuntimeError>)
        ensures
            (final(self)@, result_view(r)) == eval_for(old(self)@, var@, expr_view(*s), expr_view(*t), stmts_view(body@), f as nat),
        decreases f, 5nat, 0nat,
    {
        let start = match self.eval_expr(s, f) {
            Err(er) => return Err(er),
            Ok(v) => v,
        };
        let end = match self.eval_expr(t, f) {
            Err(er) => return Err(er),
            Ok(v) => v,
        };
        let (ns, ne) = match (&start, &end) {
            (Value::Int(a), Value::Int(b)) => (*a, *b),
            _ => return Err(RuntimeError::ForBounds(start, end)),
        };
        let ghost bv = stmts_view(body@);
        let ghost s2 = self@;
        assert(eval_for(old(self)@, var@, expr_view(*s), expr_view(*t), bv, f as nat)
            == for_rounds(s2, var@, ns as int, ne as int, bv, f as nat));
        let mut i: i64 = ns;
        while i < ne
            invariant
                ns <= i <= ne || ne <= ns == i,
                bv == stmts_view(body@),
                for_rounds(self@, var@, i as int, ne as int, bv, f as nat)
                    == for_rounds(s2, var@, ns as int, ne as int, bv, f as nat),
                for_rounds(s2, var@, ns as int, ne as int, bv, f as nat)
                    == eval_for(old(self)@, var@, expr_view(*s), expr_view(*t), bv, f as nat),
            decreases ne - i,
        {
            let mut frame = Frame::new();
            assoc_set(&mut frame.locals, var.clone(), Value::Int(i));
            assert(frame_view(frame.locals@) =~= seq![(var@, SValue::Int(i))]);
            self.push_frame(frame);
            let round = self.exec_seq(body, f);
            self.pop_frame();
            match round {
                Err(er) => return Err(er),
                Ok(ControlFlow::Return(v)) => return Ok(v),
                Ok(ControlFlow::Continue(_)) => {},
            }
            i = i + 1;
        }
        Ok(Value::Unit)
    }

    fn exec_seq(&mut self, stmts: &Vec<Stmt>, f: u64) -> (r: Result<ControlFlow, RuntimeError>)
        ensures
            (final(self)@, flow_result_view(r)) == exec_seq(old(self)@, stmts_view(stmts@), 0, f as nat, SValue::Unit),
        decreases f, 3nat, 0nat,
    {
        let ghost sv = stmts_view(stmts@);
        proof {
            lemma_stmts_view(stmts@);
        }
        let n = stmts.len();
        let mut last = Value::Unit;
        let mut i: usize = 0;
        while i < n
            invariant
                n == stmts@.len(),
                sv == stmts_view(stmts@),
                sv.len() == n,
                forall|j: int| 0 <= j < n ==> #[trigger] sv[j] == stmt_view(stmts@[j]),
                i <= n,
                exec_seq(self@, sv, i as nat, f as nat, value_view(last))
                    == exec_seq(old(self)@, sv, 0, f as nat, SValue::Unit),
            decreases n - i,
        {
            match self.exec_stmt(&stmts[i], f) {
                Err(er) => return Err(er),
                Ok(ControlFlow::Return(v)) => return Ok(ControlFlow::Return(v)),
                Ok(ControlFlow::Continue(v)) => {
                    last = v;
                },
            }
            i = i + 1;
        }
        Ok(ControlFlow::Continue(last))
    }

    fn exec_stmt(&mut self, stmt: &Stmt, f: u64) -> (r: Result<ControlFlow, RuntimeError>)
        ensures
            (final(self)@, flow_result_view(r)) == exec_stmt(old(self)@, stmt_view(*stmt), f as nat),
        decreases f, 2nat, 0nat,
    {
        match stmt {
            Stmt::Function { name, params, body } => {
                let fun = Value::Function { params: copy_names(params), body: copy_stmts(body) };
                assoc_set(&mut self.globals, name.clone(), fun);
                Ok(ControlFlow::Continue(Value::Unit))
            },
            Stmt::Return(e) => match self.eval_expr(e, f) {
                Err(er) => Err(er),
                Ok(v) => Ok(ControlFlow::Return(v)),
            },
            Stmt::Assignment { name, value } => match self.eval_expr(value, f) {
                Err(er) => Err(er),
                Ok(v) => {
                    let n = self.call_stack.len();
                    if n == 0 {
                        return Err(RuntimeError::EmptyCallStack);
                    }
                    let ghost before = self@;
                    let mut top = self.call_stack.pop().unwrap();
                    assoc_set(&mut top.locals, name.clone(), v);
                    self.call_stack.push(top);
                    assert(self@.stack =~= before.stack.update(before.stack.len() - 1,
                        assoc_insert(before.stack.last(), name@, value_view(v))));
                    Ok(ControlFlow::Continue(Value::Unit))
                },
            },
            Stmt::Expr(e) => match self.eval_expr(e, f) {
                Err(er) => Err(er),
                Ok(v) => Ok(ControlFlow::Continue(v)),
            },
        }
    }

    /// Executes the statements of `program` in order, each with the full step budget, and stops
    /// at the first error, whose message it returns.
    pub fn run(&mut self, program: &Vec<Stmt>) -> (r: Result<(), String>)
        ensures
            final(self)@ == run_program(old(self)@, stmts_view(program@), 0, old(self)@.fuel as nat).0,
            match run_program(old(self)@, stmts_view(program@), 0, old(self)@.fuel as nat).1 {
                Ok(()) => r is Ok,
                Err(e) => r matches Err(m) && m@ == error_text(e),
            },
            frames_kept(old(self)@, final(self)@),
    {
        let ghost sv = stmts_view(program@);
        proof {
            lemma_stmts_view(program@);
            lemma_run_keeps_frames(old(self)@, stmts_view(program@), 0, old(self)@.fuel as nat);
        }
        let n = program.len();
        let fuel = self.fuel;
        let mut i: usize = 0;
        while i < n
            invariant
                n == program@.len(),
                sv == stmts_view(program@),
                sv.len() == n,
                forall|j: int| 0 <= j < n ==> #[trigger] sv[j] == stmt_view(program@[j]),
                i <= n,
                fuel == old(self)@.fuel,
                run_program(self@, sv, i as nat, fuel as nat) == run_program(old(self)@, sv, 0, fuel as nat),
                frames_kept(old(self)@, run_program(old(self)@, sv, 0, fuel as nat).0),
            decreases n - i,
        {
            match self.exec_stmt(&program[i], fuel) {
                Err(er) => return Err(er.message()),
                Ok(_) => {},
            }
            i = i + 1;
        }
        Ok(())
    }
}

/// The frame of a call: each parameter bound to its argument, in order.
fn bind_frame(params: &Vec<String>, vals: Vec<Value>) -> (r: Frame)
    requires
        params@.len() == vals@.len(),
    ensures
        frame_view(r.locals@) == bind_params(names_view(params@), values_view(vals@), params@.len()),
{
    let ghost ps = names_view(params@);
    let ghost vs = values_view(vals@);
    let mut frame = Frame::new();
    let mut rest = vals;
    let n = params.len();
    let mut i: usize = 0;
    let mut taken: Vec<Value> = Vec::new();
    // Arguments are moved out of `rest` from the back, so bind in a second pass.
    while rest.len() > 0
        invariant
            taken@.len() + rest@.len() == n,
            n == params@.len(),
            forall|j: int| 0 <= j < rest@.len() ==> #[trigger] value_view(rest@[j]) == vs[j],
            forall|j: int| 0 <= j < taken@.len() ==> #[trigger] value_view(taken@[j]) == vs[n - 1 - j],
            vs.len() == n,
        decreases rest@.len(),
    {
        let v = rest.pop().unwrap();
        taken.push(v);
    }
    while i < n
        invariant
            n == params@.len(),
            ps == names_view(params@),
            vs.len() == n,
            taken@.len() == n - i,
            i <= n,
            forall|j: int| 0 <= j < taken@.len() ==> #[trigger] value_view(taken@[j]) == vs[n - 1 - j],
            frame_view(frame.locals@) == bind_params(ps, vs, i as nat),
        decreases n - i,
    {
        let v = taken.pop().unwrap();
        assoc_set(&mut frame.locals, params[i].clone(), v);
        i = i + 1;
    }
    frame
}

fn apply_unary_exec(op: UnaryOp, v: Value) -> (r: Result<Value, RuntimeError>)
    ensures
        result_view(r) == apply_unary(op, value_view(v)),
{
    match (op, &v) {
        (UnaryOp::Neg, Value::Int(n)) => match 0i64.checked_sub(*n) {
            Some(m) => Ok(Value::Int(m)),
            None => Err(RuntimeError::Overflow(Overflow::Neg)),
        },
        (UnaryOp::Not, Value::Bool(b)) => Ok(Value::Bool(!*b)),
        _ => Err(RuntimeError::UnaryMismatch(op, v)),
    }
}

fn checked_exec(r: Option<i64>, kind: Overflow) -> (res: Result<Value, RuntimeError>)
    ensures
        result_view(res) == checked(r, kind),
{
    match r {
        Some(n) => Ok(Value::Int(n)),
        None => Err(RuntimeError::Overflow(kind)),
    }
}

fn eval_binary_op(op: BinaryOp, left: Value, right: Value) -> (r: Result<Value, RuntimeError>)
    ensures
        result_view(r) == apply_binary(op, value_view(left), value_view(right)),
{
    match (&left, &right) {
        (Value::Int(a), Value::Int(b)) => {
            let (a, b) = (*a, *b);
            match op {
                BinaryOp::Add => checked_exec(a.checked_add(b), Overflow::Add),
                BinaryOp::Sub => checked_exec(a.checked_sub(b), Overflow::Sub),
                BinaryOp::Mul => checked_exec(a.checked_mul(b), Overflow::Mul),
                BinaryOp::Div => if b == 0 {
                    Err(RuntimeError::DivisionByZero)
                } else {
                    checked_exec(a.checked_div(b), Overflow::Div)
                },
                BinaryOp::Mod => if b == 0 {
                    Err(RuntimeError::ModuloByZero)
                } else {
                    checked_exec(a.checked_rem(b), Overflow::Rem)
                },
                BinaryOp::Lt => Ok(Value::Bool(a < b)),
                BinaryOp::Gt => Ok(Value::Bool(a > b)),
                BinaryOp::Le => Ok(Value::Bool(a <= b)),
                BinaryOp::Ge => Ok(Value::Bool(a >= b)),
                BinaryOp::Eq => Ok(Value::Bool(a == b)),
                BinaryOp::Ne => Ok(Value::Bool(a != b)),
            }
        },
        (Value::Bool(a), Value::Bool(b)) => {
            let (a, b) = (*a, *b);
            match op {
                BinaryOp::Eq => Ok(Value::Bool(a == b)),
                BinaryOp::Ne => Ok(Value::Bool(a != b)),
                _ => Err(RuntimeError::BinaryMismatch(op, left, right)),
            }
        },
        _ => Err(RuntimeError::BinaryMismatch(op, left, right)),
    }
}


/// Appends the `Debug` notation of a value.
fn write_value_debug(out: &mut String, v: &Value)
    ensures
        final(out)@ == old(out)@ + value_debug(value_view(*v)),
{
    let ghost start = out@;
    match v {
        Value::Int(n) => {
            out.append("Int(");
            write_int(out, *n);
            out.append(")");
            assert(out@ =~= start + value_debug(value_view(*v)));
        },
        Value::Bool(b) => {
            out.append("Bool(");
            if *b {
                out.append("true");
            } else {
                out.append("false");
            }
            out.append(")");
            assert(out@ =~= start + value_debug(value_view(*v)));
        },
        Value::Function { params, body } => {
            out.append("Function { params: ");
            write_names(out, params);
            assert(out@ =~= start + ("Function { params: "@ + name_list(names_view(params@))));
            out.append(", body: ");
            write_stmts(out, body);
            assert(out@ =~= start + ("Function { params: "@ + name_list(names_view(params@)) + ", body: "@
                + stmt_list(stmts_view(body@))));
            out.append(" }");
            assert(out@ =~= start + value_debug(value_view(*v)));
        },
        Value::Unit => {
            out.append("Unit");
        },
    }
}

/// Appends how `print` shows a value; a function shows the address `addr`.
fn write_value_display(out: &mut String, v: &Value, addr: u64)
    ensures
        final(out)@ == old(out)@ + value_display(value_view(*v), addr as nat),
{
    let ghost start = out@;
    match v {
        Value::Int(n) => {
            write_int(out, *n);
            out.append(" ");
        },
        Value::Bool(b) => {
            if *b {
                out.append("true");
            } else {
                out.append("false");
            }
        },
        Value::Function { params, .. } => {
            out.append("<function(");
            let ghost names = names_view(params@);
            let ghost mid = out@;
            let n = params.len();
            for i in 0..n
                invariant
                    n == params@.len(),
                    names == names_view(params@),
                    out@ == mid + plain_names(names.take(i as int)),
            {
                if i > 0 {
                    out.append(", ");
                }
                out.append(params[i].as_str());
                assert(names.take(i + 1).drop_last() =~= names.take(i as int));
                assert(out@ =~= mid + plain_names(names.take(i + 1)));
            }
            assert(names.take(n as int) =~= names);
            out.append(")> at 0x");
            write_hex(out, addr, false);
            assert(out@ =~= start + value_display(value_view(*v), addr as nat));
        },
        Value::Unit => {
            out.append("()");
        },
    }
}

impl Value {
    /// How `print` shows this value; a function shows `address`, the value's location.
    pub fn render(&self, address: usize) -> (r: String)
        ensures
            r@ == value_display(value_view(*self), address as nat),
    {
        let mut out = String::new();
        write_value_display(&mut out, self, address as u64);
        out
    }
}

impl RuntimeError {
    /// The message of this error.
    pub fn message(&self) -> (r: String)
        ensures
            r@ == error_text(error_view(*self)),
    {
        let mut out = String::new();
        match self {
            RuntimeError::Undefined(k) => {
                out.append("Undefined variable not found in this scope: ");
                out.append(k.as_str());
            },
            RuntimeError::UnaryMismatch(op, v) => {
                out.append("Cannot apply ");
                write_unop(&mut out, *op);
                out.append(" to ");
                write_value_debug(&mut out, v);
                assert(out@ =~= error_text(error_view(*self)));
            },
            RuntimeError::BinaryMismatch(op, a, b) => {
                out.append("Cannot apply ");
                write_binop(&mut out, *op);
                out.append(" to ");
                write_value_debug(&mut out, a);
                out.append(" and ");
                write_value_debug(&mut out, b);
                assert(out@ =~= error_text(error_view(*self)));
            },
            RuntimeError::DivisionByZero => out.append("Division by zero"),
            RuntimeError::ModuloByZero => out.append("Modulo by zero"),
            RuntimeError::Overflow(k) => match k {
                Overflow::Add => out.append("attempt to add with overflow"),
                Overflow::Sub => out.append("attempt to subtract with overflow"),
                Overflow::Mul => out.append("attempt to multiply with overflow"),
                Overflow::Neg => out.append("attempt to negate with overflow"),
                Overflow::Div => out.append("attempt to divide with overflow"),
                Overflow::Rem => out.append("attempt to calculate the remainder with overflow"),
            },
            RuntimeError::CondNotBool(v) => {
                out.append("Condition must be boolean, got ");
                write_value_debug(&mut out, v);
            },
            RuntimeError::WhileCondNotBool(v) => {
                out.append("While condition must be boolean, got ");
                write_value_debug(&mut out, v);
            },
            RuntimeError::NotAFunction(k) => {
                out.append(k.as_str());
                out.append(" is not a function");
            },
            RuntimeError::Arity(k, a, b) => {
                out.append("Function ");
                out.append(k.as_str());
                out.append(" expected ");
                write_nat(&mut out, *a as u64);
                out.append(" arguments, got ");
                write_nat(&mut out, *b as u64);
                assert(out@ =~= error_text(error_view(*self)));
            },
            RuntimeError::ForBounds(a, b) => {
                out.append("start and end should both be ints, found ");
                write_value_display(&mut out, a, 0);
                out.append(" and ");
                write_value_display(&mut out, b, 0);
                assert(out@ =~= error_text(error_view(*self)));
            },
            RuntimeError::EmptyCallStack => out.append("Call stack should never be empty"),
            RuntimeError::StepLimit => out.append("step limit reached"),
        }
        assert(out@ =~= error_text(error_view(*self)));
        out
    }
}

} // verus!
