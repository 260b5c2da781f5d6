//! Syntax trees of the language, and their mathematical values.
use vstd::prelude::*;

verus! {

/// Prefix operators of the language.
#[derive(Debug, Clone, Copy, PartialEq, Eq)]
pub enum UnaryOp {
    Neg,
    Not,
}

/// Infix operators of the language.
#[derive(Debug, Clone, Copy, PartialEq, Eq)]
pub enum BinaryOp {
    Add,
    Sub,
    Mul,
    Div,
    Mod,
    Lt,
    Gt,
    Le,
    Ge,
    Eq,
    Ne,
}

#[derive(Debug, PartialEq)]
pub enum Expr {
    Print(Vec<Expr>),
    Int(i64),
    Bool(bool),
    Var(String),
    Unary { op: UnaryOp, expr: Box<Expr> },
    Binary { op: BinaryOp, left: Box<Expr>, right: Box<Expr> },
    If { cond: Box<Expr>, then_branch: Vec<Stmt>, else_branch: Vec<Stmt> },
    While { cond: Box<Expr>, body: Vec<Stmt> },
    Block(Vec<Stmt>),
    Call { name: String, args: Vec<Expr> },
    For { var: String, start: Box<Expr>, end: Box<Expr>, body: Vec<Stmt> },
}

#[derive(Debug, PartialEq)]
pub enum Stmt {
    Function { name: String, params: Vec<String>, body: Vec<Stmt> },
    Return(Expr),
    Assignment { name: String, value: Expr },
    Expr(Expr),
}

/// The mathematical value of an expression: names as character sequences, lists as sequences.
pub enum SExpr {
    Print(Seq<SExpr>),
    Int(i64),
    Bool(bool),
    Var(Seq<char>),
    Unary(UnaryOp, Box<SExpr>),
    Binary(BinaryOp, Box<SExpr>, Box<SExpr>),
    If(Box<SExpr>, Seq<SStmt>, Seq<SStmt>),
    While(Box<SExpr>, Seq<SStmt>),
    Block(Seq<SStmt>),
    Call(Seq<char>, Seq<SExpr>),
    For(Seq<char>, Box<SExpr>, Box<SExpr>, Seq<SStmt>),
}

/// The mathematical value of a statement.
pub enum SStmt {
    Function(Seq<char>, Seq<Seq<char>>, Seq<SStmt>),
    Return(SExpr),
    Assignment(Seq<char>, SExpr),
    Expr(SExpr),
}

pub open spec fn names_view(v: Seq<String>) -> Seq<Seq<char>> {
    Seq::new(v.len(), |i: int| v[i]@)
}

pub open spec fn expr_view(e: Expr) -> SExpr
    decreases e,
{
    match e {
        Expr::Print(args) => SExpr::Print(exprs_view(args@)),
        Expr::Int(n) => SExpr::Int(n),
        Expr::Bool(b) => SExpr::Bool(b),
        Expr::Var(x) => SExpr::Var(x@),
        Expr::Unary { op, expr } => SExpr::Unary(op, Box::new(expr_view(*expr))),
        Expr::Binary { op, left, right } => SExpr::Binary(op, Box::new(expr_view(*left)), Box::new(expr_view(*right))),
        Expr::If { cond, then_branch, else_branch } => SExpr::If(Box::new(expr_view(*cond)), stmts_view(then_branch@), stmts_view(else_branch@)),
        Expr::While { cond, body } => SExpr::While(Box::new(expr_view(*cond)), stmts_view(body@)),
        Expr::Block(b) => SExpr::Block(stmts_view(b@)),
        Expr::Call { name, args } => SExpr::Call(name@, exprs_view(args@)),
        Expr::For { var, start, end, body } => SExpr::For(var@, Box::new(expr_view(*start)), Box::new(expr_view(*end)), stmts_view(body@)),
    }
}

pub open spec fn exprs_view(s: Seq<Expr>) -> Seq<SExpr>
    decreases s,
{
    if s.len() == 0 {
        Seq::empty()
    } else {
        exprs_view(s.drop_last()).push(expr_view(s.last()))
    }
}

pub open spec fn stmt_view(s: Stmt) -> SStmt
    decreases s,
{
    match s {
        Stmt::Function { name, params, body } => SStmt::Function(name@, names_view(params@), stmts_view(body@)),
        Stmt::Return(e) => SStmt::Return(expr_view(e)),
        Stmt::Assignment { name, value } => SStmt::Assignment(name@, expr_view(value)),
        Stmt::Expr(e) => SStmt::Expr(expr_view(e)),
    }
}

pub open spec fn stmts_view(s: Seq<Stmt>) -> Seq<SStmt>
    decreases s,
{
    if s.len() == 0 {
        Seq::empty()
    } else {
        stmts_view(s.drop_last()).push(stmt_view(s.last()))
    }
}


/// The view of a list of expressions has one entry per expression, each its view.
pub proof fn lemma_exprs_view(s: Seq<Expr>)
    ensures
        exprs_view(s).len() == s.len(),
        forall|i: int| 0 <= i < s.len() ==> #[trigger] exprs_view(s)[i] == expr_view(s[i]),
    decreases s.len(),
{
    if s.len() > 0 {
        lemma_exprs_view(s.drop_last());
    }
}

/// The view of a list of statements has one entry per statement, each its view.
pub proof fn lemma_stmts_view(s: Seq<Stmt>)
    ensures
        stmts_view(s).len() == s.len(),
        forall|i: int| 0 <= i < s.len() ==> #[trigger] stmts_view(s)[i] == stmt_view(s[i]),
    decreases s.len(),
{
    if s.len() > 0 {
        lemma_stmts_view(s.drop_last());
    }
}

/// A copy of a list of names.
pub fn copy_names(v: &Vec<String>) -> (r: Vec<String>)
    ensures
        names_view(r@) == names_view(v@),
{
    let mut r: Vec<String> = Vec::new();
    for i in 0..v.len()
        invariant
            r@.len() == i,
            i <= v@.len(),
            forall|j: int| 0 <= j < i ==> #[trigger] r@[j]@ == v@[j]@,
    {
        r.push(v[i].clone());
    }
    assert(names_view(r@) =~= names_view(v@));
    r
}

/// A copy of a list of expressions.
pub fn copy_exprs(v: &Vec<Expr>) -> (r: Vec<Expr>)
    ensures
        exprs_view(r@) == exprs_view(v@),
    decreases v,
{
    let mut r: Vec<Expr> = Vec::new();
    let n = v.len();
    for i in 0..n
        invariant
            n == v@.len(),
            r@.len() == i,
            forall|j: int| 0 <= j < i ==> #[trigger] expr_view(r@[j]) == expr_view(v@[j]),
    {
        assert(decreases_to!(v => v@[i as int]));
        r.push(v[i].deep_copy());
    }
    proof {
        lemma_exprs_view(r@);
        lemma_exprs_view(v@);
        assert(exprs_view(r@) =~= exprs_view(v@));
    }
    r
}

/// A copy of a list of statements.
pub fn copy_stmts(v: &Vec<Stmt>) -> (r: Vec<Stmt>)
    ensures
        stmts_view(r@) == stmts_view(v@),
    decreases v,
{
    let mut r: Vec<Stmt> = Vec::new();
    let n = v.len();
    for i in 0..n
        invariant
            n == v@.len(),
            r@.len() == i,
            forall|j: int| 0 <= j < i ==> #[trigger] stmt_view(r@[j]) == stmt_view(v@[j]),
    {
        assert(decreases_to!(v => v@[i as int]));
        r.push(v[i].deep_copy());
    }
    proof {
        lemma_stmts_view(r@);
        lemma_stmts_view(v@);
        assert(stmts_view(r@) =~= stmts_view(v@));
    }
    r
}

impl Expr {
    /// A copy of this expression, equal to it in every part.
    pub fn deep_copy(&self) -> (r: Expr)
        ensures
            expr_view(r) == expr_view(*self),
        decreases self,
    {
        match self {
            Expr::Print(args) => Expr::Print(copy_exprs(args)),
            Expr::Int(n) => Expr::Int(*n),
            Expr::Bool(b) => Expr::Bool(*b),
            Expr::Var(x) => Expr::Var(x.clone()),
            Expr::Unary { op, expr } => Expr::Unary { op: *op, expr: Box::new(expr.deep_copy()) },
            Expr::Binary { op, left, right } => Expr::Binary {
                op: *op,
                left: Box::new(left.deep_copy()),
                right: Box::new(right.deep_copy()),
            },
            Expr::If { cond, then_branch, else_branch } => Expr::If {
                cond: Box::new(cond.deep_copy()),
                then_branch: copy_stmts(then_branch),
                else_branch: copy_stmts(else_branch),
            },
            Expr::While { cond, body } => Expr::While {
                cond: Box::new(cond.deep_copy()),
                body: copy_stmts(body),
            },
            Expr::Block(b) => Expr::Block(copy_stmts(b)),
            Expr::Call { name, args } => Expr::Call { name: name.clone(), args: copy_exprs(args) },
            Expr::For { var, start, end, body } => Expr::For {
                var: var.clone(),
                start: Box::new(start.deep_copy()),
                end: Box::new(end.deep_copy()),
                body: copy_stmts(body),
            },
        }
    }
}

impl Stmt {
    /// A copy of this statement, equal to it in every part.
    pub fn deep_copy(&self) -> (r: Stmt)
        ensures
            stmt_view(r) == stmt_view(*self),
        decreases self,
    {
        match self {
            Stmt::Function { name, params, body } => Stmt::Function {
                name: name.clone(),
                params: copy_names(params),
                body: copy_stmts(body),
            },
            Stmt::Return(e) => Stmt::Return(e.deep_copy()),
            Stmt::Assignment { name, value } => Stmt::Assignment { name: name.clone(), value: value.deep_copy() },
            Stmt::Expr(e) => Stmt::Expr(e.deep_copy()),
        }
    }
}

impl Clone for Expr {
    fn clone(&self) -> (r: Expr)
        ensures
            expr_view(r) == expr_view(*self),
    {
        self.deep_copy()
    }
}

impl Clone for Stmt {
    fn clone(&self) -> (r: Stmt)
        ensures
            stmt_view(r) == stmt_view(*self),
    {
        self.deep_copy()
    }
}

} // verus!
