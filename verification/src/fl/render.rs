//! Text renderings of syntax trees: the `Debug` notation of each node, as the runtime's
//! error messages and trace lines show them.
use vstd::prelude::*;
use crate::fl::ast::{
    exprs_view, expr_view, lemma_exprs_view, lemma_stmts_view, names_view, stmt_view, stmts_view, BinaryOp,
    Expr, SExpr, SStmt, Stmt, UnaryOp,
};
use crate::text::{bool_text, chars_of, int_text, push_char, write_int};

verus! {

/// A character as it stands inside a quoted name.
pub open spec fn escape_char(c: char) -> Seq<char> {
    if c == '"' {
        seq!['\\', '"']
    } else if c == '\\' {
        seq!['\\', '\\']
    } else if c == '\n' {
        seq!['\\', 'n']
    } else if c == '\t' {
        seq!['\\', 't']
    } else if c == '\r' {
        seq!['\\', 'r']
    } else {
        seq![c]
    }
}

pub open spec fn escaped(s: Seq<char>) -> Seq<char>
    decreases s.len(),
{
    if s.len() == 0 {
        Seq::empty()
    } else {
        escaped(s.drop_last()) + escape_char(s.last())
    }
}

/// A name between double quotes.
pub open spec fn quoted(s: Seq<char>) -> Seq<char> {
    seq!['"'] + escaped(s) + seq!['"']
}

pub open spec fn unop_text(op: UnaryOp) -> Seq<char> {
    match op {
        UnaryOp::Neg => "Neg"@,
        UnaryOp::Not => "Not"@,
    }
}

pub open spec fn binop_text(op: BinaryOp) -> Seq<char> {
    match op {
        BinaryOp::Add => "Add"@,
        BinaryOp::Sub => "Sub"@,
        BinaryOp::Mul => "Mul"@,
        BinaryOp::Div => "Div"@,
        BinaryOp::Mod => "Mod"@,
        BinaryOp::Lt => "Lt"@,
        BinaryOp::Gt => "Gt"@,
        BinaryOp::Le => "Le"@,
        BinaryOp::Ge => "Ge"@,
        BinaryOp::Eq => "Eq"@,
        BinaryOp::Ne => "Ne"@,
    }
}

/// The quoted names, separated by `, `.
pub open spec fn name_items(s: Seq<Seq<char>>) -> Seq<char>
    decreases s.len(),
{
    if s.len() == 0 {
        Seq::empty()
    } else if s.len() == 1 {
        quoted(s[0])
    } else {
        name_items(s.drop_last()) + ", "@ + quoted(s.last())
    }
}

pub open spec fn name_list(s: Seq<Seq<char>>) -> Seq<char> {
    "["@ + name_items(s) + "]"@
}

/// `Debug` notation of an expression.
pub open spec fn expr_text(e: SExpr) -> Seq<char>
    decreases e,
{
    match e {
        SExpr::Print(args) => "Print("@ + "["@ + expr_items(args) + "]"@ + ")"@,
        SExpr::Int(n) => "Int("@ + int_text(n as int) + ")"@,
        SExpr::Bool(b) => "Bool("@ + bool_text(b) + ")"@,
        SExpr::Var(x) => "Var("@ + quoted(x) + ")"@,
        SExpr::Unary(op, a) => "Unary { op: "@ + unop_text(op) + ", expr: "@ + expr_text(*a) + " }"@,
        SExpr::Binary(op, l, r) => "Binary { op: "@ + binop_text(op) + ", left: "@ + expr_text(*l)
            + ", right: "@ + expr_text(*r) + " }"@,
        SExpr::If(c, t, f) => "If { cond: "@ + expr_text(*c) + ", then_branch: "@ + "["@ + stmt_items(t) + "]"@
            + ", else_branch: "@ + "["@ + stmt_items(f) + "]"@ + " }"@,
        SExpr::While(c, b) => "While { cond: "@ + expr_text(*c) + ", body: "@ + "["@ + stmt_items(b) + "]"@ + " }"@,
        SExpr::Block(b) => "Block("@ + "["@ + stmt_items(b) + "]"@ + ")"@,
        SExpr::Call(n, a) => "Call { name: "@ + quoted(n) + ", args: "@ + "["@ + expr_items(a) + "]"@ + " }"@,
        SExpr::For(v, s, t, b) => "For { var: "@ + quoted(v) + ", start: "@ + expr_text(*s) + ", end: "@
            + expr_text(*t) + ", body: "@ + "["@ + stmt_items(b) + "]"@ + " }"@,
    }
}

pub open spec fn expr_items(s: Seq<SExpr>) -> Seq<char>
    decreases s,
{
    if s.len() == 0 {
        Seq::empty()
    } else if s.len() == 1 {
        expr_text(s[0])
    } else {
        expr_items(s.drop_last()) + ", "@ + expr_text(s.last())
    }
}

pub open spec fn expr_list(s: Seq<SExpr>) -> Seq<char> {
    "["@ + expr_items(s) + "]"@
}

/// `Debug` notation of a statement.
pub open spec fn stmt_text(s: SStmt) -> Seq<char>
    decreases s,
{
    match s {
        SStmt::Function(n, ps, b) => "Function { name: "@ + quoted(n) + ", params: "@ + name_list(ps)
            + ", body: "@ + "["@ + stmt_items(b) + "]"@ + " }"@,
        SStmt::Return(e) => "Return("@ + expr_text(e) + ")"@,
        SStmt::Assignment(n, e) => "Assignment { name: "@ + quoted(n) + ", value: "@ + expr_text(e) + " }"@,
        SStmt::Expr(e) => "Expr("@ + expr_text(e) + ")"@,
    }
}

pub open spec fn stmt_items(s: Seq<SStmt>) -> Seq<char>
    decreases s,
{
    if s.len() == 0 {
        Seq::empty()
    } else if s.len() == 1 {
        stmt_text(s[0])
    } else {
        stmt_items(s.drop_last()) + ", "@ + stmt_text(s.last())
    }
}

pub open spec fn stmt_list(s: Seq<SStmt>) -> Seq<char> {
    "["@ + stmt_items(s) + "]"@
}

/// Appends `name` between double quotes, escaped.
pub fn write_quoted(out: &mut String, name: &String)
    ensures
        final(out)@ == old(out)@ + quoted(name@),
{
    let chars = chars_of(name.as_str());
    push_char(out, '"');
    let ghost start = out@;
    let n = chars.len();
    for i in 0..n
        invariant
            n == chars@.len(),
            chars@ == name@,
            out@ == start + escaped(chars@.take(i as int)),
    {
        let c = chars[i];
        let ghost before = out@;
        if c == '"' {
            push_char(out, '\\');
            push_char(out, '"');
        } else if c == '\\' {
            push_char(out, '\\');
            push_char(out, '\\');
        } else if c == '\n' {
            push_char(out, '\\');
            push_char(out, 'n');
        } else if c == '\t' {
            push_char(out, '\\');
            push_char(out, 't');
        } else if c == '\r' {
            push_char(out, '\\');
            push_char(out, 'r');
        } else {
            push_char(out, c);
        }
        assert(chars@.take(i + 1).drop_last() =~= chars@.take(i as int));
        assert(out@ =~= before + escape_char(c));
        assert(out@ =~= start + escaped(chars@.take(i + 1)));
    }
    push_char(out, '"');
    assert(chars@.take(n as int) =~= chars@);
    assert(final(out)@ =~= old(out)@ + quoted(name@));
}

/// Appends the quoted names, separated by `, `, between brackets.
pub fn write_names(out: &mut String, v: &Vec<String>)
    ensures
        final(out)@ == old(out)@ + name_list(names_view(v@)),
{
    out.append("[");
    let ghost start = out@;
    let ghost names = names_view(v@);
    let n = v.len();
    for i in 0..n
        invariant
            n == v@.len(),
            names == names_view(v@),
            out@ == start + name_items(names.take(i as int)),
    {
        let ghost before = out@;
        if i > 0 {
            out.append(", ");
        }
        write_quoted(out, &v[i]);
        assert(names.take(i + 1).drop_last() =~= names.take(i as int));
        assert(names[i as int] == v@[i as int]@);
        if i == 0 {
            assert(out@ =~= start + name_items(names.take(i + 1)));
        } else {
            assert(out@ =~= start + name_items(names.take(i + 1)));
        }
    }
    out.append("]");
    assert(names.take(n as int) =~= names);
    assert(final(out)@ =~= old(out)@ + name_list(names_view(v@)));
}

/// Appends the name of a prefix operator.
pub fn write_unop(out: &mut String, op: UnaryOp)
    ensures
        final(out)@ == old(out)@ + unop_text(op),
{
    match op {
        UnaryOp::Neg => out.append("Neg"),
        UnaryOp::Not => out.append("Not"),
    }
}

/// Appends the name of an infix operator.
pub fn write_binop(out: &mut String, op: BinaryOp)
    ensures
        final(out)@ == old(out)@ + binop_text(op),
{
    match op {
        BinaryOp::Add => out.append("Add"),
        BinaryOp::Sub => out.append("Sub"),
        BinaryOp::Mul => out.append("Mul"),
        BinaryOp::Div => out.append("Div"),
        BinaryOp::Mod => out.append("Mod"),
        BinaryOp::Lt => out.append("Lt"),
        BinaryOp::Gt => out.append("Gt"),
        BinaryOp::Le => out.append("Le"),
        BinaryOp::Ge => out.append("Ge"),
        BinaryOp::Eq => out.append("Eq"),
        BinaryOp::Ne => out.append("Ne"),
    }
}

/// Appends the `Debug` notation of `e`.
pub fn write_expr(out: &mut String, e: &Expr)
    ensures
        final(out)@ == old(out)@ + expr_text(expr_view(*e)),
    decreases e, 5nat,
{
    let ghost start = out@;
    match e {
        Expr::Print(args) => {
            out.append("Print(");
            write_exprs(out, args);
            assert(out@ =~= start + ("Print("@ + expr_list(exprs_view(args@))));
            out.append(")");
            assert(out@ =~= start + ("Print("@ + expr_list(exprs_view(args@)) + ")"@));
            assert(out@ =~= start + expr_text(expr_view(*e)));
        },
        Expr::Int(n) => {
            out.append("Int(");
            write_int(out, *n);
            assert(out@ =~= start + ("Int("@ + int_text(*n as int)));
            out.append(")");
            assert(out@ =~= start + ("Int("@ + int_text(*n as int) + ")"@));
            assert(out@ =~= start + expr_text(expr_view(*e)));
        },
        _ => write_expr_b(out, e),
    }
}

/// Appends the `Debug` notation of `e` (variants handed on by the function before).
pub fn write_expr_b(out: &mut String, e: &Expr)
    requires
        !(e is Print || e is Int),
    ensures
        final(out)@ == old(out)@ + expr_text(expr_view(*e)),
    decreases e, 4nat,
{
    let ghost start = out@;
    match e {
        Expr::Bool(b) => {
            out.append("Bool(");
            if *b { out.append("true"); } else { out.append("false"); }
            assert(out@ =~= start + ("Bool("@ + bool_text(*b)));
            out.append(")");
            assert(out@ =~= start + ("Bool("@ + bool_text(*b) + ")"@));
            assert(out@ =~= start + expr_text(expr_view(*e)));
        },
        Expr::Var(x) => {
            out.append("Var(");
            write_quoted(out, x);
            assert(out@ =~= start + ("Var("@ + quoted(x@)));
            out.append(")");
            assert(out@ =~= start + ("Var("@ + quoted(x@) + ")"@));
            assert(out@ =~= start + expr_text(expr_view(*e)));
        },
        _ => write_expr_c(out, e),
    }
}

/// Appends the `Debug` notation of `e` (variants handed on by the function before).
pub fn write_expr_c(out: &mut String, e: &Expr)
    requires
        !(e is Print || e is Int || e is Bool || e is Var),
    ensures
        final(out)@ == old(out)@ + expr_text(expr_view(*e)),
    decreases e, 3nat,
{
    let ghost start = out@;
    match e {
        Expr::Block(b) => {
            out.append("Block(");
            write_stmts(out, b);
            assert(out@ =~= start + ("Block("@ + stmt_list(stmts_view(b@))));
            out.append(")");
            assert(out@ =~= start + ("Block("@ + stmt_list(stmts_view(b@)) + ")"@));
            assert(out@ =~= start + expr_text(expr_view(*e)));
        },
        Expr::Call { name, args } => {
            out.append("Call { name: ");
            write_quoted(out, name);
            assert(out@ =~= start + ("Call { name: "@ + quoted(name@)));
            out.append(", args: ");
            assert(out@ =~= start + ("Call { name: "@ + quoted(name@) + ", args: "@));
            write_exprs(out, args);
            assert(out@ =~= start + ("Call { name: "@ + quoted(name@) + ", args: "@ + expr_list(exprs_view(args@))));
            out.append(" }");
            assert(out@ =~= start + ("Call { name: "@ + quoted(name@) + ", args: "@ + expr_list(exprs_view(args@)) + " }"@));
            assert(out@ =~= start + expr_text(expr_view(*e)));
        },
        Expr::While { cond, body } => {
            out.append("While { cond: ");
            write_expr(out, cond);
            assert(out@ =~= start + ("While { cond: "@ + expr_text(expr_view(**cond))));
            out.append(", body: ");
            assert(out@ =~= start + ("While { cond: "@ + expr_text(expr_view(**cond)) + ", body: "@));
            write_stmts(out, body);
            assert(out@ =~= start + ("While { cond: "@ + expr_text(expr_view(**cond)) + ", body: "@ + stmt_list(stmts_view(body@))));
            out.append(" }");
            assert(out@ =~= start + ("While { cond: "@ + expr_text(expr_view(**cond)) + ", body: "@ + stmt_list(stmts_view(body@)) + " }"@));
            assert(out@ =~= start + expr_text(expr_view(*e)));
        },
        _ => write_expr_d(out, e),
    }
}

/// Appends the `Debug` notation of `e` (variants handed on by the function before).
pub fn write_expr_d(out: &mut String, e: &Expr)
    requires
        !(e is Print || e is Int || e is Bool || e is Var || e is Block || e is Call || e is While),
    ensures
        final(out)@ == old(out)@ + expr_text(expr_view(*e)),
    decreases e, 2nat,
{
    let ghost start = out@;
    match e {
        Expr::Unary { op, expr } => {
            out.append("Unary { op: ");
            write_unop(out, *op);
            assert(out@ =~= start + ("Unary { op: "@ + unop_text(*op)));
            out.append(", expr: ");
            assert(out@ =~= start + ("Unary { op: "@ + unop_text(*op) + ", expr: "@));
            write_expr(out, expr);
            assert(out@ =~= start + ("Unary { op: "@ + unop_text(*op) + ", expr: "@ + expr_text(expr_view(**expr))));
            out.append(" }");
            assert(out@ =~= start + ("Unary { op: "@ + unop_text(*op) + ", expr: "@ + expr_text(expr_view(**expr)) + " }"@));
            assert(out@ =~= start + expr_text(expr_view(*e)));
        },
        Expr::Binary { op, left, right } => {
            out.append("Binary { op: ");
            write_binop(out, *op);
            assert(out@ =~= start + ("Binary { op: "@ + binop_text(*op)));
            out.append(", left: ");
            assert(out@ =~= start + ("Binary { op: "@ + binop_text(*op) + ", left: "@));
            write_expr(out, left);
            assert(out@ =~= start + ("Binary { op: "@ + binop_text(*op) + ", left: "@ + expr_text(expr_view(**left))));
            out.append(", right: ");
            assert(out@ =~= start + ("Binary { op: "@ + binop_text(*op) + ", left: "@ + expr_text(expr_view(**left)) + ", right: "@));
            write_expr(out, right);
            assert(out@ =~= start + ("Binary { op: "@ + binop_text(*op) + ", left: "@ + expr_text(expr_view(**left)) + ", right: "@ + expr_text(expr_view(**right))));
            out.append(" }");
            assert(out@ =~= start + ("Binary { op: "@ + binop_text(*op) + ", left: "@ + expr_text(expr_view(**left)) + ", right: "@ + expr_text(expr_view(**right)) + " }"@));
            assert(out@ =~= start + expr_text(expr_view(*e)));
        },
        _ => write_expr_e(out, e),
    }
}

/// Appends the `Debug` notation of `e` (variants handed on by the function before).
pub fn write_expr_e(out: &mut String, e: &Expr)
    requires
        !(e is Print || e is Int || e is Bool || e is Var || e is Block || e is Call || e is While || e is Unary || e is Binary),
    ensures
        final(out)@ == old(out)@ + expr_text(expr_view(*e)),
    decreases e, 1nat,
{
    let ghost start = out@;
    match e {
        Expr::If { cond, then_branch, else_branch } => {
            out.append("If { cond: ");
            write_expr(out, cond);
            assert(out@ =~= start + ("If { cond: "@ + expr_text(expr_view(**cond))));
            out.append(", then_branch: ");
            assert(out@ =~= start + ("If { cond: "@ + expr_text(expr_view(**cond)) + ", then_branch: "@));
            write_stmts(out, then_branch);
            assert(out@ =~= start + ("If { cond: "@ + expr_text(expr_view(**cond)) + ", then_branch: "@ + stmt_list(stmts_view(then_branch@))));
            out.append(", else_branch: ");
            assert(out@ =~= start + ("If { cond: "@ + expr_text(expr_view(**cond)) + ", then_branch: "@ + stmt_list(stmts_view(then_branch@)) + ", else_branch: "@));
            write_stmts(out, else_branch);
            assert(out@ =~= start + ("If { cond: "@ + expr_text(expr_view(**cond)) + ", then_branch: "@ + stmt_list(stmts_view(then_branch@)) + ", else_branch: "@ + stmt_list(stmts_view(else_branch@))));
            out.append(" }");
            assert(out@ =~= start + ("If { cond: "@ + expr_text(expr_view(**cond)) + ", then_branch: "@ + stmt_list(stmts_view(then_branch@)) + ", else_branch: "@ + stmt_list(stmts_view(else_branch@)) + " }"@));
            assert(out@ =~= start + expr_text(expr_view(*e)));
        },
        Expr::For { var, start: s, end, body } => {
            out.append("For { var: ");
            write_quoted(out, var);
            assert(out@ =~= start + ("For { var: "@ + quoted(var@)));
            out.append(", start: ");
            assert(out@ =~= start + ("For { var: "@ + quoted(var@) + ", start: "@));
            write_expr(out, s);
            assert(out@ =~= start + ("For { var: "@ + quoted(var@) + ", start: "@ + expr_text(expr_view(**s))));
            out.append(", end: ");
            assert(out@ =~= start + ("For { var: "@ + quoted(var@) + ", start: "@ + expr_text(expr_view(**s)) + ", end: "@));
            write_expr(out, end);
            assert(out@ =~= start + ("For { var: "@ + quoted(var@) + ", start: "@ + expr_text(expr_view(**s)) + ", end: "@ + expr_text(expr_view(**end))));
            out.append(", body: ");
            assert(out@ =~= start + ("For { var: "@ + quoted(var@) + ", start: "@ + expr_text(expr_view(**s)) + ", end: "@ + expr_text(expr_view(**end)) + ", body: "@));
            write_stmts(out, body);
            assert(out@ =~= start + ("For { var: "@ + quoted(var@) + ", start: "@ + expr_text(expr_view(**s)) + ", end: "@ + expr_text(expr_view(**end)) + ", body: "@ + stmt_list(stmts_view(body@))));
            out.append(" }");
            assert(out@ =~= start + ("For { var: "@ + quoted(var@) + ", start: "@ + expr_text(expr_view(**s)) + ", end: "@ + expr_text(expr_view(**end)) + ", body: "@ + stmt_list(stmts_view(body@)) + " }"@));
            assert(out@ =~= start + expr_text(expr_view(*e)));
        },
        _ => {},
    }
}

/// Appends the `Debug` notation of a list of expressions.
pub fn write_exprs(out: &mut String, v: &Vec<Expr>)
    ensures
        final(out)@ == old(out)@ + expr_list(exprs_view(v@)),
    decreases v, 0nat,
{
    out.append("[");
    let ghost start = out@;
    let ghost items = exprs_view(v@);
    proof {
        lemma_exprs_view(v@);
    }
    let n = v.len();
    for i in 0..n
        invariant
            n == v@.len(),
            items == exprs_view(v@),
            items.len() == n,
            forall|j: int| 0 <= j < n ==> #[trigger] items[j] == expr_view(v@[j]),
            out@ == start + expr_items(items.take(i as int)),
    {
        let ghost before = out@;
        if i > 0 {
            out.append(", ");
        }
        assert(decreases_to!(v => v@[i as int]));
        write_expr(out, &v[i]);
        assert(items.take(i + 1).drop_last() =~= items.take(i as int));
        assert(items.take(i + 1).last() == expr_view(v@[i as int]));
        assert(out@ =~= start + expr_items(items.take(i + 1)));
    }
    out.append("]");
    assert(items.take(n as int) =~= items);
    assert(final(out)@ =~= old(out)@ + expr_list(exprs_view(v@)));
}

/// Appends the `Debug` notation of a statement.
pub fn write_stmt(out: &mut String, s: &Stmt)
    ensures
        final(out)@ == old(out)@ + stmt_text(stmt_view(*s)),
    decreases s, 0nat,
{
    let ghost start = out@;
    match s {
        Stmt::Function { name, params, body } => {
            out.append("Function { name: ");
            write_quoted(out, name);
            out.append(", params: ");
            write_names(out, params);
            out.append(", body: ");
            write_stmts(out, body);
            out.append(" }");
        },
        Stmt::Return(e) => {
            out.append("Return(");
            write_expr(out, e);
            out.append(")");
        },
        Stmt::Assignment { name, value } => {
            out.append("Assignment { name: ");
            write_quoted(out, name);
            out.append(", value: ");
            write_expr(out, value);
            out.append(" }");
        },
        Stmt::Expr(e) => {
            out.append("Expr(");
            write_expr(out, e);
            out.append(")");
        },
    }
    assert(out@ =~= start + stmt_text(stmt_view(*s)));
}

/// Appends the `Debug` notation of a list of statements.
pub fn write_stmts(out: &mut String, v: &Vec<Stmt>)
    ensures
        final(out)@ == old(out)@ + stmt_list(stmts_view(v@)),
    decreases v, 0nat,
{
    out.append("[");
    let ghost start = out@;
    let ghost items = stmts_view(v@);
    proof {
        lemma_stmts_view(v@);
    }
    let n = v.len();
    for i in 0..n
        invariant
            n == v@.len(),
            items == stmts_view(v@),
            items.len() == n,
            forall|j: int| 0 <= j < n ==> #[trigger] items[j] == stmt_view(v@[j]),
            out@ == start + stmt_items(items.take(i as int)),
    {
        if i > 0 {
            out.append(", ");
        }
        assert(decreases_to!(v => v@[i as int]));
        write_stmt(out, &v[i]);
        assert(items.take(i + 1).drop_last() =~= items.take(i as int));
        assert(items.take(i + 1).last() == stmt_view(v@[i as int]));
        assert(out@ =~= start + stmt_items(items.take(i + 1)));
    }
    out.append("]");
    assert(items.take(n as int) =~= items);
    assert(final(out)@ =~= old(out)@ + stmt_list(stmts_view(v@)));
}

} // verus!
