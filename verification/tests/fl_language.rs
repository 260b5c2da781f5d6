use minilang::fl::ast::{BinaryOp, Expr, Stmt, UnaryOp};
use minilang::fl::interpreter::{Event, Interpreter, RuntimeError, Value};
use minilang::fl::parser::parse;
use minilang::fl::session::{bracket_depth, entry, run, submit, try_bracket_depth, Entry, Submitted};

fn printed(source: &str) -> Vec<String> {
    let (outcome, events) = run(source);
    assert_eq!(outcome, Ok(()));
    events
        .iter()
        .map(|e| match e {
            Event::Print(v) => v.render(0),
            Event::Trace(t) => format!("[trace] {}", t),
        })
        .collect()
}

fn failure(source: &str) -> String {
    let (outcome, _) = run(source);
    outcome.unwrap_err()
}

#[test]
fn parses_assignment_with_precedence() {
    let program = parse("x = 1 + 2 * 3").unwrap();
    assert_eq!(
        program,
        vec![Stmt::Assignment {
            name: "x".to_string(),
            value: Expr::Binary {
                op: BinaryOp::Add,
                left: Box::new(Expr::Int(1)),
                right: Box::new(Expr::Binary {
                    op: BinaryOp::Mul,
                    left: Box::new(Expr::Int(2)),
                    right: Box::new(Expr::Int(3)),
                }),
            },
        }]
    );
}

#[test]
fn parses_functions_calls_and_unary_operators() {
    let program = parse("fn f(a, b) { return -a } f(1, !true)").unwrap();
    assert_eq!(
        program,
        vec![
            Stmt::Function {
                name: "f".to_string(),
                params: vec!["a".to_string(), "b".to_string()],
                body: vec![Stmt::Return(Expr::Unary { op: UnaryOp::Neg, expr: Box::new(Expr::Var("a".to_string())) })],
            },
            Stmt::Expr(Expr::Call {
                name: "f".to_string(),
                args: vec![Expr::Int(1), Expr::Unary { op: UnaryOp::Not, expr: Box::new(Expr::Bool(true)) }],
            }),
        ]
    );
}

#[test]
fn parse_errors_are_reported() {
    let err = parse("x = ").unwrap_err();
    assert!(err.starts_with("parser err "), "{}", err);
    assert_eq!(err, "parser err unexpected input at offset 2");
    assert!(parse("fn (").is_err());
    assert!(parse("1 +* 2").is_err());
}

#[test]
fn empty_program_does_nothing() {
    assert_eq!(parse("").unwrap(), vec![]);
    assert_eq!(printed("   \n"), Vec::<String>::new());
}

#[test]
fn print_shows_values() {
    assert_eq!(printed("x = 1 + 2; print(x)"), vec!["3 "]);
    assert_eq!(printed("print(1 < 2, 3 == 4)"), vec!["true", "false"]);
    assert_eq!(printed("print(7 / 2, 7 % 2, 0 - 7 / 2)"), vec!["3 ", "1 ", "-3 "]);
    assert_eq!(printed("print(print(1))"), vec!["1 ", "()"]);
}

#[test]
fn functions_and_recursion() {
    assert_eq!(printed("fn add(a, b) { return a + b } print(add(2, 3))"), vec!["5 "]);
    assert_eq!(
        printed("fn fact(n) { if n <= 1 { 1 } else { n * fact(n - 1) } } print(fact(10))"),
        vec!["3628800 "]
    );
}

#[test]
fn while_loops_and_blocks() {
    assert_eq!(
        printed("i = 0; s = 0; while i < 5 { s = s + i; i = i + 1 } print(s)"),
        vec!["10 "]
    );
    assert_eq!(printed("print({ 1; 2 })"), vec!["2 "]);
}

#[test]
fn functions_do_not_see_the_callers_variables() {
    assert_eq!(
        failure("y = 1; fn f() { y } f()"),
        "Undefined variable not found in this scope: y"
    );
}

#[test]
fn runtime_error_messages() {
    assert_eq!(failure("print(z)"), "Undefined variable not found in this scope: z");
    assert_eq!(failure("1 / 0"), "Division by zero");
    assert_eq!(failure("1 % 0"), "Modulo by zero");
    assert_eq!(failure("-true"), "Cannot apply Neg to Bool(true)");
    assert_eq!(failure("!1"), "Cannot apply Not to Int(1)");
    assert_eq!(failure("1 + true"), "Cannot apply Add to Int(1) and Bool(true)");
    assert_eq!(failure("if 1 { 2 } else { 3 }"), "Condition must be boolean, got Int(1)");
    assert_eq!(failure("while 0 { 1 }"), "While condition must be boolean, got Int(0)");
    assert_eq!(failure("x = 1; x(2)"), "x is not a function");
    assert_eq!(failure("fn f(a) { a } f(1, 2)"), "Function f expected 1 arguments, got 2");
    assert_eq!(failure("9223372036854775807 + 1"), "attempt to add with overflow");
}

#[test]
fn output_before_an_error_is_kept() {
    let (outcome, events) = run("print(1); print(q)");
    assert_eq!(outcome, Err("Undefined variable not found in this scope: q".to_string()));
    assert_eq!(events, vec![Event::Print(Value::Int(1))]);
}

#[test]
fn step_limit_stops_endless_loops() {
    let program = parse("while true { 1 }").unwrap();
    let mut interpreter = Interpreter::new();
    interpreter.set_step_limit(200);
    assert_eq!(interpreter.run(&program), Err("step limit reached".to_string()));
}

#[test]
fn interpreter_keeps_state_between_runs() {
    let mut interpreter = Interpreter::default();
    assert_eq!(interpreter.run(&parse("x = 41").unwrap()), Ok(()));
    assert_eq!(interpreter.run(&parse("print(x + 1)").unwrap()), Ok(()));
    assert_eq!(interpreter.take_events(), vec![Event::Print(Value::Int(42))]);
    assert_eq!(interpreter.take_events(), vec![]);
}

#[test]
fn tracing_reports_each_evaluated_expression() {
    let mut interpreter = Interpreter::new();
    interpreter.set_trace(true);
    assert_eq!(interpreter.run(&parse("1 + 2").unwrap()), Ok(()));
    assert_eq!(
        interpreter.take_events(),
        vec![
            Event::Trace("Binary { op: Add, left: Int(1), right: Int(2) }".to_string()),
            Event::Trace("Int(1)".to_string()),
            Event::Trace("Int(2)".to_string()),
        ]
    );
}

#[test]
fn value_rendering() {
    assert_eq!(Value::Int(-5).render(0), "-5 ");
    assert_eq!(Value::Bool(false).render(0), "false");
    assert_eq!(Value::Unit.render(0), "()");
    let f = Value::Function { params: vec!["a".to_string(), "b".to_string()], body: vec![] };
    assert_eq!(f.render(0x1f), "<function(a, b)> at 0x1f");
    assert_eq!(f.clone(), f);
}

#[test]
fn runtime_error_message_texts() {
    assert_eq!(RuntimeError::DivisionByZero.message(), "Division by zero");
    assert_eq!(RuntimeError::Arity("g".to_string(), 2, 0).message(), "Function g expected 2 arguments, got 0");
    assert_eq!(
        RuntimeError::ForBounds(Value::Bool(true), Value::Int(3)).message(),
        "start and end should both be ints, found true and 3 "
    );
    assert_eq!(RuntimeError::EmptyCallStack.message(), "Call stack should never be empty");
}

#[test]
fn bracket_depth_counts_open_brackets_outside_strings() {
    assert_eq!(bracket_depth("fn f() {"), 1);
    assert_eq!(bracket_depth("([{"), 3);
    assert_eq!(bracket_depth("(a)[b]{c}"), 0);
    assert_eq!(bracket_depth("\"(\" ("), 1);
    assert_eq!(bracket_depth("\"a\\\"(\""), 0);
    assert_eq!(try_bracket_depth(")"), None);
    assert_eq!(try_bracket_depth("{ }"), Some(0));
}

#[test]
fn prompt_entries() {
    assert_eq!(entry("\n"), Entry::End);
    assert_eq!(entry(""), Entry::End);
    assert_eq!(entry("quit\n"), Entry::Quit);
    assert_eq!(entry("  exit  "), Entry::Quit);
    assert_eq!(entry("quit()"), Entry::Program);
    assert_eq!(entry("x = 1\n"), Entry::Program);
}

#[test]
fn submitting_entries() {
    let mut interpreter = Interpreter::new();
    match submit(&mut interpreter, "  x = 2\n", true, false) {
        Submitted::Ast(program) => assert_eq!(program.len(), 1),
        other => panic!("unexpected {:?}", other),
    }
    assert!(matches!(submit(&mut interpreter, "x = 2", false, true), Submitted::Parsed));
    match submit(&mut interpreter, "x = ", false, false) {
        Submitted::ParseError(m) => assert!(m.starts_with("parser err ")),
        other => panic!("unexpected {:?}", other),
    }
    assert!(matches!(submit(&mut interpreter, "x = 2\n", false, false), Submitted::Ran(Ok(()))));
    assert!(matches!(submit(&mut interpreter, "print(x * 21)", false, false), Submitted::Ran(Ok(()))));
    assert_eq!(interpreter.take_events(), vec![Event::Print(Value::Int(42))]);
}

#[test]
fn running_two_programs_in_turn_is_running_them_as_one() {
    let p1 = parse("x = 20; fn double(n) { n * 2 }").unwrap();
    let p2 = parse("print(double(x) + 2)").unwrap();
    let mut whole = p1.clone();
    whole.extend(p2.clone());
    let mut a = Interpreter::new();
    let mut b = a.clone();
    assert_eq!(a.run(&p1), Ok(()));
    let first = a.run(&p2);
    let second = b.run(&whole);
    assert_eq!(first, second);
    assert!(a == b);
    assert_eq!(a.take_events(), vec![Event::Print(Value::Int(42))]);
}

#[test]
fn tracing_changes_only_trace_events() {
    let program = parse("fn f(n) { n + 1 } y = f(2); print(y, y < 4)").unwrap();
    let mut plain = Interpreter::new();
    let mut traced = plain.clone();
    traced.set_trace(true);
    assert_eq!(plain.run(&program), traced.run(&program));
    let prints = |events: Vec<Event>| -> Vec<Event> {
        events.into_iter().filter(|e| matches!(e, Event::Print(_))).collect()
    };
    let traced_events = traced.take_events();
    assert!(traced_events.iter().any(|e| matches!(e, Event::Trace(_))));
    assert_eq!(prints(plain.take_events()), prints(traced_events));
    assert_eq!(plain.run(&parse("print(y)").unwrap()), traced.run(&parse("print(y)").unwrap()));
}

#[test]
fn top_level_parse_error_has_prefix() {
    let (outcome, events) = run("fn (");
    assert!(outcome.unwrap_err().starts_with("parser err "));
    assert!(events.is_empty());
    assert_eq!(minilang::fl::run("print(1)").0, Ok(()));
}

fn for_loop(var: &str, start: i64, end: i64, body: Vec<Stmt>) -> Stmt {
    Stmt::Expr(Expr::For {
        var: var.to_string(),
        start: Box::new(Expr::Int(start)),
        end: Box::new(Expr::Int(end)),
        body,
    })
}

#[test]
fn for_loops_keep_the_callers_frame() {
    let print_var = |name: &str| Stmt::Expr(Expr::Print(vec![Expr::Var(name.to_string())]));
    let mut interpreter = Interpreter::new();
    let program = vec![
        Stmt::Assignment { name: "a".to_string(), value: Expr::Int(7) },
        for_loop("i", 3, 3, vec![]),
        for_loop("i", 0, 3, vec![print_var("i")]),
        print_var("a"),
    ];
    assert_eq!(interpreter.run(&program), Ok(()));
    assert_eq!(
        interpreter.take_events(),
        vec![
            Event::Print(Value::Int(0)),
            Event::Print(Value::Int(1)),
            Event::Print(Value::Int(2)),
            Event::Print(Value::Int(7)),
        ]
    );
    let failing = vec![for_loop("i", 0, 2, vec![print_var("nope")])];
    assert_eq!(interpreter.run(&failing), Err("Undefined variable not found in this scope: nope".to_string()));
    assert_eq!(interpreter.run(&vec![print_var("a")]), Ok(()));
    assert_eq!(interpreter.take_events(), vec![Event::Print(Value::Int(7))]);
}

#[test]
fn a_failing_call_drops_its_frame() {
    let mut interpreter = Interpreter::new();
    assert_eq!(interpreter.run(&parse("a = 1; fn f() { z }").unwrap()), Ok(()));
    assert_eq!(
        interpreter.run(&parse("f()").unwrap()),
        Err("Undefined variable not found in this scope: z".to_string())
    );
    assert_eq!(interpreter.run(&parse("print(a)").unwrap()), Ok(()));
    assert_eq!(interpreter.take_events(), vec![Event::Print(Value::Int(1))]);
}
