use minilang::sl::types::Type;

#[test]
fn simple_types() {
    assert_eq!(Type::Int.render(), "int");
    assert_eq!(Type::Bool.render(), "bool");
    assert_eq!(Type::Unit.render(), "()");
    assert_eq!(Type::Unknown.render(), "?");
}

#[test]
fn function_types() {
    let f = Type::Function { params: vec![Type::Int, Type::Bool], ret: Box::new(Type::Unit) };
    assert_eq!(f.render(), "(int, bool) -> ()");
    let g = Type::Function { params: vec![], ret: Box::new(f.clone()) };
    assert_eq!(g.render(), "() -> (int, bool) -> ()");
    let h = Type::Function { params: vec![g.clone()], ret: Box::new(Type::Unknown) };
    assert_eq!(h.render(), "(() -> (int, bool) -> ()) -> ?");
    assert_eq!(h.clone(), h);
}

use minilang::sl::ast::Stmt;
use minilang::sl::parser::parse;

fn function(name: &str, params: Vec<(&str, Type)>) -> Stmt {
    Stmt::Function {
        name: name.to_string(),
        params: params.into_iter().map(|(n, t)| (n.to_string(), t)).collect(),
        return_type: Type::Unknown,
        body: vec![],
    }
}

#[test]
fn parses_function_definitions() {
    let program = parse("fn f(a: int, b: bool) -> int { return a } fn g() { };").unwrap();
    assert_eq!(
        program,
        vec![function("f", vec![("a", Type::Int), ("b", Type::Bool)]), function("g", vec![])]
    );
}

#[test]
fn function_bodies_are_checked_but_not_kept() {
    let program = parse("fn h(x: int) { y: int = x + 1; z = y * 2; if z > 2 { z } else { 0 } }").unwrap();
    assert_eq!(program, vec![function("h", vec![("x", Type::Int)])]);
    assert_eq!(parse("").unwrap(), vec![]);
}

#[test]
fn syntax_errors_are_reported() {
    assert_eq!(parse("fn (").unwrap_err(), "parser err unexpected input at offset 0");
    assert!(parse("fn f(a) { }").unwrap_err().starts_with("parser err "));
    assert!(parse("fn f(a: float) { }").unwrap_err().starts_with("parser err "));
    assert!(parse("fn f() { x = }").unwrap_err().starts_with("parser err "));
}
