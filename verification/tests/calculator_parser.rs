use minilang::calculator::ast::{Node, Operator};
use minilang::calculator::grammar::ParseError;
use minilang::calculator::parser::parse;

#[test]
fn basics() {
    assert!(parse("b").is_err());

    let one = parse("1");
    assert!(one.is_ok());
    assert_eq!(one.unwrap()[0], Node::Int(1));
}

#[test]
fn unary_expr() {
    let plus_one = parse("+1");
    assert!(plus_one.is_ok());
    assert_eq!(
        plus_one.clone().unwrap(),
        vec![Node::UnaryExpr {
            op: Operator::Plus,
            child: Box::new(Node::Int(1))
        }]
    );
    assert_eq!(plus_one.unwrap()[0].render(), "+1");

    let neg_two = parse("-2");
    assert!(neg_two.is_ok());
    assert_eq!(
        neg_two.clone().unwrap(),
        vec![Node::UnaryExpr {
            op: Operator::Min,
            child: Box::new(Node::Int(2))
        }]
    );
    assert_eq!(neg_two.unwrap()[0].render(), "-2");
}

#[test]
fn binary_expr() {
    let sum = parse("1 + 2");
    assert!(sum.is_ok());
    assert_eq!(
        sum.clone().unwrap(),
        vec![Node::BinaryExpr {
            op: Operator::Plus,
            lhs: Box::new(Node::Int(1)),
            rhs: Box::new(Node::Int(2))
        }]
    );
    assert_eq!(sum.unwrap()[0].render(), "1 + 2");
    let minus = parse("1   -  \t  2");
    assert!(minus.is_ok());
    assert_eq!(
        minus.clone().unwrap(),
        vec![Node::BinaryExpr {
            op: Operator::Min,
            lhs: Box::new(Node::Int(1)),
            rhs: Box::new(Node::Int(2))
        }]
    );
    assert_eq!(minus.unwrap()[0].render(), "1 - 2");
}

fn joined_text(src: &str) -> String {
    parse(src).unwrap().iter().fold(String::new(), |acc, arg| acc + &arg.render())
}

#[test]
fn nested_expr() {
    assert_eq!("1 + 2 + 3", joined_text("(1 + 2) + 3"));
    assert_eq!("1 + 2 + 3", joined_text("1 + (2 + 3)"));
    assert_eq!("1 + 2 + 3 + 4", joined_text("1 + (2 + (3 + 4))"));
    assert_eq!("1 + 2 + 3 - 4", joined_text("(1 + 2) + (3 - 4)"));
}

#[test]
fn multiple_operators() {
    assert_eq!(
        parse("1+2+3").unwrap(),
        vec![Node::BinaryExpr {
            op: Operator::Plus,
            lhs: Box::new(Node::BinaryExpr {
                op: Operator::Plus,
                lhs: Box::new(Node::Int(1)),
                rhs: Box::new(Node::Int(2)),
            }),
            rhs: Box::new(Node::Int(3)),
        }]
    )
}

#[test]
fn negative_first_number() {
    let result = parse("-1 + 2");
    assert!(result.is_ok());
    assert_eq!(
        result.unwrap(),
        vec![Node::BinaryExpr {
            op: Operator::Plus,
            lhs: Box::new(Node::UnaryExpr {
                op: Operator::Min,
                child: Box::new(Node::Int(1))
            }),
            rhs: Box::new(Node::Int(2))
        }]
    );

    let result = parse("-2 + 5");
    assert!(result.is_ok());
}

#[test]
fn whitespace_handling() {
    let result = parse("1+2\n");
    assert!(result.is_ok());

    let result = parse("1 + 2\r\n");
    assert!(result.is_ok());
}

#[test]
fn several_expressions_separated_by_semicolons() {
    let nodes = parse("1 + 2; 3").unwrap();
    assert_eq!(nodes.len(), 2);
    assert_eq!(nodes[0].render(), "1 + 2");
    assert_eq!(nodes[1], Node::Int(3));
}

#[test]
fn multiplication_and_division_parse() {
    let nodes = parse("2 * 3 / 4").unwrap();
    assert_eq!(nodes[0].render(), "2 * 3 / 4");
    assert_eq!(
        nodes[0],
        Node::BinaryExpr {
            op: Operator::Div,
            lhs: Box::new(Node::BinaryExpr {
                op: Operator::Mul,
                lhs: Box::new(Node::Int(2)),
                rhs: Box::new(Node::Int(3)),
            }),
            rhs: Box::new(Node::Int(4)),
        }
    );
}

#[test]
fn integer_out_of_range_is_refused() {
    assert_eq!(parse("99999999999"), Err(ParseError::IntTooLarge));
}

#[test]
fn syntax_errors_are_refused() {
    assert_eq!(parse(""), Err(ParseError::Syntax));
    assert_eq!(parse("1 +"), Err(ParseError::Syntax));
    assert_eq!(parse("(1 + 2"), Err(ParseError::Syntax));
}

#[test]
fn trailing_semicolon_keeps_the_parse() {
    for src in ["1 + 2", "-1 + 2", "(1 + 2) + 3", "1; 2 - 3", "1 +", ""] {
        assert_eq!(parse(&format!("{};", src)), parse(src));
    }
    assert_eq!(
        parse("1 + 2;").unwrap(),
        vec![Node::BinaryExpr { op: Operator::Plus, lhs: Box::new(Node::Int(1)), rhs: Box::new(Node::Int(2)) }]
    );
}
