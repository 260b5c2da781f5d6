use minilang::calculator::ast::{Node, Operator};
use minilang::calculator::interpreter::Interpreter;
use minilang::calculator::parser::parse;
use minilang::calculator::repl::{command, Backend, Command};
use minilang::calculator::typing::{infer_type, Ty};
use minilang::calculator::vm::bytecode::VmInterpreter;
use minilang::calculator::vm::opcode::{bytes_of_address, bytes_to_address, make_byte, make_op, OpCode};
use minilang::calculator::vm::vmcore::VM;

fn num(n: i32) -> Node {
    Node::Int(n)
}

#[test]
fn interpreter_evaluates_each_expression() {
    let ast = parse("1 + 2; 2 + (2 - 1); (2 + 3) - 1; -5 + 2; +7").unwrap();
    assert!(Interpreter::can_evaluate(&ast));
    assert_eq!(Interpreter::from_ast(ast), vec![3, 3, 4, -3, 7]);
}

#[test]
fn interpreter_refuses_what_it_cannot_evaluate() {
    let ast = parse("2 * 3").unwrap();
    assert!(!Interpreter::can_evaluate(&ast));
    assert_eq!(Interpreter::try_eval(&ast[0]), None);
    let overflow = parse("2147483647 + 1").unwrap();
    assert!(!Interpreter::can_evaluate(&overflow));
    assert_eq!(Interpreter::try_eval(&Node::Float(1.0f32.to_bits())), None);
}

#[test]
fn vm_agrees_with_interpreter() {
    let src = "1 + 2; 2 + (2 - 1); 1 + ((2 + 3) - (2 + 3)); -4; +9";
    let ast = parse(src).unwrap();
    let expected: Vec<Node> = Interpreter::from_ast(ast.clone()).into_iter().map(Node::Int).collect();
    assert_eq!(VM::from_ast(ast.clone()), expected);
    assert_eq!(VM::try_from_ast(ast), Some(expected));
}

#[test]
fn vm_refuses_multiplication() {
    let ast = parse("2 * 3").unwrap();
    assert_eq!(VM::try_from_ast(ast), None);
}

#[test]
fn make_op_encodes_each_instruction() {
    assert_eq!(make_op(&OpCode::OpConstant(0x0102)), vec![0x01, 0x01, 0x02]);
    assert_eq!(make_op(&OpCode::OpConstant(5)), vec![0x01, 0x00, 0x05]);
    assert_eq!(make_op(&OpCode::OpConstant(65535)), vec![0x01, 0xFF, 0xFF]);
    assert_eq!(make_op(&OpCode::OpPop), vec![0x02]);
    assert_eq!(make_op(&OpCode::OpAdd), vec![0x03]);
    assert_eq!(make_op(&OpCode::OpSub), vec![0x04]);
    assert_eq!(make_op(&OpCode::OpPlus), vec![0x0A]);
    assert_eq!(make_op(&OpCode::OpMinus), vec![0x0B]);
}

#[test]
fn make_byte_uses_the_machine_encoding() {
    assert_eq!(make_byte(&OpCode::OpConstant(0x0102)), vec![0x01, 0x01, 0x02]);
    assert_eq!(make_byte(&OpCode::OpPop), vec![0x02]);
    assert_eq!(make_byte(&OpCode::OpAdd), vec![0x03]);
    assert_eq!(make_byte(&OpCode::OpSub), vec![0x04]);
    assert_eq!(make_byte(&OpCode::OpMinus), vec![0x0A]);
    assert_eq!(make_byte(&OpCode::OpPlus), vec![0x0B]);
}

#[test]
fn address_bytes_round_trip() {
    assert_eq!(bytes_of_address(0x1234), [0x12, 0x34]);
    assert_eq!(bytes_to_address([0x12, 0x34]), 0x1234);
    for a in [0u16, 1, 255, 256, 4660, 65535] {
        assert_eq!(bytes_to_address(bytes_of_address(a)), a);
    }
}

#[test]
fn bytecode_listing() {
    let ast = parse("1 + 2; -3").unwrap();
    let bytecode = VmInterpreter::from_ast(ast);
    assert_eq!(bytecode.instructions, vec![0x01, 0x00, 0x00, 0x01, 0x00, 0x01, 0x03, 0x01, 0x00, 0x02, 0x0A]);
    assert_eq!(bytecode.constant, vec![num(1), num(2), num(3)]);
    assert_eq!(
        bytecode.disassemble(),
        "Instructions:\n0000: LDC 0x0000\n0003: LDC 0x0001\n0006: ADD\n0007: LDC 0x0002\n000A: NEG\n\nConstants:\n0000: 1\n0001: 2\n0002: 3\n"
    );
}

#[test]
fn infer_type_finds_floats() {
    assert_eq!(infer_type(&parse("1 + 2").unwrap()), Ty::Int);
    let with_float = vec![
        num(1),
        Node::UnaryExpr { op: Operator::Min, child: Box::new(Node::Float(2.5f32.to_bits())) },
    ];
    assert_eq!(infer_type(&with_float), Ty::Float);
    assert_eq!(infer_type(&vec![]), Ty::Int);
}

#[test]
fn render_shows_operators_without_parentheses() {
    let n = Node::BinaryExpr {
        op: Operator::Min,
        lhs: Box::new(Node::UnaryExpr { op: Operator::Min, child: Box::new(num(4)) }),
        rhs: Box::new(Node::BinaryExpr { op: Operator::Mul, lhs: Box::new(num(2)), rhs: Box::new(num(-3)) }),
    };
    assert_eq!(n.render(), "-4 - 2 * -3");
    assert_eq!(Operator::Div.symbol(), '/');
}

#[test]
fn backend_names_and_abbreviations() {
    assert_eq!(Backend::Interpreter.name(), "interpreter");
    assert_eq!(Backend::Vm.name(), "vm");
    assert_eq!(Backend::Jit.name(), "jit");
    assert_eq!(Backend::parse("i"), Some(Backend::Interpreter));
    assert_eq!(Backend::parse("interpreter"), Some(Backend::Interpreter));
    assert_eq!(Backend::parse("v"), Some(Backend::Vm));
    assert_eq!(Backend::parse("jit"), Some(Backend::Jit));
    assert_eq!(Backend::parse("llvm"), None);
    assert_eq!(Backend::parse(""), None);
}

#[test]
fn prompt_commands() {
    assert_eq!(command("   "), Command::Skip);
    assert_eq!(command(":q"), Command::Quit);
    assert_eq!(command("  :quit \n"), Command::Quit);
    assert_eq!(
        command("use  vm "),
        Command::Use { name: "vm".to_string(), backend: Some(Backend::Vm) }
    );
    assert_eq!(
        command("use llvm"),
        Command::Use { name: "llvm".to_string(), backend: None }
    );
    assert_eq!(command(" 1 + 2 "), Command::Evaluate("1 + 2;".to_string()));
    assert_eq!(command("user"), Command::Evaluate("user;".to_string()));
}
