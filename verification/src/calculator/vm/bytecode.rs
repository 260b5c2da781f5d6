//! The compiler from expressions to stack-machine code, and the listing of that code.
use vstd::prelude::*;
use crate::calculator::ast::{has_float, node_text, Node, Operator};
use crate::calculator::vm::opcode::{make_byte, code_bytes, Address, Byte, OpCode};
use crate::text::{hex_text, push_char, write_hex_padded, zero_pad};

verus! {

/// Machine code and the constants it loads.
#[derive(Debug)]
pub struct Bytecode {
    pub instructions: Vec<Byte>,
    pub constant: Vec<Node>,
}

/// The expression uses only integers and `+`/`-` (unary or binary).
pub open spec fn compilable(n: Node) -> bool
    decreases n,
{
    match n {
        Node::Int(_) => true,
        Node::Float(_) => false,
        Node::UnaryExpr { op, child } => compilable(*child) && (op == Operator::Plus || op == Operator::Min),
        Node::BinaryExpr { op, lhs, rhs } => compilable(*lhs) && compilable(*rhs) && (op == Operator::Plus
            || op == Operator::Min),
    }
}

pub open spec fn all_compilable(ast: Seq<Node>) -> bool {
    forall|i: int| 0 <= i < ast.len() ==> compilable(#[trigger] ast[i])
}

pub open spec fn unary_opcode(op: Operator) -> OpCode {
    if op == Operator::Min {
        OpCode::OpMinus
    } else {
        OpCode::OpPlus
    }
}

pub open spec fn binary_opcode(op: Operator) -> OpCode {
    if op == Operator::Min {
        OpCode::OpSub
    } else {
        OpCode::OpAdd
    }
}

/// The code of `n`, and the constants it adds to a pool that holds `base` entries: operands
/// first, operator last; each integer is loaded from the pool, at its index taken modulo 2^16.
pub open spec fn compile_node(n: Node, base: nat) -> (Seq<u8>, Seq<Node>)
    decreases n,
{
    match n {
        Node::Int(v) => (code_bytes(OpCode::OpConstant((base % 65536) as u16)), seq![Node::Int(v)]),
        Node::Float(_) => (Seq::empty(), Seq::empty()),
        Node::UnaryExpr { op, child } => {
            let (cc, ks) = compile_node(*child, base);
            (cc + code_bytes(unary_opcode(op)), ks)
        },
        Node::BinaryExpr { op, lhs, rhs } => {
            let (cl, kl) = compile_node(*lhs, base);
            let (cr, kr) = compile_node(*rhs, base + kl.len());
            (cl + cr + code_bytes(binary_opcode(op)), kl + kr)
        },
    }
}

/// The code and constants of a program: each expression after the ones before.
pub open spec fn compile_seq(ast: Seq<Node>) -> (Seq<u8>, Seq<Node>)
    decreases ast.len(),
{
    if ast.len() == 0 {
        (Seq::empty(), Seq::empty())
    } else {
        let (c0, k0) = compile_seq(ast.drop_last());
        let (c1, k1) = compile_node(ast.last(), k0.len());
        (c0 + c1, k0 + k1)
    }
}

/// The compiler.
pub struct VmInterpreter {
    bytecode: Bytecode,
}

impl VmInterpreter {
    /// Compiles the expressions, in order.
    pub fn from_ast(ast: Vec<Node>) -> (r: Bytecode)
        requires
            all_compilable(ast@),
        ensures
            (r.instructions@, r.constant@) == compile_seq(ast@),
    {
        let mut interpreter = VmInterpreter { bytecode: Bytecode { instructions: Vec::new(), constant: Vec::new() } };
        let ghost a = ast@;
        let n = ast.len();
        let mut rest = ast;
        let mut pending: Vec<Node> = Vec::new();
        // take the nodes out in order
        while rest.len() > 0
            invariant
                pending@.len() + rest@.len() == a.len(),
                forall|j: int| 0 <= j < rest@.len() ==> #[trigger] rest@[j] == a[j],
                forall|j: int| 0 <= j < pending@.len() ==> #[trigger] pending@[j] == a[a.len() - 1 - j],
            decreases rest@.len(),
        {
            let node = rest.pop().unwrap();
            pending.push(node);
        }
        assert(interpreter.bytecode.instructions@ =~= compile_seq(a.take(0)).0);
        assert(interpreter.bytecode.constant@ =~= compile_seq(a.take(0)).1);
        let mut k: usize = 0;
        while pending.len() > 0
            invariant
                k + pending@.len() == n,
                n == a.len(),
                all_compilable(a),
                forall|j: int| 0 <= j < pending@.len() ==> #[trigger] pending@[j] == a[n - 1 - j],
                (interpreter.bytecode.instructions@, interpreter.bytecode.constant@) == compile_seq(a.take(k as int)),
            decreases pending@.len(),
        {
            let node = pending.pop().unwrap();
            assert(node == a[k as int]);
            interpreter.interpret_node(node);
            assert(a.take(k + 1).drop_last() =~= a.take(k as int));
            k = k + 1;
        }
        assert(a.take(n as int) =~= a);
        interpreter.bytecode
    }

    fn add_constant(&mut self, node: Node) -> (r: Address)
        ensures
            final(self).bytecode.constant@ == old(self).bytecode.constant@.push(node),
            final(self).bytecode.instructions@ == old(self).bytecode.instructions@,
            r == (old(self).bytecode.constant@.len() % 65536) as u16,
    {
        let len = self.bytecode.constant.len();
        let address = len as Address;
        assert(address == (len % 65536) as u16) by (bit_vector)
            requires
                address == len as u16,
        ;
        self.bytecode.constant.push(node);
        address
    }

    fn add_instruction(&mut self, opcode: OpCode) -> (r: Address)
        ensures
            final(self).bytecode.instructions@ == old(self).bytecode.instructions@ + code_bytes(opcode),
            final(self).bytecode.constant@ == old(self).bytecode.constant@,
            r == old(self).bytecode.instructions@.len() as u16,
    {
        let address = self.bytecode.instructions.len() as Address;
        let mut bytes = make_byte(&opcode);
        let ghost b = bytes@;
        self.bytecode.instructions.append(&mut bytes);
        address
    }

    fn interpret_node(&mut self, node: Node)
        requires
            compilable(node),
        ensures
            final(self).bytecode.instructions@ == old(self).bytecode.instructions@ + compile_node(
                node,
                old(self).bytecode.constant@.len(),
            ).0,
            final(self).bytecode.constant@ == old(self).bytecode.constant@ + compile_node(
                node,
                old(self).bytecode.constant@.len(),
            ).1,
        decreases node,
    {
        let ghost c0 = self.bytecode.instructions@;
        let ghost k0 = self.bytecode.constant@;
        match node {
            Node::Int(n) => {
                let const_ptr = self.add_constant(Node::Int(n));
                self.add_instruction(OpCode::OpConstant(const_ptr));
                assert(self.bytecode.constant@ =~= k0 + seq![Node::Int(n)]);
            },
            Node::UnaryExpr { op, child } => {
                self.interpret_node(*child);
                match op {
                    Operator::Plus => self.add_instruction(OpCode::OpPlus),
                    _ => self.add_instruction(OpCode::OpMinus),
                };
                assert(self.bytecode.instructions@ =~= c0 + compile_node(node, k0.len()).0);
            },
            Node::BinaryExpr { op, lhs, rhs } => {
                let ghost l = *lhs;
                self.interpret_node(*lhs);
                let ghost kl = compile_node(l, k0.len()).1;
                self.interpret_node(*rhs);
                match op {
                    Operator::Plus => self.add_instruction(OpCode::OpAdd),
                    _ => self.add_instruction(OpCode::OpSub),
                };
                assert(self.bytecode.instructions@ =~= c0 + compile_node(node, k0.len()).0);
                assert(self.bytecode.constant@ =~= k0 + compile_node(node, k0.len()).1);
            },
            Node::Float(_) => {},
        }
    }
}

/// A number in upper-case hexadecimal, at least `w` digits.
pub open spec fn hex_pad(n: nat, w: nat) -> Seq<char> {
    zero_pad(hex_text(n, true), w)
}

/// The listing of the instructions from offset `i`: one line per instruction, with its
/// offset; a load whose address bytes are missing ends the listing.
pub open spec fn instruction_lines(code: Seq<u8>, i: nat) -> Seq<char>
    decreases code.len() - i,
{
    if i >= code.len() {
        Seq::empty()
    } else {
        let b = code[i as int];
        if b == 0x01 {
            if i + 2 >= code.len() {
                hex_pad(i, 4) + ": LDC <missing address>\n"@
            } else {
                hex_pad(i, 4) + ": LDC 0x"@ + hex_pad((code[i + 1 as int] as nat) * 256 + code[i + 2 as int] as nat, 4) + "\n"@
                    + instruction_lines(code, i + 3)
            }
        } else {
            hex_pad(i, 4) + (if b == 0x02 {
                ": POP\n"@
            } else if b == 0x03 {
                ": ADD\n"@
            } else if b == 0x04 {
                ": SUB\n"@
            } else if b == 0x0A {
                ": NEG\n"@
            } else if b == 0x0B {
                ": POS\n"@
            } else {
                ": UNKNOWN 0x"@ + hex_pad(b as nat, 2) + "\n"@
            }) + instruction_lines(code, i + 1)
        }
    }
}

/// One line per constant from index `i`: its index, and its text.
pub open spec fn constant_lines(ks: Seq<Node>, i: nat) -> Seq<char>
    decreases ks.len() - i,
{
    if i >= ks.len() {
        Seq::empty()
    } else {
        hex_pad(i, 4) + ": "@ + node_text(ks[i as int]) + "\n"@ + constant_lines(ks, i + 1)
    }
}

pub open spec fn listing(code: Seq<u8>, ks: Seq<Node>) -> Seq<char> {
    "Instructions:\n"@ + instruction_lines(code, 0) + "\nConstants:\n"@ + constant_lines(ks, 0)
}

impl Bytecode {
    /// The listing of the code and the constants, as `Display` shows it.
    pub fn disassemble(&self) -> (r: String)
        requires
            forall|i: int| 0 <= i < self.constant@.len() ==> !has_float(#[trigger] self.constant@[i]),
        ensures
            r@ == listing(self.instructions@, self.constant@),
    {
        let instructions = &self.instructions;
        let ghost code = instructions@;
        let n = instructions.len();
        let mut f = String::from_str("Instructions:\n");
        let ghost head = f@;
        let mut i: usize = 0;
        loop
            invariant_except_break
                f@ + instruction_lines(code, i as nat) == head + instruction_lines(code, 0),
            invariant
                n == code.len(),
                code == instructions@,
                i <= n + 2,
            ensures
                f@ == head + instruction_lines(code, 0),
            decreases n + 3 - i,
        {
            if i >= n {
                assert(f@ + Seq::<char>::empty() =~= f@);
                break;
            }
            let ghost before = f@;
            let b = instructions[i];
            if b == 0x01 {
                if n - i <= 2 {
                    write_hex_padded(&mut f, i as u64, 4);
                    f.append(": LDC <missing address>\n");
                    assert(f@ =~= before + instruction_lines(code, i as nat));
                    break;
                }
                let address: u64 = (instructions[i + 1] as u64) * 256 + instructions[i + 2] as u64;
                write_hex_padded(&mut f, i as u64, 4);
                f.append(": LDC 0x");
                write_hex_padded(&mut f, address, 4);
                f.append("\n");
                assert(before + instruction_lines(code, i as nat) =~= f@ + instruction_lines(code, (i + 3) as nat));
                i = i + 3;
            } else {
                write_hex_padded(&mut f, i as u64, 4);
                let ghost mid = f@;
                if b == 0x02 {
                    f.append(": POP\n");
                } else if b == 0x03 {
                    f.append(": ADD\n");
                } else if b == 0x04 {
                    f.append(": SUB\n");
                } else if b == 0x0A {
                    f.append(": NEG\n");
                } else if b == 0x0B {
                    f.append(": POS\n");
                } else {
                    f.append(": UNKNOWN 0x");
                    write_hex_padded(&mut f, b as u64, 2);
                    f.append("\n");
                }
                assert(before + instruction_lines(code, i as nat) =~= f@ + instruction_lines(code, (i + 1) as nat));
                i = i + 1;
            }
        }
        f.append("\nConstants:\n");
        let ghost head2 = f@;
        let ks = &self.constant;
        let m = ks.len();
        for j in 0..m
            invariant
                m == ks@.len(),
                forall|t: int| 0 <= t < ks@.len() ==> !has_float(#[trigger] ks@[t]),
                f@ + constant_lines(ks@, j as nat) == head2 + constant_lines(ks@, 0),
        {
            let ghost before = f@;
            write_hex_padded(&mut f, j as u64, 4);
            f.append(": ");
            ks[j].write_text(&mut f);
            f.append("\n");
            assert(before + constant_lines(ks@, j as nat) =~= f@ + constant_lines(ks@, (j + 1) as nat));
        }
        assert(f@ + constant_lines(ks@, m as nat) =~= f@);
        assert(f@ =~= listing(self.instructions@, self.constant@));
        f
    }
}

} // verus!
