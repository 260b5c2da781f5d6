//! The stack machine that runs compiled code, and why it computes what the tree-walking back
//! end computes.
use vstd::prelude::*;
use crate::calculator::ast::{Node, Operator};
use crate::calculator::interpreter::{all_evaluable, evaluable, fits, value};
use crate::calculator::vm::bytecode::{
    hex_pad, instruction_lines, all_compilable, binary_opcode, compilable, compile_node, compile_seq, unary_opcode, Bytecode, VmInterpreter,
};
use crate::calculator::vm::opcode::{address_bytes, bytes_to_address, code_bytes, Byte, OpCode};
use crate::text::hex_text;

verus! {

/// How many values the stack holds at most.
pub const STACK_SIZE: usize = 512;

/// Running `code` from offset `ip` with the stack `stack` (top last): the final stack, or
/// `None` where the machine stops short (an unknown byte, a load without its address or of a
/// missing constant, a full stack, too few values, a value that is not an integer, or a
/// result outside the 32-bit range).
pub open spec fn vm_exec(code: Seq<u8>, ks: Seq<Node>, ip: nat, stack: Seq<Node>) -> Option<Seq<Node>>
    decreases code.len() - ip,
{
    if ip >= code.len() {
        Some(stack)
    } else {
        let op = code[ip as int];
        if op == 0x01 {
            if ip + 2 < code.len() {
                let a = (code[ip + 1 as int] as nat) * 256 + code[ip + 2 as int] as nat;
                if a < ks.len() && stack.len() < STACK_SIZE {
                    vm_exec(code, ks, ip + 3, stack.push(ks[a as int]))
                } else {
                    None
                }
            } else {
                None
            }
        } else if op == 0x02 {
            if stack.len() > 0 {
                vm_exec(code, ks, ip + 1, stack.drop_last())
            } else {
                None
            }
        } else if op == 0x03 || op == 0x04 {
            if stack.len() >= 2 {
                match (stack[stack.len() - 2], stack.last()) {
                    (Node::Int(l), Node::Int(r)) => {
                        let v = if op == 0x03 { l + r } else { l - r };
                        if fits(v) {
                            vm_exec(code, ks, ip + 1, stack.drop_last().drop_last().push(Node::Int(v as i32)))
                        } else {
                            None
                        }
                    },
                    _ => None,
                }
            } else {
                None
            }
        } else if op == 0x0A {
            if stack.len() > 0 {
                match stack.last() {
                    Node::Int(n) => if fits(-n) {
                        vm_exec(code, ks, ip + 1, stack.drop_last().push(Node::Int((-n) as i32)))
                    } else {
                        None
                    },
                    _ => None,
                }
            } else {
                None
            }
        } else if op == 0x0B {
            if stack.len() > 0 && stack.last() is Int {
                vm_exec(code, ks, ip + 1, stack)
            } else {
                None
            }
        } else {
            None
        }
    }
}

/// The results of a program: its code run from an empty stack.
pub open spec fn vm_results(ast: Seq<Node>) -> Option<Seq<Node>> {
    vm_exec(compile_seq(ast).0, compile_seq(ast).1, 0, Seq::empty())
}

/// The stack machine.
pub struct VM {
    bytecode: Bytecode,
    stack: Vec<Node>,
}

impl VM {
    fn new(bytecode: Bytecode) -> (r: VM)
        ensures
            r.bytecode == bytecode,
            r.stack@ == Seq::<Node>::empty(),
    {
        VM { bytecode, stack: Vec::new() }
    }

    fn push(&mut self, node: Node)
        requires
            old(self).stack@.len() < STACK_SIZE,
        ensures
            final(self).stack@ == old(self).stack@.push(node),
            final(self).bytecode == old(self).bytecode,
    {
        self.stack.push(node);
    }

    fn pop(&mut self) -> (r: Node)
        requires
            old(self).stack@.len() > 0,
        ensures
            r == old(self).stack@.last(),
            final(self).stack@ == old(self).stack@.drop_last(),
            final(self).bytecode == old(self).bytecode,
    {
        self.stack.pop().unwrap()
    }

    fn peek_top(&self) -> (r: &Node)
        requires
            self.stack@.len() > 0,
        ensures
            *r == self.stack@.last(),
    {
        &self.stack[self.stack.len() - 1]
    }

    /// Runs the code on the current stack; answers whether the machine got to the end.
    fn try_run(&mut self) -> (ok: bool)
        requires
            old(self).stack@.len() <= STACK_SIZE,
        ensures
            final(self).bytecode == old(self).bytecode,
            ok == vm_exec(old(self).bytecode.instructions@, old(self).bytecode.constant@, 0, old(self).stack@) is Some,
            ok ==> final(self).stack@ == vm_exec(
                old(self).bytecode.instructions@,
                old(self).bytecode.constant@,
                0,
                old(self).stack@,
            ).unwrap(),
    {
        let ghost code = self.bytecode.instructions@;
        let ghost ks = self.bytecode.constant@;
        let ghost goal = vm_exec(code, ks, 0, self.stack@);
        let n = self.bytecode.instructions.len();
        let mut ip: usize = 0;
        while ip < n
            invariant
                n == code.len(),
                code == self.bytecode.instructions@,
                ks == self.bytecode.constant@,
                self.bytecode == old(self).bytecode,
                ip <= n,
                vm_exec(code, ks, ip as nat, self.stack@) == goal,
                goal == vm_exec(old(self).bytecode.instructions@, old(self).bytecode.constant@, 0, old(self).stack@),
                self.stack@.len() <= STACK_SIZE,
            decreases n - ip,
        {
            let instruction_addr = ip;
            ip = ip + 1;
            let op: Byte = self.bytecode.instructions[instruction_addr];
            if op == 0x01 {
                if n - instruction_addr <= 2 {
                    assert(code[instruction_addr as int] == 0x01);
                    assert(!(instruction_addr + 2 < code.len()));
                    assert(vm_exec(code, ks, instruction_addr as nat, self.stack@) is None);
                    return false;
                }
                let bytes = [
                    self.bytecode.instructions[instruction_addr + 1],
                    self.bytecode.instructions[instruction_addr + 2],
                ];
                let address = bytes_to_address(bytes);
                ip = ip + 2;
                if address as usize >= self.bytecode.constant.len() || self.stack.len() >= STACK_SIZE {
                    return false;
                }
                let node = self.bytecode.constant[address as usize].clone();
                self.push(node);
            } else if op == 0x02 {
                if self.stack.len() == 0 {
                    return false;
                }
                let _ = self.pop();
            } else if op == 0x03 || op == 0x04 {
                if self.stack.len() < 2 {
                    return false;
                }
                let ghost before = self.stack@;
                let r = self.pop();
                let l = self.pop();
                assert(before.drop_last().last() == before[before.len() - 2]);
                match (l, r) {
                    (Node::Int(l), Node::Int(r)) => {
                        let v = if op == 0x03 { l.checked_add(r) } else { l.checked_sub(r) };
                        match v {
                            Some(v) => self.push(Node::Int(v)),
                            None => return false,
                        }
                    },
                    _ => return false,
                }
            } else if op == 0x0A {
                if self.stack.len() == 0 {
                    return false;
                }
                match self.pop() {
                    Node::Int(m) => match 0i32.checked_sub(m) {
                        Some(v) => self.push(Node::Int(v)),
                        None => return false,
                    },
                    _ => return false,
                }
            } else if op == 0x0B {
                if self.stack.len() == 0 {
                    return false;
                }
                let top_is_int = match self.peek_top() {
                    Node::Int(_) => true,
                    _ => false,
                };
                if !top_is_int {
                    return false;
                }
            } else {
                return false;
            }
        }
        true
    }

    /// Compiles and runs the program; answers the values left on the stack, bottom first.
    pub fn from_ast(ast: Vec<Node>) -> (r: Vec<Node>)
        requires
            all_compilable(ast@),
            vm_results(ast@) is Some,
        ensures
            r@ == vm_results(ast@).unwrap(),
    {
        let bytecode = VmInterpreter::from_ast(ast);
        let mut vm = VM::new(bytecode);
        let _ = vm.try_run();
        vm.stack
    }

    /// `from_ast`, or `None` where compiling or running the program would stop short.
    pub fn try_from_ast(ast: Vec<Node>) -> (r: Option<Vec<Node>>)
        ensures
            match r {
                Some(v) => all_compilable(ast@) && vm_results(ast@) == Some(v@),
                None => !all_compilable(ast@) || vm_results(ast@) is None,
            },
    {
        for k in 0..ast.len()
            invariant
                forall|i: int| 0 <= i < k ==> compilable(#[trigger] ast@[i]),
        {
            if !is_compilable(&ast[k]) {
                return None;
            }
        }
        let bytecode = VmInterpreter::from_ast(ast);
        let mut vm = VM::new(bytecode);
        if vm.try_run() {
            Some(vm.stack)
        } else {
            None
        }
    }
}

fn is_compilable(n: &Node) -> (r: bool)
    ensures
        r == compilable(*n),
    decreases n,
{
    match n {
        Node::Int(_) => true,
        Node::Float(_) => false,
        Node::UnaryExpr { op, child } => is_compilable(child) && (*op == Operator::Plus || *op == Operator::Min),
        Node::BinaryExpr { op, lhs, rhs } => is_compilable(lhs) && is_compilable(rhs) && (*op == Operator::Plus
            || *op == Operator::Min),
    }
}


/// How many stack slots evaluating `n` uses at most, counting its result.
pub open spec fn depth(n: Node) -> nat
    decreases n,
{
    match n {
        Node::Int(_) => 1,
        Node::Float(_) => 0,
        Node::UnaryExpr { op: _, child } => depth(*child),
        Node::BinaryExpr { op: _, lhs, rhs } => {
            let l = depth(*lhs);
            let r = depth(*rhs) + 1;
            if l >= r { l } else { r }
        },
    }
}

/// The values of the expressions, as integer literals.
pub open spec fn int_results(ast: Seq<Node>) -> Seq<Node> {
    Seq::new(ast.len(), |i: int| Node::Int(value(ast[i]) as i32))
}

proof fn lemma_evaluable_compilable(n: Node)
    requires
        evaluable(n),
    ensures
        compilable(n),
        depth(n) >= 1,
    decreases n,
{
    match n {
        Node::UnaryExpr { op: _, child } => lemma_evaluable_compilable(*child),
        Node::BinaryExpr { op: _, lhs, rhs } => {
            lemma_evaluable_compilable(*lhs);
            lemma_evaluable_compilable(*rhs);
        },
        _ => {},
    }
}

proof fn lemma_value_fits(n: Node)
    requires
        evaluable(n),
    ensures
        fits(value(n)),
    decreases n,
{
    match n {
        Node::UnaryExpr { op: _, child } => lemma_value_fits(*child),
        Node::BinaryExpr { op: _, lhs, rhs } => {
            lemma_value_fits(*lhs);
            lemma_value_fits(*rhs);
        },
        _ => {},
    }
}

/// A piece of a piece of a sequence is a piece of the sequence.
proof fn lemma_piece<T>(s: Seq<T>, at: int, whole: Seq<T>, off: int, part: Seq<T>)
    requires
        0 <= at,
        at + whole.len() <= s.len(),
        s.subrange(at, at + whole.len()) == whole,
        0 <= off,
        off + part.len() <= whole.len(),
        whole.subrange(off, off + part.len()) == part,
    ensures
        s.subrange(at + off, at + off + part.len()) == part,
{
    assert forall|t: int| 0 <= t < part.len() implies #[trigger] s.subrange(at + off, at + off + part.len())[t] == part[t] by {
        assert(s.subrange(at, at + whole.len())[off + t] == whole[off + t]);
        assert(whole.subrange(off, off + part.len())[t] == whole[off + t]);
    }
    assert(s.subrange(at + off, at + off + part.len()) =~= part);
}

/// Running the code of `n` where it stands in `code` pushes the value of `n`.
proof fn lemma_compile_node(n: Node, code: Seq<u8>, ks: Seq<Node>, base: nat, ip: nat, st: Seq<Node>)
    requires
        evaluable(n),
        ip + compile_node(n, base).0.len() <= code.len(),
        code.subrange(ip as int, ip + compile_node(n, base).0.len() as int) == compile_node(n, base).0,
        base + compile_node(n, base).1.len() <= ks.len(),
        ks.subrange(base as int, base + compile_node(n, base).1.len() as int) == compile_node(n, base).1,
        base + compile_node(n, base).1.len() <= 65536,
        st.len() + depth(n) <= STACK_SIZE,
    ensures
        vm_exec(code, ks, ip, st) == vm_exec(
            code,
            ks,
            ip + compile_node(n, base).0.len(),
            st.push(Node::Int(value(n) as i32)),
        ),
    decreases n,
{
    let (c, k) = compile_node(n, base);
    match n {
        Node::Int(v) => {
            let a = (base % 65536) as u16;
            assert(a == base);
            assert(code[ip as int] == c[0]);
            assert(code[ip + 1int] == c[1]);
            assert(code[ip + 2int] == c[2]);
            assert((c[1] as nat) * 256 + c[2] as nat == base) by {
                assert(c[1] == (a / 256) as u8);
                assert(c[2] == (a % 256) as u8);
            }
            assert(ks[base as int] == k[0]);
        },
        Node::Float(_) => {},
        Node::UnaryExpr { op, child } => {
            let (cc, kc) = compile_node(*child, base);
            assert(c =~= cc + code_bytes(unary_opcode(op)));
            assert(c.subrange(0, cc.len() as int) =~= cc);
            lemma_piece(code, ip as int, c, 0, cc);
            lemma_compile_node(*child, code, ks, base, ip, st);
            assert(code[ip + cc.len() as int] == c[cc.len() as int]);
            lemma_value_fits(*child);
            let st1 = st.push(Node::Int(value(*child) as i32));
            if op == Operator::Min {
                assert(st1.drop_last().push(Node::Int((-value(*child)) as i32)) =~= st.push(Node::Int(value(n) as i32)));
            }
        },
        Node::BinaryExpr { op, lhs, rhs } => {
            let (cl, kl) = compile_node(*lhs, base);
            let (cr, kr) = compile_node(*rhs, base + kl.len());
            assert(c =~= cl + cr + code_bytes(binary_opcode(op)));
            assert(k =~= kl + kr);
            assert(c.subrange(0, cl.len() as int) =~= cl);
            assert(c.subrange(cl.len() as int, cl.len() + cr.len() as int) =~= cr);
            assert(k.subrange(0, kl.len() as int) =~= kl);
            assert(k.subrange(kl.len() as int, kl.len() + kr.len() as int) =~= kr);
            lemma_piece(code, ip as int, c, 0, cl);
            lemma_piece(code, ip as int, c, cl.len() as int, cr);
            lemma_piece(ks, base as int, k, 0, kl);
            lemma_piece(ks, base as int, k, kl.len() as int, kr);
            lemma_compile_node(*lhs, code, ks, base, ip, st);
            let st1 = st.push(Node::Int(value(*lhs) as i32));
            lemma_compile_node(*rhs, code, ks, base + kl.len(), ip + cl.len(), st1);
            let st2 = st1.push(Node::Int(value(*rhs) as i32));
            assert(code[ip + cl.len() + cr.len() as int] == c[cl.len() + cr.len() as int]);
            lemma_value_fits(*lhs);
            lemma_value_fits(*rhs);
            assert(st2[st2.len() - 2] == Node::Int(value(*lhs) as i32));
            assert(st2.drop_last().drop_last() =~= st);
        },
    }
}

/// The code and constants of a prefix of a program stand at the start of those of the whole.
proof fn lemma_compile_prefix(a: Seq<Node>, j: nat, k: nat)
    requires
        j <= k <= a.len(),
    ensures
        compile_seq(a.take(j as int)).0.len() <= compile_seq(a.take(k as int)).0.len(),
        compile_seq(a.take(k as int)).0.subrange(0, compile_seq(a.take(j as int)).0.len() as int)
            == compile_seq(a.take(j as int)).0,
        compile_seq(a.take(j as int)).1.len() <= compile_seq(a.take(k as int)).1.len(),
        compile_seq(a.take(k as int)).1.subrange(0, compile_seq(a.take(j as int)).1.len() as int)
            == compile_seq(a.take(j as int)).1,
    decreases k - j,
{
    if j < k {
        lemma_compile_prefix(a, j, (k - 1) as nat);
        assert(a.take(k as int).drop_last() =~= a.take(k - 1));
        let (c0, k0) = compile_seq(a.take(k - 1));
        let (cj, kj) = compile_seq(a.take(j as int));
        let (ck, kk) = compile_seq(a.take(k as int));
        assert(ck.subrange(0, c0.len() as int) =~= c0);
        assert(kk.subrange(0, k0.len() as int) =~= k0);
        lemma_piece(ck, 0, c0, 0, cj);
        lemma_piece(kk, 0, k0, 0, kj);
    } else {
        assert(compile_seq(a.take(k as int)).0.subrange(0, compile_seq(a.take(j as int)).0.len() as int)
            =~= compile_seq(a.take(j as int)).0);
        assert(compile_seq(a.take(k as int)).1.subrange(0, compile_seq(a.take(j as int)).1.len() as int)
            =~= compile_seq(a.take(j as int)).1);
    }
}

/// The stack machine and the tree-walking back end agree: running the compiled program
/// leaves, bottom first, the value of each expression, as computed by `value`, which
/// `Interpreter::from_ast` returns. This holds where every expression can be evaluated, the
/// constant pool holds at most 2^16 entries, and no expression, with the results of those
/// before it, needs more than the stack's 512 slots.
pub proof fn theorem_vm_agrees_with_interpreter(ast: Seq<Node>)
    requires
        all_evaluable(ast),
        compile_seq(ast).1.len() <= 65536,
        forall|k: int| 0 <= k < ast.len() ==> k + depth(#[trigger] ast[k]) <= STACK_SIZE,
    ensures
        all_compilable(ast),
        vm_results(ast) == Some(int_results(ast)),
{
    assert forall|i: int| 0 <= i < ast.len() implies compilable(#[trigger] ast[i]) by {
        lemma_evaluable_compilable(ast[i]);
    }
    assert(ast.take(ast.len() as int) =~= ast);
    lemma_run_from(ast, 0);
    assert(ast.take(0) =~= Seq::<Node>::empty());
    assert(int_results(ast.take(0)) =~= Seq::<Node>::empty());
}

/// Running the compiled program from where the code of `ast[k]` starts, with the values of
/// the expressions before it on the stack, ends with the values of all of them.
proof fn lemma_run_from(ast: Seq<Node>, k: nat)
    requires
        k <= ast.len(),
        all_evaluable(ast),
        compile_seq(ast).1.len() <= 65536,
        forall|t: int| 0 <= t < ast.len() ==> t + depth(#[trigger] ast[t]) <= STACK_SIZE,
        ast.take(ast.len() as int) == ast,
    ensures
        vm_exec(compile_seq(ast).0, compile_seq(ast).1, compile_seq(ast.take(k as int)).0.len(), int_results(ast.take(k as int)))
            == Some(int_results(ast)),
    decreases ast.len() - k,
{
    let n = ast.len();
    let code = compile_seq(ast).0;
    let ks = compile_seq(ast).1;
    if k == n {
        assert(int_results(ast.take(k as int)) == int_results(ast));
    } else {
        lemma_run_from(ast, k + 1);
        let j = k;
        let k1 = k + 1;
        lemma_compile_prefix(ast, j, n);
        lemma_compile_prefix(ast, k1, n);
        assert(ast.take(k1 as int).drop_last() =~= ast.take(j as int));
        let (cj, kj) = compile_seq(ast.take(j as int));
        let (cn, kn) = compile_node(ast[j as int], kj.len());
        assert(compile_seq(ast.take(k1 as int)) == (cj + cn, kj + kn));
        assert((cj + cn).subrange(cj.len() as int, cj.len() + cn.len() as int) =~= cn);
        assert((kj + kn).subrange(kj.len() as int, kj.len() + kn.len() as int) =~= kn);
        lemma_piece(code, 0, cj + cn, cj.len() as int, cn);
        lemma_piece(ks, 0, kj + kn, kj.len() as int, kn);
        assert(int_results(ast.take(j as int)).len() == j);
        assert(evaluable(ast[j as int]));
        lemma_compile_node(ast[j as int], code, ks, kj.len(), cj.len(), int_results(ast.take(j as int)));
        assert(int_results(ast.take(j as int)).push(Node::Int(value(ast[j as int]) as i32)) =~= int_results(ast.take(k1 as int)));
    }
}

// ---------------------------------------------------------------- listing and machine

/// The name that the listing gives a one-byte instruction other than a load.
spec fn listed_name(b: u8) -> Seq<char> {
    if b == 0x02 {
        ": POP\n"@
    } else if b == 0x03 {
        ": ADD\n"@
    } else if b == 0x04 {
        ": SUB\n"@
    } else if b == 0x0A {
        ": NEG\n"@
    } else if b == 0x0B {
        ": POS\n"@
    } else {
        ": UNKNOWN 0x"@ + hex_pad(b as nat, 2) + "\n"@
    }
}

/// The listing of a single byte: its offset, then its name.
proof fn lemma_single_byte_listing(b: u8, name: Seq<char>)
    requires
        instruction_lines(seq![b], 0) == hex_pad(0, 4) + name,
        name.len() == 6,
    ensures
        b != 0x01,
        listed_name(b) == name,
        name[2] == 'P' ==> b == 0x02 || b == 0x0B,
        name[2] == 'A' ==> b == 0x03,
        name[2] == 'S' ==> b == 0x04,
        name[2] == 'N' ==> b == 0x0A,
        name[3] == 'O' && name[4] == 'P' ==> b == 0x02,
        name[3] == 'O' && name[4] == 'S' ==> b == 0x0B,
{
    reveal_strlit(": POP\n");
    reveal_strlit(": ADD\n");
    reveal_strlit(": SUB\n");
    reveal_strlit(": NEG\n");
    reveal_strlit(": POS\n");
    reveal_strlit(": UNKNOWN 0x");
    reveal_strlit("\n");
    reveal_strlit(": LDC <missing address>\n");
    let code = seq![b];
    let pad = hex_pad(0, 4);
    assert(hex_text(0, true) =~= seq!['0']) by {
        reveal_with_fuel(hex_text, 2);
    }
    assert(pad.len() == 4);
    assert(instruction_lines(code, 1) == Seq::<char>::empty());
    if b == 0x01 {
        assert(instruction_lines(code, 0).len() == 4 + 24);
        assert(false);
    } else {
        assert(instruction_lines(code, 0) == pad + listed_name(b) + instruction_lines(code, 1));
        assert(pad + listed_name(b) + Seq::<char>::empty() =~= pad + listed_name(b));
        assert((pad + listed_name(b)).subrange(4, (pad + listed_name(b)).len() as int) =~= listed_name(b));
        assert((pad + name).subrange(4, (pad + name).len() as int) =~= name);
        if !(b == 0x02 || b == 0x03 || b == 0x04 || b == 0x0A || b == 0x0B) {
            assert(listed_name(b).len() >= 15);
        }
    }
}

/// The listing names every one-byte instruction by what the machine does with it: a byte
/// listed `ADD` replaces the two top integers by their sum and one listed `SUB` by the lower
/// minus the top, one listed `NEG` replaces the top integer by its negation, one listed `POS`
/// leaves an integer on top as it is, and one listed `POP` drops the top.
pub proof fn theorem_listing_names_machine_steps(b: u8, ks: Seq<Node>, below: Seq<Node>, l: i32, r: i32)
    ensures
        instruction_lines(seq![b], 0) == hex_pad(0, 4) + ": ADD\n"@ && fits(l + r) ==> vm_exec(
            seq![b],
            ks,
            0,
            below + seq![Node::Int(l), Node::Int(r)],
        ) == Some(below.push(Node::Int((l + r) as i32))),
        instruction_lines(seq![b], 0) == hex_pad(0, 4) + ": SUB\n"@ && fits(l - r) ==> vm_exec(
            seq![b],
            ks,
            0,
            below + seq![Node::Int(l), Node::Int(r)],
        ) == Some(below.push(Node::Int((l - r) as i32))),
        instruction_lines(seq![b], 0) == hex_pad(0, 4) + ": NEG\n"@ && fits(-l) ==> vm_exec(
            seq![b],
            ks,
            0,
            below.push(Node::Int(l)),
        ) == Some(below.push(Node::Int((-l) as i32))),
        instruction_lines(seq![b], 0) == hex_pad(0, 4) + ": POS\n"@ ==> vm_exec(seq![b], ks, 0, below.push(Node::Int(l)))
            == Some(below.push(Node::Int(l))),
        instruction_lines(seq![b], 0) == hex_pad(0, 4) + ": POP\n"@ ==> vm_exec(seq![b], ks, 0, below.push(Node::Int(l)))
            == Some(below),
{
    reveal_strlit(": POP\n");
    reveal_strlit(": ADD\n");
    reveal_strlit(": SUB\n");
    reveal_strlit(": NEG\n");
    reveal_strlit(": POS\n");
    let pad = hex_pad(0, 4);
    let two = below + seq![Node::Int(l), Node::Int(r)];
    assert(two.drop_last().drop_last() =~= below);
    assert(two[two.len() - 2] == Node::Int(l));
    assert(two.last() == Node::Int(r));
    let one = below.push(Node::Int(l));
    assert(one.drop_last() =~= below);
    if instruction_lines(seq![b], 0) == pad + ": ADD\n"@ {
        lemma_single_byte_listing(b, ": ADD\n"@);
        assert(two.len() >= 2);
        let after = two.drop_last().drop_last().push(Node::Int((l + r) as i32));
        assert(vm_exec(seq![b], ks, 1, after) == Some(after));
        assert(after =~= below.push(Node::Int((l + r) as i32)));
    }
    if instruction_lines(seq![b], 0) == pad + ": SUB\n"@ {
        lemma_single_byte_listing(b, ": SUB\n"@);
        assert(two.len() >= 2);
        let after = two.drop_last().drop_last().push(Node::Int((l - r) as i32));
        assert(vm_exec(seq![b], ks, 1, after) == Some(after));
        assert(after =~= below.push(Node::Int((l - r) as i32)));
    }
    if instruction_lines(seq![b], 0) == pad + ": NEG\n"@ {
        lemma_single_byte_listing(b, ": NEG\n"@);
        assert(one.last() == Node::Int(l));
        let after = one.drop_last().push(Node::Int((-l) as i32));
        assert(vm_exec(seq![b], ks, 1, after) == Some(after));
        assert(after =~= below.push(Node::Int((-l) as i32)));
    }
    if instruction_lines(seq![b], 0) == pad + ": POS\n"@ {
        lemma_single_byte_listing(b, ": POS\n"@);
        assert(one.last() == Node::Int(l));
        assert(vm_exec(seq![b], ks, 1, one) == Some(one));
    }
    if instruction_lines(seq![b], 0) == pad + ": POP\n"@ {
        lemma_single_byte_listing(b, ": POP\n"@);
        assert(vm_exec(seq![b], ks, 1, one.drop_last()) == Some(one.drop_last()));
    }
}

} // verus!
