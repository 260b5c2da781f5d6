//! The instructions of the stack machine and their bytes.
use vstd::prelude::*;

verus! {

/// Index into the constant pool.
pub type Address = u16;

pub type Byte = u8;

/// The bytes of an address, most significant first.
pub open spec fn address_bytes(a: Address) -> Seq<u8> {
    seq![(a / 256) as u8, (a % 256) as u8]
}

/// An instruction: load a constant, drop the top, add or subtract the two top values, or
/// apply unary plus or minus to the top.
#[derive(Clone, Copy, Debug, PartialEq, Eq)]
pub enum OpCode {
    OpConstant(Address),
    OpPop,
    OpAdd,
    OpSub,
    OpPlus,
    OpMinus,
}

/// The instruction table's encoding: opcode byte, then operand bytes. Unary plus is `0x0A`
/// and unary minus `0x0B` in this table; the machine and the listing use the other encoding,
/// `code_bytes`.
pub open spec fn op_bytes(op: OpCode) -> Seq<u8> {
    match op {
        OpCode::OpConstant(a) => seq![0x01u8] + address_bytes(a),
        OpCode::OpPop => seq![0x02u8],
        OpCode::OpAdd => seq![0x03u8],
        OpCode::OpSub => seq![0x04u8],
        OpCode::OpPlus => seq![0x0Au8],
        OpCode::OpMinus => seq![0x0Bu8],
    }
}

/// The encoding that the compiler emits, the machine runs and the listing names: as
/// `op_bytes`, except that unary minus (negation, listed `NEG`) is `0x0A` and unary plus (the
/// integer check, listed `POS`) is `0x0B`.
pub open spec fn code_bytes(op: OpCode) -> Seq<u8> {
    match op {
        OpCode::OpPlus => seq![0x0Bu8],
        OpCode::OpMinus => seq![0x0Au8],
        _ => op_bytes(op),
    }
}

/// The bytes of an instruction in the instruction table's encoding.
pub fn make_op(opcode: &OpCode) -> (r: Vec<u8>)
    ensures
        r@ == op_bytes(*opcode),
{
    match opcode {
        OpCode::OpConstant(arg) => {
            let b = bytes_of_address(*arg);
            let r = vec![0x01u8, b[0], b[1]];
            assert(r@ =~= op_bytes(*opcode));
            r
        },
        OpCode::OpPop => {
            let r = vec![0x02u8];
            assert(r@ =~= op_bytes(*opcode));
            r
        },
        OpCode::OpAdd => {
            let r = vec![0x03u8];
            assert(r@ =~= op_bytes(*opcode));
            r
        },
        OpCode::OpSub => {
            let r = vec![0x04u8];
            assert(r@ =~= op_bytes(*opcode));
            r
        },
        OpCode::OpPlus => {
            let r = vec![0x0Au8];
            assert(r@ =~= op_bytes(*opcode));
            r
        },
        OpCode::OpMinus => {
            let r = vec![0x0Bu8];
            assert(r@ =~= op_bytes(*opcode));
            r
        },
    }
}

/// The bytes of an instruction as the compiler emits them (see `code_bytes`).
pub fn make_byte(opcode: &OpCode) -> (r: Vec<u8>)
    ensures
        r@ == code_bytes(*opcode),
{
    match opcode {
        OpCode::OpPlus => {
            let r = vec![0x0Bu8];
            assert(r@ =~= code_bytes(*opcode));
            r
        },
        OpCode::OpMinus => {
            let r = vec![0x0Au8];
            assert(r@ =~= code_bytes(*opcode));
            r
        },
        _ => make_op(opcode),
    }
}

/// The two bytes of an address, most significant first.
pub fn bytes_of_address(address: Address) -> (r: [Byte; 2])
    ensures
        r@ == address_bytes(address),
{
    let hi = (address >> 8) as Byte;
    let lo = address as Byte;
    assert(hi == (address / 256) as u8) by (bit_vector)
        requires
            hi == (address >> 8) as u8,
    ;
    assert(lo == (address % 256) as u8) by (bit_vector)
        requires
            lo == address as u8,
    ;
    let r = [hi, lo];
    assert(r@ =~= address_bytes(address));
    r
}

/// Reading back the two bytes of an address gives the address.
pub proof fn lemma_address_roundtrip(a: Address)
    ensures
        address_bytes(a)[0] as int * 256 + address_bytes(a)[1] as int == a as int,
{
}

/// The address that two bytes, most significant first, denote.
pub fn bytes_to_address(bytes: [Byte; 2]) -> (r: Address)
    ensures
        r as int == bytes@[0] as int * 256 + bytes@[1] as int,
{
    let hi = bytes[0] as u16;
    let lo = bytes[1] as u16;
    hi * 256 + lo
}

} // verus!
