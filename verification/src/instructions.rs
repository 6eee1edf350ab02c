//! The instruction set: opcodes with fixed operand widths (0, 1 or 2
//! bytes), the whole-instruction form `Op` that carries its operand, and
//! the byte encoding shared by the emitter, the disassembler and the
//! virtual machine. Sixteen-bit operands are stored big-endian.

use vstd::prelude::*;

verus! {

/// The opcodes. Byte values start at 1, so byte 0 is never a valid
/// instruction.
#[derive(Clone, Copy, PartialEq, Eq, Structural, Debug)]
pub enum Opcode {
    Return,
    Jump,
    JumpIfFalse,
    Loop,
    Print,
    Pop,
    Constant,
    DefineGlobal,
    GetGlobal,
    SetGlobal,
    GetLocal,
    SetLocal,
    Nil,
    True,
    False,
    Not,
    Negate,
    Equal,
    Greater,
    Less,
    Add,
    Subtract,
    Multiply,
    Divide,
}

/// A whole instruction: an opcode together with its operand, if any.
/// Jump distances are `u16`; constant-pool and stack-slot indices are
/// single bytes.
#[derive(Clone, Copy, PartialEq, Eq, Structural, Debug)]
pub enum Op {
    Return,
    Jump(u16),
    JumpIfFalse(u16),
    Loop(u16),
    Print,
    Pop,
    Constant(u8),
    DefineGlobal(u8),
    GetGlobal(u8),
    SetGlobal(u8),
    GetLocal(u8),
    SetLocal(u8),
    Nil,
    True,
    False,
    Not,
    Negate,
    Equal,
    Greater,
    Less,
    Add,
    Subtract,
    Multiply,
    Divide,
}

/// The byte that encodes `op`.
pub open spec fn spec_opcode_byte(op: Opcode) -> u8 {
    match op {
        Opcode::Return => 1,
        Opcode::Jump => 2,
        Opcode::JumpIfFalse => 3,
        Opcode::Loop => 4,
        Opcode::Print => 5,
        Opcode::Pop => 6,
        Opcode::Constant => 7,
        Opcode::DefineGlobal => 8,
        Opcode::GetGlobal => 9,
        Opcode::SetGlobal => 10,
        Opcode::GetLocal => 11,
        Opcode::SetLocal => 12,
        Opcode::Nil => 13,
        Opcode::True => 14,
        Opcode::False => 15,
        Opcode::Not => 16,
        Opcode::Negate => 17,
        Opcode::Equal => 18,
        Opcode::Greater => 19,
        Opcode::Less => 20,
        Opcode::Add => 21,
        Opcode::Subtract => 22,
        Opcode::Multiply => 23,
        Opcode::Divide => 24,
    }
}

/// The opcode that byte `b` encodes, if any.
pub open spec fn spec_opcode_of_byte(b: u8) -> Option<Opcode> {
    if b == 1 {
        Some(Opcode::Return)
    } else if b == 2 {
        Some(Opcode::Jump)
    } else if b == 3 {
        Some(Opcode::JumpIfFalse)
    } else if b == 4 {
        Some(Opcode::Loop)
    } else if b == 5 {
        Some(Opcode::Print)
    } else if b == 6 {
        Some(Opcode::Pop)
    } else if b == 7 {
        Some(Opcode::Constant)
    } else if b == 8 {
        Some(Opcode::DefineGlobal)
    } else if b == 9 {
        Some(Opcode::GetGlobal)
    } else if b == 10 {
        Some(Opcode::SetGlobal)
    } else if b == 11 {
        Some(Opcode::GetLocal)
    } else if b == 12 {
        Some(Opcode::SetLocal)
    } else if b == 13 {
        Some(Opcode::Nil)
    } else if b == 14 {
        Some(Opcode::True)
    } else if b == 15 {
        Some(Opcode::False)
    } else if b == 16 {
        Some(Opcode::Not)
    } else if b == 17 {
        Some(Opcode::Negate)
    } else if b == 18 {
        Some(Opcode::Equal)
    } else if b == 19 {
        Some(Opcode::Greater)
    } else if b == 20 {
        Some(Opcode::Less)
    } else if b == 21 {
        Some(Opcode::Add)
    } else if b == 22 {
        Some(Opcode::Subtract)
    } else if b == 23 {
        Some(Opcode::Multiply)
    } else if b == 24 {
        Some(Opcode::Divide)
    } else {
        None
    }
}

/// How many operand bytes follow the opcode byte.
pub open spec fn spec_operand_width(oc: Opcode) -> nat {
    match oc {
        Opcode::Jump | Opcode::JumpIfFalse | Opcode::Loop => 2,
        Opcode::Constant | Opcode::DefineGlobal | Opcode::GetGlobal | Opcode::SetGlobal
            | Opcode::GetLocal | Opcode::SetLocal => 1,
        _ => 0,
    }
}

/// The opcode of a whole instruction.
pub open spec fn spec_op_opcode(op: Op) -> Opcode {
    match op {
        Op::Return => Opcode::Return,
        Op::Jump(_) => Opcode::Jump,
        Op::JumpIfFalse(_) => Opcode::JumpIfFalse,
        Op::Loop(_) => Opcode::Loop,
        Op::Print => Opcode::Print,
        Op::Pop => Opcode::Pop,
        Op::Constant(_) => Opcode::Constant,
        Op::DefineGlobal(_) => Opcode::DefineGlobal,
        Op::GetGlobal(_) => Opcode::GetGlobal,
        Op::SetGlobal(_) => Opcode::SetGlobal,
        Op::GetLocal(_) => Opcode::GetLocal,
        Op::SetLocal(_) => Opcode::SetLocal,
        Op::Nil => Opcode::Nil,
        Op::True => Opcode::True,
        Op::False => Opcode::False,
        Op::Not => Opcode::Not,
        Op::Negate => Opcode::Negate,
        Op::Equal => Opcode::Equal,
        Op::Greater => Opcode::Greater,
        Op::Less => Opcode::Less,
        Op::Add => Opcode::Add,
        Op::Subtract => Opcode::Subtract,
        Op::Multiply => Opcode::Multiply,
        Op::Divide => Opcode::Divide,
    }
}

/// The byte encoding of a whole instruction: the opcode byte, then the
/// operand; a `u16` operand is stored big-endian.
pub open spec fn spec_encode_op(op: Op) -> Seq<u8> {
    let oc = spec_op_opcode(op);
    match op {
        Op::Jump(d) | Op::JumpIfFalse(d) | Op::Loop(d) => seq![
            spec_opcode_byte(oc),
            (d / 256) as u8,
            (d % 256) as u8,
        ],
        Op::Constant(v) | Op::DefineGlobal(v) | Op::GetGlobal(v) | Op::SetGlobal(v)
            | Op::GetLocal(v) | Op::SetLocal(v) => seq![spec_opcode_byte(oc), v],
        _ => seq![spec_opcode_byte(oc)],
    }
}

/// The instruction that `code` holds at `pos`, with the position just
/// past it: the opcode byte must be valid and the operand complete.
pub open spec fn spec_decode(code: Seq<u8>, pos: int) -> Option<(Op, int)> {
    if 0 <= pos < code.len() {
        match spec_opcode_of_byte(code[pos]) {
            Some(oc) => {
                if pos + 1 + spec_operand_width(oc) <= code.len() {
                    Some((spec_decode_with(oc, code, pos), pos + 1 + spec_operand_width(oc)))
                } else {
                    None
                }
            },
            None => None,
        }
    } else {
        None
    }
}

/// The instruction for opcode `oc` whose operand bytes sit just past
/// `pos`.
pub open spec fn spec_decode_with(oc: Opcode, code: Seq<u8>, pos: int) -> Op {
    match oc {
        Opcode::Return => Op::Return,
        Opcode::Jump => Op::Jump((code[pos + 1] * 256 + code[pos + 2]) as u16),
        Opcode::JumpIfFalse => Op::JumpIfFalse((code[pos + 1] * 256 + code[pos + 2]) as u16),
        Opcode::Loop => Op::Loop((code[pos + 1] * 256 + code[pos + 2]) as u16),
        Opcode::Print => Op::Print,
        Opcode::Pop => Op::Pop,
        Opcode::Constant => Op::Constant(code[pos + 1]),
        Opcode::DefineGlobal => Op::DefineGlobal(code[pos + 1]),
        Opcode::GetGlobal => Op::GetGlobal(code[pos + 1]),
        Opcode::SetGlobal => Op::SetGlobal(code[pos + 1]),
        Opcode::GetLocal => Op::GetLocal(code[pos + 1]),
        Opcode::SetLocal => Op::SetLocal(code[pos + 1]),
        Opcode::Nil => Op::Nil,
        Opcode::True => Op::True,
        Opcode::False => Op::False,
        Opcode::Not => Op::Not,
        Opcode::Negate => Op::Negate,
        Opcode::Equal => Op::Equal,
        Opcode::Greater => Op::Greater,
        Opcode::Less => Op::Less,
        Opcode::Add => Op::Add,
        Opcode::Subtract => Op::Subtract,
        Opcode::Multiply => Op::Multiply,
        Opcode::Divide => Op::Divide,
    }
}

/// The opcode of a whole instruction.
pub fn op_opcode(op: &Op) -> (r: Opcode)
    ensures
        r == spec_op_opcode(*op),
{
    match op {
        Op::Return => Opcode::Return,
        Op::Jump(_) => Opcode::Jump,
        Op::JumpIfFalse(_) => Opcode::JumpIfFalse,
        Op::Loop(_) => Opcode::Loop,
        Op::Print => Opcode::Print,
        Op::Pop => Opcode::Pop,
        Op::Constant(_) => Opcode::Constant,
        Op::DefineGlobal(_) => Opcode::DefineGlobal,
        Op::GetGlobal(_) => Opcode::GetGlobal,
        Op::SetGlobal(_) => Opcode::SetGlobal,
        Op::GetLocal(_) => Opcode::GetLocal,
        Op::SetLocal(_) => Opcode::SetLocal,
        Op::Nil => Opcode::Nil,
        Op::True => Opcode::True,
        Op::False => Opcode::False,
        Op::Not => Opcode::Not,
        Op::Negate => Opcode::Negate,
        Op::Equal => Opcode::Equal,
        Op::Greater => Opcode::Greater,
        Op::Less => Opcode::Less,
        Op::Add => Opcode::Add,
        Op::Subtract => Opcode::Subtract,
        Op::Multiply => Opcode::Multiply,
        Op::Divide => Opcode::Divide,
    }
}

impl Opcode {
    /// The byte that encodes this opcode.
    pub fn to_byte(self) -> (r: u8)
        ensures
            r == spec_opcode_byte(self),
    {
        match self {
            Opcode::Return => 1,
            Opcode::Jump => 2,
            Opcode::JumpIfFalse => 3,
            Opcode::Loop => 4,
            Opcode::Print => 5,
            Opcode::Pop => 6,
            Opcode::Constant => 7,
            Opcode::DefineGlobal => 8,
            Opcode::GetGlobal => 9,
            Opcode::SetGlobal => 10,
            Opcode::GetLocal => 11,
            Opcode::SetLocal => 12,
            Opcode::Nil => 13,
            Opcode::True => 14,
            Opcode::False => 15,
            Opcode::Not => 16,
            Opcode::Negate => 17,
            Opcode::Equal => 18,
            Opcode::Greater => 19,
            Opcode::Less => 20,
            Opcode::Add => 21,
            Opcode::Subtract => 22,
            Opcode::Multiply => 23,
            Opcode::Divide => 24,
        }
    }

    /// The opcode that `b` encodes; `None` for a byte outside the
    /// instruction set.
    pub fn from_byte(b: u8) -> (r: Option<Opcode>)
        ensures
            r == spec_opcode_of_byte(b),
    {
        if b == 1 {
            Some(Opcode::Return)
        } else if b == 2 {
            Some(Opcode::Jump)
        } else if b == 3 {
            Some(Opcode::JumpIfFalse)
        } else if b == 4 {
            Some(Opcode::Loop)
        } else if b == 5 {
            Some(Opcode::Print)
        } else if b == 6 {
            Some(Opcode::Pop)
        } else if b == 7 {
            Some(Opcode::Constant)
        } else if b == 8 {
            Some(Opcode::DefineGlobal)
        } else if b == 9 {
            Some(Opcode::GetGlobal)
        } else if b == 10 {
            Some(Opcode::SetGlobal)
        } else if b == 11 {
            Some(Opcode::GetLocal)
        } else if b == 12 {
            Some(Opcode::SetLocal)
        } else if b == 13 {
            Some(Opcode::Nil)
        } else if b == 14 {
            Some(Opcode::True)
        } else if b == 15 {
            Some(Opcode::False)
        } else if b == 16 {
            Some(Opcode::Not)
        } else if b == 17 {
            Some(Opcode::Negate)
        } else if b == 18 {
            Some(Opcode::Equal)
        } else if b == 19 {
            Some(Opcode::Greater)
        } else if b == 20 {
            Some(Opcode::Less)
        } else if b == 21 {
            Some(Opcode::Add)
        } else if b == 22 {
            Some(Opcode::Subtract)
        } else if b == 23 {
            Some(Opcode::Multiply)
        } else if b == 24 {
            Some(Opcode::Divide)
        } else {
            None
        }
    }
}

/// Encoding an opcode and reading the byte back yields the opcode: the
/// enum-to-byte mapping is one-to-one.
pub proof fn lemma_opcode_byte_round_trip(op: Opcode)
    ensures
        spec_opcode_of_byte(spec_opcode_byte(op)) == Some(op),
{
}

/// Reading a valid opcode byte and encoding the opcode again yields the
/// byte.
pub proof fn lemma_byte_opcode_round_trip(b: u8)
    requires
        spec_opcode_of_byte(b) is Some,
    ensures
        spec_opcode_byte(spec_opcode_of_byte(b)->Some_0) == b,
{
}

/// Decoding what `spec_encode_op` wrote, wherever it stands in a longer
/// code sequence, yields the original instruction and steps just past it:
/// one direction of the disassembly round trip.
pub proof fn lemma_encode_decode(before: Seq<u8>, op: Op, after: Seq<u8>)
    ensures
        spec_decode(before + spec_encode_op(op) + after, before.len() as int) == Some(
            (op, before.len() + spec_encode_op(op).len() as int),
        ),
{
    let code = before + spec_encode_op(op) + after;
    let pos = before.len() as int;
    let enc = spec_encode_op(op);
    assert(code[pos] == enc[0]);
    lemma_opcode_byte_round_trip(spec_op_opcode(op));
    match op {
        Op::Jump(d) | Op::JumpIfFalse(d) | Op::Loop(d) => {
            assert(code[pos + 1] == enc[1]);
            assert(code[pos + 2] == enc[2]);
            assert(d / 256 * 256 + d % 256 == d) by (nonlinear_arith);
            assert(d / 256 < 256) by (nonlinear_arith);
        },
        Op::Constant(v) | Op::DefineGlobal(v) | Op::GetGlobal(v) | Op::SetGlobal(v)
            | Op::GetLocal(v) | Op::SetLocal(v) => {
            assert(code[pos + 1] == enc[1]);
        },
        _ => {},
    }
}

/// Re-encoding a decoded instruction reproduces exactly the bytes it was
/// read from: the other direction of the disassembly round trip.
pub proof fn lemma_decode_encode(code: Seq<u8>, pos: int, op: Op, next: int)
    requires
        spec_decode(code, pos) == Some((op, next)),
    ensures
        next - pos == spec_encode_op(op).len(),
        code.subrange(pos, next) == spec_encode_op(op),
{
    let oc = spec_opcode_of_byte(code[pos])->Some_0;
    lemma_byte_opcode_round_trip(code[pos]);
    let enc = spec_encode_op(op);
    match op {
        Op::Jump(d) | Op::JumpIfFalse(d) | Op::Loop(d) => {
            assert(d == code[pos + 1] * 256 + code[pos + 2]);
            assert(d / 256 == code[pos + 1] && d % 256 == code[pos + 2]) by (nonlinear_arith)
                requires
                    d == code[pos + 1] * 256 + code[pos + 2],
                    code[pos + 1] < 256,
                    code[pos + 2] < 256,
            ;
            assert(code.subrange(pos, next) =~= enc);
        },
        Op::Constant(_) | Op::DefineGlobal(_) | Op::GetGlobal(_) | Op::SetGlobal(_)
            | Op::GetLocal(_) | Op::SetLocal(_) => {
            assert(code.subrange(pos, next) =~= enc);
        },
        _ => {
            assert(code.subrange(pos, next) =~= enc);
        },
    }
}

} // verus!
