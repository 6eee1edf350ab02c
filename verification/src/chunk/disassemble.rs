//! The disassembler: reads the instruction stream back into
//! instructions, and renders a chunk as text for debugging. Reading an
//! instruction is exact — it returns precisely what the decoding
//! relation gives — so re-encoding what was read reproduces the bytes
//! (see the round-trip results of the instruction set).

use crate::chunk::Chunk;
use crate::instructions::{spec_decode, Op, Opcode};
use crate::text::usize_string;
use vstd::prelude::*;
use vstd::string::StringExecFns;

verus! {

/// Read the instruction at `offset`, with the offset just past it;
/// `None` when no valid instruction starts there.
pub fn read_instruction(chunk: &Chunk, offset: usize) -> (r: Option<(Op, usize)>)
    ensures
        match r {
            Some((op, next)) => spec_decode(chunk.code@, offset as int) == Some(
                (op, next as int),
            ) && offset < next <= chunk.code@.len(),
            None => spec_decode(chunk.code@, offset as int) is None,
        },
{
    let n = chunk.code.len();
    if offset >= n {
        return None;
    }
    let b = chunk.code[offset];
    let oc = match Opcode::from_byte(b) {
        Some(oc) => oc,
        None => {
            return None;
        },
    };
    let width: usize = match oc {
        Opcode::Jump | Opcode::JumpIfFalse | Opcode::Loop => 2,
        Opcode::Constant | Opcode::DefineGlobal | Opcode::GetGlobal | Opcode::SetGlobal
            | Opcode::GetLocal | Opcode::SetLocal => 1,
        _ => 0,
    };
    if n - offset < 1 + width {
        return None;
    }
    let op = match oc {
        Opcode::Return => Op::Return,
        Opcode::Jump => Op::Jump(
            (chunk.code[offset + 1] as u16) * 256 + (chunk.code[offset + 2] as u16),
        ),
        Opcode::JumpIfFalse => Op::JumpIfFalse(
            (chunk.code[offset + 1] as u16) * 256 + (chunk.code[offset + 2] as u16),
        ),
        Opcode::Loop => Op::Loop(
            (chunk.code[offset + 1] as u16) * 256 + (chunk.code[offset + 2] as u16),
        ),
        Opcode::Print => Op::Print,
        Opcode::Pop => Op::Pop,
        Opcode::Constant => Op::Constant(chunk.code[offset + 1]),
        Opcode::DefineGlobal => Op::DefineGlobal(chunk.code[offset + 1]),
        Opcode::GetGlobal => Op::GetGlobal(chunk.code[offset + 1]),
        Opcode::SetGlobal => Op::SetGlobal(chunk.code[offset + 1]),
        Opcode::GetLocal => Op::GetLocal(chunk.code[offset + 1]),
        Opcode::SetLocal => Op::SetLocal(chunk.code[offset + 1]),
        Opcode::Nil => Op::Nil,
        Opcode::True => Op::True,
        Opcode::False => Op::False,
        Opcode::Not => Op::Not,
        Opcode::Negate => Op::Negate,
        Opcode::Equal => Op::Equal,
        Opcode::Greater => Op::Greater,
        Opcode::Less => Op::Less,
        Opcode::Add => Op::Add,
        Opcode::Subtract => Op::Subtract,
        Opcode::Multiply => Op::Multiply,
        Opcode::Divide => Op::Divide,
    };
    Some((op, offset + 1 + width))
}

/// The printed name of each instruction.
pub open spec fn spec_op_name(op: Op) -> Seq<char> {
    match op {
        Op::Return => "OP_RETURN"@,
        Op::Jump(_) => "OP_JUMP"@,
        Op::JumpIfFalse(_) => "OP_JUMP_IF_FALSE"@,
        Op::Loop(_) => "OP_LOOP"@,
        Op::Print => "OP_PRINT"@,
        Op::Pop => "OP_POP"@,
        Op::Constant(_) => "OP_CONSTANT"@,
        Op::DefineGlobal(_) => "OP_DEFINE_GLOBAL"@,
        Op::GetGlobal(_) => "OP_GET_GLOBAL"@,
        Op::SetGlobal(_) => "OP_SET_GLOBAL"@,
        Op::GetLocal(_) => "OP_GET_LOCAL"@,
        Op::SetLocal(_) => "OP_SET_LOCAL"@,
        Op::Nil => "OP_NIL"@,
        Op::True => "OP_TRUE"@,
        Op::False => "OP_FALSE"@,
        Op::Not => "OP_NOT"@,
        Op::Negate => "OP_NEGATE"@,
        Op::Equal => "OP_EQUAL"@,
        Op::Greater => "OP_GREATER"@,
        Op::Less => "OP_LESS"@,
        Op::Add => "OP_ADD"@,
        Op::Subtract => "OP_SUBTRACT"@,
        Op::Multiply => "OP_MULTIPLY"@,
        Op::Divide => "OP_DIVIDE"@,
    }
}

/// The printed name of an instruction.
fn op_name(op: &Op) -> (r: &'static str)
    ensures
        r@ == spec_op_name(*op),
{
    match op {
        Op::Return => "OP_RETURN",
        Op::Jump(_) => "OP_JUMP",
        Op::JumpIfFalse(_) => "OP_JUMP_IF_FALSE",
        Op::Loop(_) => "OP_LOOP",
        Op::Print => "OP_PRINT",
        Op::Pop => "OP_POP",
        Op::Constant(_) => "OP_CONSTANT",
        Op::DefineGlobal(_) => "OP_DEFINE_GLOBAL",
        Op::GetGlobal(_) => "OP_GET_GLOBAL",
        Op::SetGlobal(_) => "OP_SET_GLOBAL",
        Op::GetLocal(_) => "OP_GET_LOCAL",
        Op::SetLocal(_) => "OP_SET_LOCAL",
        Op::Nil => "OP_NIL",
        Op::True => "OP_TRUE",
        Op::False => "OP_FALSE",
        Op::Not => "OP_NOT",
        Op::Negate => "OP_NEGATE",
        Op::Equal => "OP_EQUAL",
        Op::Greater => "OP_GREATER",
        Op::Less => "OP_LESS",
        Op::Add => "OP_ADD",
        Op::Subtract => "OP_SUBTRACT",
        Op::Multiply => "OP_MULTIPLY",
        Op::Divide => "OP_DIVIDE",
    }
}

impl Chunk {
    /// One instruction as text: its offset, its source line (`|` when it
    /// is the previous instruction's line), its name and its operand,
    /// with a constant's value spelled out. Returns the text and the
    /// offset just past the instruction; a byte that starts no valid
    /// instruction reads as unknown and one offset forward.
    pub fn disassemble_instruction(&self, offset: usize) -> (r: (String, usize))
        requires
            offset < self.code@.len(),
        ensures
            offset < r.1 <= self.code@.len(),
            spec_decode(self.code@, offset as int) matches Some((op, next)) ==> r.1 == next && (
            exists|before: Seq<char>, after: Seq<char>|
                r.0@ == #[trigger] (before + spec_op_name(op) + after)),
    {
        let n = self.code.len();
        let mut text = usize_string(offset);
        if offset < self.lines.len() && (offset == 0 || self.lines[offset - 1]
            != self.lines[offset]) {
            text.append(" ");
            let lt = usize_string(self.lines[offset]);
            text.append(lt.as_str());
        } else {
            text.append("    |");
        }
        text.append(" ");
        match read_instruction(self, offset) {
            Some((op, next)) => {
                let ghost head = text@;
                text.append(op_name(&op));
                let mut rest: String = String::new();
                match op {
                    Op::Jump(d) | Op::JumpIfFalse(d) | Op::Loop(d) => {
                        rest.append(" ");
                        let dt = crate::text::dec_string(d as u64);
                        rest.append(dt.as_str());
                    },
                    Op::Constant(v) | Op::DefineGlobal(v) | Op::GetGlobal(v) | Op::SetGlobal(
                        v,
                    ) => {
                        rest.append(" ");
                        let vt = crate::text::dec_string(v as u64);
                        rest.append(vt.as_str());
                        if (v as usize) < self.constants.len() {
                            rest.append(" '");
                            let ct = self.get_constant_unwrap(v).to_text();
                            rest.append(ct.as_str());
                            rest.append("'");
                        }
                    },
                    Op::GetLocal(v) | Op::SetLocal(v) => {
                        rest.append(" ");
                        let vt = crate::text::dec_string(v as u64);
                        rest.append(vt.as_str());
                    },
                    _ => {},
                }
                text.append(rest.as_str());
                proof {
                    assert(text@ == head + spec_op_name(op) + rest@);
                }
                (text, next)
            },
            None => {
                text.append("Unknown opcode ");
                let bt = crate::text::dec_string(self.code[offset] as u64);
                text.append(bt.as_str());
                (text, offset + 1)
            },
        }
    }

    /// The whole chunk as text, one instruction per line, under a
    /// heading. This is a debugging view: each row's instruction name
    /// and the step to the next offset are specified by
    /// `disassemble_instruction` and `read_instruction`; the surrounding
    /// row format carries no contract.
    pub fn disassemble(&self, name: &str) -> (r: String) {
        let mut text: String = "== ".to_owned();
        text.append(name);
        text.append(" ==\n");
        let mut offset: usize = 0;
        while offset < self.code.len()
            invariant
                offset <= self.code@.len(),
            decreases self.code@.len() - offset,
        {
            let (line, next) = self.disassemble_instruction(offset);
            text.append(line.as_str());
            text.append("\n");
            offset = next;
        }
        text
    }
}

} // verus!
