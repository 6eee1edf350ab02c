//! A chunk: the byte-coded instruction stream, its constant pool, and a
//! parallel table giving the source line of every code byte. The chunk
//! also carries ghost bookkeeping: the list of instruction start offsets,
//! and the set of jump instructions whose operands still hold the
//! emitter's placeholder. Together they let the emitter prove that every
//! patched jump lands on an instruction boundary.

pub mod disassemble;

use crate::instructions::{spec_decode, spec_encode_op, Op};
use crate::value::Value;
use vstd::prelude::*;

verus! {

/// A compiled unit: code bytes, constant pool, line table, and the ghost
/// record of instruction boundaries and still-unpatched jumps.
pub struct Chunk {
    pub code: Vec<u8>,
    pub constants: Vec<Value>,
    pub lines: Vec<usize>,
    pub starts: Ghost<Seq<int>>,
    pub pending: Ghost<Set<int>>,
}

/// Whether `t` is one of the instruction start offsets in `starts`.
pub open spec fn is_start(starts: Seq<int>, t: int) -> bool {
    exists|j: int| 0 <= j < starts.len() && starts[j] == t
}

/// The offsets in `starts` are exactly the instruction boundaries of
/// `code`: the first is 0, each decodes to an instruction, and each
/// instruction ends where the next begins (the last at the end of code).
pub open spec fn chain_ok(code: Seq<u8>, starts: Seq<int>) -> bool {
    &&& (starts.len() == 0 ==> code.len() == 0)
    &&& (starts.len() > 0 ==> starts[0] == 0)
    &&& forall|k: int|
        0 <= k < starts.len() ==> #[trigger] spec_decode(code, starts[k]) is Some && spec_decode(
            code,
            starts[k],
        )->Some_0.1 == if k + 1 < starts.len() {
            starts[k + 1]
        } else {
            code.len() as int
        }
}

/// Every control-flow instruction on the boundary chain lands on a
/// boundary (or at the very end of the code), except forward jumps whose
/// operands are still awaiting a patch, listed in `pending`.
pub open spec fn jumps_ok(code: Seq<u8>, starts: Seq<int>, pending: Set<int>) -> bool {
    forall|k: int|
        0 <= k < starts.len() ==> match #[trigger] spec_decode(code, starts[k]) {
            Some((op, next)) => match op {
                Op::Jump(d) | Op::JumpIfFalse(d) => is_start(starts, next + d) || next + d
                    == code.len() || pending.contains(starts[k]),
                Op::Loop(d) => d <= starts[k] && is_start(starts, starts[k] - d),
                _ => true,
            },
            None => true,
        }
}

/// Every pending entry is the position of a `Jump` or `JumpIfFalse` on
/// the boundary chain, still awaiting its patch.
pub open spec fn pending_ok(code: Seq<u8>, starts: Seq<int>, pending: Set<int>) -> bool {
    forall|p: int|
        #[trigger] pending.contains(p) ==> is_start(starts, p) && match spec_decode(code, p) {
            Some((op, next)) => (op is Jump || op is JumpIfFalse) && next == p + 3,
            None => false,
        }
}

impl Chunk {
    /// Well-formed: the line table runs parallel to the code, the ghost
    /// offsets are the instruction boundaries, every jump not waiting
    /// for a patch lands on a boundary, and every pending entry is a
    /// patchable jump.
    pub open spec fn wf(&self) -> bool {
        &&& self.lines@.len() == self.code@.len()
        &&& chain_ok(self.code@, self.starts@)
        &&& jumps_ok(self.code@, self.starts@, self.pending@)
        &&& pending_ok(self.code@, self.starts@, self.pending@)
    }

    /// The values of the constant pool.
    pub open spec fn consts(&self) -> Seq<crate::value::AbsValue> {
        self.constants@.map(|i: int, v: Value| v@)
    }

    /// A fresh, empty chunk.
    pub fn new() -> (r: Chunk)
        ensures
            r.wf(),
            r.code@.len() == 0,
            r.constants@.len() == 0,
            r.starts@.len() == 0,
            r.pending@ == Set::<int>::empty(),
    {
        Chunk {
            code: Vec::new(),
            constants: Vec::new(),
            lines: Vec::new(),
            starts: Ghost(Seq::empty()),
            pending: Ghost(Set::empty()),
        }
    }

    /// Append one instruction, recording `line` for each of its bytes.
    /// A `Loop` must aim at an existing boundary (or at itself, distance
    /// zero); a forward `Jump` or `JumpIfFalse` is recorded as pending
    /// until it is patched.
    pub fn write(&mut self, ins: Op, line: usize)
        requires
            old(self).wf(),
            ins matches Op::Loop(d) ==> d <= old(self).code@.len() && (d == 0 || is_start(
                old(self).starts@,
                old(self).code@.len() - d,
            )),
        ensures
            final(self).wf(),
            final(self).code@ == old(self).code@ + spec_encode_op(ins),
            final(self).lines@ == old(self).lines@ + Seq::new(
                spec_encode_op(ins).len(),
                |i: int| line,
            ),
            final(self).constants@ == old(self).constants@,
            final(self).starts@ == old(self).starts@.push(old(self).code@.len() as int),
            final(self).pending@ == if ins matches Op::Jump(_) || ins matches Op::JumpIfFalse(_) {
                old(self).pending@.insert(old(self).code@.len() as int)
            } else {
                old(self).pending@
            },
    {
        let ghost pre = *old(self);
        let at = self.code.len();
        let tag = crate::instructions::op_opcode(&ins).to_byte();
        self.code.push(tag);
        self.lines.push(line);
        match ins {
            Op::Jump(d) | Op::JumpIfFalse(d) | Op::Loop(d) => {
                self.code.push((d / 256) as u8);
                self.lines.push(line);
                self.code.push((d % 256) as u8);
                self.lines.push(line);
            },
            Op::Constant(v) | Op::DefineGlobal(v) | Op::GetGlobal(v) | Op::SetGlobal(v)
                | Op::GetLocal(v) | Op::SetLocal(v) => {
                self.code.push(v);
                self.lines.push(line);
            },
            _ => {},
        }
        self.starts = Ghost(self.starts@.push(at as int));
        proof {
            if ins matches Op::Jump(_) || ins matches Op::JumpIfFalse(_) {
                self.pending@ = self.pending@.insert(at as int);
            }
            assert(self.code@ =~= pre.code@ + spec_encode_op(ins));
            assert(self.lines@ =~= pre.lines@ + Seq::new(spec_encode_op(ins).len(), |i: int| line));
            self.lemma_wf_after_write(pre, ins);
        }
    }

    /// Appending one encoded instruction keeps the chunk well-formed.
    proof fn lemma_wf_after_write(&self, pre: Chunk, ins: Op)
        requires
            pre.wf(),
            ins matches Op::Loop(d) ==> d <= pre.code@.len() && (d == 0 || is_start(
                pre.starts@,
                pre.code@.len() - d,
            )),
            self.code@ == pre.code@ + spec_encode_op(ins),
            self.lines@.len() == self.code@.len(),
            self.starts@ == pre.starts@.push(pre.code@.len() as int),
            self.pending@ == if ins matches Op::Jump(_) || ins matches Op::JumpIfFalse(_) {
                pre.pending@.insert(pre.code@.len() as int)
            } else {
                pre.pending@
            },
        ensures
            self.wf(),
    {
        let at = pre.code@.len() as int;
        let n = pre.starts@.len() as int;
        crate::instructions::lemma_encode_decode(pre.code@, ins, Seq::empty());
        assert(pre.code@ + spec_encode_op(ins) + Seq::<u8>::empty() =~= self.code@);
        assert(spec_decode(self.code@, at) == Some(
            (ins, at + spec_encode_op(ins).len() as int),
        ));
        assert(at + spec_encode_op(ins).len() as int == self.code@.len() as int);
        assert forall|k: int| 0 <= k < n implies #[trigger] spec_decode(self.code@, pre.starts@[k])
            == spec_decode(pre.code@, pre.starts@[k]) by {
            lemma_decode_append(pre.code@, spec_encode_op(ins), pre.starts@[k]);
        }
        assert forall|k: int| 0 <= k < self.starts@.len() implies #[trigger] spec_decode(
            self.code@,
            self.starts@[k],
        ) is Some && spec_decode(self.code@, self.starts@[k])->Some_0.1 == if k + 1
            < self.starts@.len() {
            self.starts@[k + 1]
        } else {
            self.code@.len() as int
        } by {
            if k < n {
                assert(self.starts@[k] == pre.starts@[k]);
            }
        }
        assert forall|k: int| 0 <= k < self.starts@.len() implies match #[trigger] spec_decode(
            self.code@,
            self.starts@[k],
        ) {
            Some((op, next)) => match op {
                Op::Jump(d) | Op::JumpIfFalse(d) => is_start(self.starts@, next + d) || next + d
                    == self.code@.len() || self.pending@.contains(self.starts@[k]),
                Op::Loop(d) => d <= self.starts@[k] && is_start(self.starts@, self.starts@[k] - d),
                _ => true,
            },
            None => true,
        } by {
            if k < n {
                let s = pre.starts@[k];
                assert(spec_decode(self.code@, s) == spec_decode(pre.code@, s));
                match spec_decode(pre.code@, s) {
                    Some((op, next)) => {
                        match op {
                            Op::Jump(d) => {
                                if is_start(pre.starts@, next + d) {
                                    let j = choose|j: int|
                                        0 <= j < pre.starts@.len() && pre.starts@[j] == next + d;
                                    assert(self.starts@[j] == next + d);
                                } else if next + d == pre.code@.len() {
                                    assert(self.starts@[n] == next + d);
                                }
                            },
                            Op::JumpIfFalse(d) => {
                                if is_start(pre.starts@, next + d) {
                                    let j = choose|j: int|
                                        0 <= j < pre.starts@.len() && pre.starts@[j] == next + d;
                                    assert(self.starts@[j] == next + d);
                                } else if next + d == pre.code@.len() {
                                    assert(self.starts@[n] == next + d);
                                }
                            },
                            Op::Loop(d) => {
                                let j = choose|j: int|
                                    0 <= j < pre.starts@.len() && pre.starts@[j] == s - d;
                                assert(self.starts@[j] == s - d);
                            },
                            _ => {},
                        }
                    },
                    None => {},
                }
            } else {
                assert(self.starts@[k] == at);
                match ins {
                    Op::Loop(d) => {
                        if d == 0 {
                            assert(self.starts@[n] == at - d);
                        } else {
                            let j = choose|j: int|
                                0 <= j < pre.starts@.len() && pre.starts@[j] == at - d;
                            assert(self.starts@[j] == at - d);
                        }
                    },
                    _ => {},
                }
            }
        }
        assert forall|p: int| #[trigger] self.pending@.contains(p) implies is_start(self.starts@, p)
            && match spec_decode(self.code@, p) {
            Some((op, next)) => (op is Jump || op is JumpIfFalse) && next == p + 3,
            None => false,
        } by {
            if p == at && (ins matches Op::Jump(_) || ins matches Op::JumpIfFalse(_)) {
                assert(self.starts@[n] == at);
                assert(spec_decode(self.code@, at) == Some(
                    (ins, at + spec_encode_op(ins).len() as int),
                ));
            } else {
                assert(pre.pending@.contains(p));
                let j = choose|j: int| 0 <= j < pre.starts@.len() && pre.starts@[j] == p;
                assert(self.starts@[j] == p);
                assert(spec_decode(self.code@, p) == spec_decode(pre.code@, p));
            }
        }
    }

    /// Overwrite the two operand bytes of the jump that was emitted at
    /// `from - 3` with `dist`, which must be the distance from `from` to
    /// the current end of the code: the jump then lands where the next
    /// instruction will begin.
    pub fn patch(&mut self, from: usize, dist: u16)
        requires
            old(self).wf(),
            from >= 3,
            old(self).pending@.contains(from - 3),
            from + dist == old(self).code@.len(),
        ensures
            final(self).wf(),
            final(self).code@ == old(self).code@.update(from - 2, (dist / 256) as u8).update(
                from - 1,
                (dist % 256) as u8,
            ),
            final(self).lines@ == old(self).lines@,
            final(self).constants@ == old(self).constants@,
            final(self).starts@ == old(self).starts@,
            final(self).pending@ == old(self).pending@.remove(from - 3),
    {
        let ghost pre = *old(self);
        proof {
            assert(pre.pending@.contains(from - 3 as int));
            lemma_chain_increasing(pre.code@, pre.starts@);
        }
        let hi = (dist / 256) as u8;
        let lo = (dist % 256) as u8;
        self.code[from - 2] = hi;
        self.code[from - 1] = lo;
        proof {
            self.pending@ = self.pending@.remove(from - 3 as int);
            self.lemma_wf_after_patch(pre, from as int, dist);
        }
    }

    /// Patching the operand bytes of a jump keeps the chunk well-formed:
    /// no other instruction's bytes are touched, and the patched jump now
    /// lands at the current end of the code.
    proof fn lemma_wf_after_patch(&self, pre: Chunk, from: int, dist: u16)
        requires
            pre.wf(),
            from >= 3,
            pre.pending@.contains(from - 3),
            from + dist == pre.code@.len(),
            self.code@ == pre.code@.update(from - 2, (dist / 256) as u8).update(
                from - 1,
                (dist % 256) as u8,
            ),
            self.lines@ == pre.lines@,
            self.starts@ == pre.starts@,
            self.pending@ == pre.pending@.remove(from - 3),
            forall|j: int, k: int|
                0 <= j < k < pre.starts@.len() ==> #[trigger] pre.starts@[k]
                    >= #[trigger] spec_decode(pre.code@, pre.starts@[j])->Some_0.1,
        ensures
            self.wf(),
    {
        let p = from - 3;
        assert(is_start(pre.starts@, p) && match spec_decode(pre.code@, p) {
            Some((op, next)) => (op is Jump || op is JumpIfFalse) && next == p + 3,
            None => false,
        });
        let ki = choose|k: int| 0 <= k < pre.starts@.len() && pre.starts@[k] == p;
        assert forall|k: int| 0 <= k < pre.starts@.len() && pre.starts@[k] != p implies
            #[trigger] spec_decode(self.code@, pre.starts@[k]) == spec_decode(
            pre.code@,
            pre.starts@[k],
        ) by {
            let s = pre.starts@[k];
            let next = spec_decode(pre.code@, s)->Some_0.1;
            if k < ki {
                assert(pre.starts@[ki] >= next);
            } else {
                assert(ki < k);
                assert(s >= spec_decode(pre.code@, pre.starts@[ki])->Some_0.1);
                assert(s >= from);
            }
            assert(spec_decode(self.code@, s) == spec_decode(pre.code@, s)) by {
                lemma_decode_untouched(pre.code@, self.code@, s);
            }
        }
        assert(spec_decode(self.code@, p) is Some && spec_decode(self.code@, p)->Some_0.1 == from
            && (spec_decode(self.code@, p)->Some_0.0 matches Op::Jump(d2) ==> d2 == dist) && (
        spec_decode(self.code@, p)->Some_0.0 matches Op::JumpIfFalse(d2) ==> d2 == dist) && (
        spec_decode(self.code@, p)->Some_0.0 is Jump || spec_decode(
            self.code@,
            p,
        )->Some_0.0 is JumpIfFalse)) by {
            assert(self.code@[p] == pre.code@[p]);
            assert(self.code@[p + 1] == (dist / 256) as u8);
            assert(self.code@[p + 2] == (dist % 256) as u8);
            assert((dist / 256) as u8 * 256 + (dist % 256) as u8 == dist) by (nonlinear_arith);
        }
        assert forall|k: int| 0 <= k < self.starts@.len() implies #[trigger] spec_decode(
            self.code@,
            self.starts@[k],
        ) is Some && spec_decode(self.code@, self.starts@[k])->Some_0.1 == if k + 1
            < self.starts@.len() {
            self.starts@[k + 1]
        } else {
            self.code@.len() as int
        } by {
            if pre.starts@[k] != p {
            } else {
                assert(spec_decode(pre.code@, pre.starts@[k])->Some_0.1 == from);
            }
        }
        assert forall|k: int| 0 <= k < self.starts@.len() implies match #[trigger] spec_decode(
            self.code@,
            self.starts@[k],
        ) {
            Some((op, next)) => match op {
                Op::Jump(d) | Op::JumpIfFalse(d) => is_start(self.starts@, next + d) || next + d
                    == self.code@.len() || self.pending@.contains(self.starts@[k]),
                Op::Loop(d) => d <= self.starts@[k] && is_start(self.starts@, self.starts@[k] - d),
                _ => true,
            },
            None => true,
        } by {
            let s = self.starts@[k];
            if s == p {
                assert(spec_decode(self.code@, s)->Some_0.1 + dist == self.code@.len());
            } else {
                assert(spec_decode(self.code@, s) == spec_decode(pre.code@, s));
                if pre.pending@.contains(s) {
                    assert(self.pending@.contains(s));
                }
            }
        }
        assert forall|q: int| #[trigger] self.pending@.contains(q) implies is_start(
            self.starts@,
            q,
        ) && match spec_decode(self.code@, q) {
            Some((op, next)) => (op is Jump || op is JumpIfFalse) && next == q + 3,
            None => false,
        } by {
            assert(pre.pending@.contains(q));
            assert(q != p);
            let j = choose|j: int| 0 <= j < pre.starts@.len() && pre.starts@[j] == q;
            assert(spec_decode(self.code@, pre.starts@[j]) == spec_decode(pre.code@, q));
        }
    }

    /// Append `value` to the constant pool; its index if it fits in a
    /// byte, else nothing (the pool holds at most 256 addressable
    /// constants).
    pub fn add_constant(&mut self, value: Value) -> (r: Option<u8>)
        requires
            old(self).wf(),
        ensures
            final(self).wf(),
            final(self).constants@ == old(self).constants@.push(value),
            final(self).code@ == old(self).code@,
            final(self).lines@ == old(self).lines@,
            final(self).starts@ == old(self).starts@,
            final(self).pending@ == old(self).pending@,
            r == if old(self).constants@.len() < 256 {
                Some(old(self).constants@.len() as u8)
            } else {
                None::<u8>
            },
    {
        let idx = self.constants.len();
        self.constants.push(value);
        if idx < 256 {
            Some(idx as u8)
        } else {
            None
        }
    }

    /// The constant at `const_idx`, which must be a valid index of the
    /// pool.
    pub fn get_constant_unwrap(&self, const_idx: u8) -> (r: &Value)
        requires
            (const_idx as int) < self.constants@.len(),
        ensures
            *r == self.constants@[const_idx as int],
    {
        &self.constants[const_idx as usize]
    }
}

/// A chunk's line table runs parallel to its code: every code byte has
/// exactly one source line recorded for it.
pub proof fn lemma_lines_parallel(c: Chunk)
    requires
        c.wf(),
    ensures
        c.lines@.len() == c.code@.len(),
{
}

/// In a chunk with no patch left pending, every emitted `Jump`,
/// `JumpIfFalse` and `Loop` operand resolves to an offset that lands on
/// an instruction boundary (or at the very end of the code, where the
/// next instruction would begin): no jump lands in the middle of an
/// instruction.
pub proof fn lemma_jumps_resolved(c: Chunk, k: int)
    requires
        c.wf(),
        c.pending@ == Set::<int>::empty(),
        0 <= k < c.starts@.len(),
    ensures
        match spec_decode(c.code@, c.starts@[k]) {
            Some((op, next)) => match op {
                Op::Jump(d) | Op::JumpIfFalse(d) => is_start(c.starts@, next + d) || next + d
                    == c.code@.len(),
                Op::Loop(d) => d <= c.starts@[k] && is_start(c.starts@, c.starts@[k] - d),
                _ => true,
            },
            None => false,
        },
{
    assert(!c.pending@.contains(c.starts@[k]));
}

/// Decoding is stable under appending code: an instruction that decodes
/// within `code` decodes the same way after `ext` is appended.
pub proof fn lemma_decode_append(code: Seq<u8>, ext: Seq<u8>, pos: int)
    requires
        spec_decode(code, pos) is Some,
    ensures
        spec_decode(code + ext, pos) == spec_decode(code, pos),
{
    assert((code + ext)[pos] == code[pos]);
    let oc = crate::instructions::spec_opcode_of_byte(code[pos])->Some_0;
    if crate::instructions::spec_operand_width(oc) >= 1 {
        assert((code + ext)[pos + 1] == code[pos + 1]);
    }
    if crate::instructions::spec_operand_width(oc) >= 2 {
        assert((code + ext)[pos + 2] == code[pos + 2]);
    }
}

/// Decoding is stable under byte changes that do not touch the decoded
/// instruction's own bytes.
pub proof fn lemma_decode_untouched(code: Seq<u8>, code2: Seq<u8>, pos: int)
    requires
        spec_decode(code, pos) is Some,
        code2.len() == code.len(),
        forall|i: int|
            pos <= i < spec_decode(code, pos)->Some_0.1 ==> #[trigger] code2[i] == code[i],
    ensures
        spec_decode(code2, pos) == spec_decode(code, pos),
{
    assert(code2[pos] == code[pos]);
    let oc = crate::instructions::spec_opcode_of_byte(code[pos])->Some_0;
    if crate::instructions::spec_operand_width(oc) >= 1 {
        assert(code2[pos + 1] == code[pos + 1]);
    }
    if crate::instructions::spec_operand_width(oc) >= 2 {
        assert(code2[pos + 2] == code[pos + 2]);
    }
}

/// On a well-formed boundary chain, instructions tile the code without
/// overlap: every later boundary sits at or past the end of every earlier
/// instruction.
pub proof fn lemma_chain_increasing(code: Seq<u8>, starts: Seq<int>)
    requires
        chain_ok(code, starts),
    ensures
        forall|j: int, k: int|
            0 <= j < k < starts.len() ==> #[trigger] starts[k] >= #[trigger] spec_decode(
                code,
                starts[j],
            )->Some_0.1,
    decreases starts.len(),
{
    assert forall|j: int, k: int| 0 <= j < k < starts.len() implies #[trigger] starts[k]
        >= #[trigger] spec_decode(code, starts[j])->Some_0.1 by {
        lemma_chain_step(code, starts, j, k);
    }
}

/// Helper for `lemma_chain_increasing`: walks from `j` up to `k`.
proof fn lemma_chain_step(code: Seq<u8>, starts: Seq<int>, j: int, k: int)
    requires
        chain_ok(code, starts),
        0 <= j < k < starts.len(),
    ensures
        starts[k] >= spec_decode(code, starts[j])->Some_0.1,
    decreases k - j,
{
    assert(spec_decode(code, starts[j]) is Some);
    assert(spec_decode(code, starts[j])->Some_0.1 == starts[j + 1]);
    if j + 1 < k {
        lemma_chain_step(code, starts, j + 1, k);
        assert(spec_decode(code, starts[j + 1]) is Some);
        assert(spec_decode(code, starts[j + 1])->Some_0.1 > starts[j + 1]);
    }
}

} // verus!
