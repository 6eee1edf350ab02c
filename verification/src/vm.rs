//! The virtual machine: a dispatch loop that runs a chunk's instruction
//! stream against a fixed-size value stack, a table of global variables
//! keyed by interned name, and the string interner shared with the
//! compiler. Its behaviour is specified as a small-step machine:
//! `spec_step` says what one instruction does to the machine state, and
//! `run` ensures that the machine it leaves behind is the result of
//! stepping the machine it started from.

use crate::chunk::Chunk;
use crate::compiler::compile;
use crate::instructions::{Op, Opcode};
use crate::number::{
    num_add, num_add_bits, num_div, num_div_bits, num_gt, num_gt_bits, num_lt, num_lt_bits,
    num_mul, num_mul_bits, num_neg, num_neg_bits, num_sub, num_sub_bits,
};
use vstd::string::StringExecFns;
use crate::text::dec_text;
use crate::value::{
    spec_falsey, spec_value_eq, spec_value_text, value_eq, AbsValue, StringInterns, Value,
};
use vstd::prelude::*;

verus! {

broadcast use vstd::seq_lib::lemma_seq_contains_after_push;

/// The two ways an interpretation can fail; the driver maps them to
/// exit codes.
#[derive(Debug, PartialEq, Eq, Structural, Clone, Copy)]
pub enum InterpretError {
    CompileError,
    RuntimeError,
}

pub type InterpretResult = Result<(), InterpretError>;

/// The value stack: at most 256 slots.
pub struct ValueStack {
    pub values: Vec<Value>,
}

/// The number of value slots the stack can hold.
pub const STACK_MAX: usize = 256;

impl ValueStack {
    /// The stack never outgrows its 256 slots.
    pub open spec fn wf(&self) -> bool {
        self.values@.len() <= 256
    }

    /// The values on the stack, bottom first, in mathematical form.
    pub open spec fn view_abs(&self) -> Seq<AbsValue> {
        self.values@.map(|i: int, v: Value| v@)
    }

    /// An empty stack.
    pub fn new() -> (r: ValueStack)
        ensures
            r.wf(),
            r.view_abs() =~= Seq::<AbsValue>::empty(),
    {
        ValueStack { values: Vec::new() }
    }

    /// Push a value; the stack must have room.
    pub fn push(&mut self, value: Value)
        requires
            old(self).wf(),
            old(self).values@.len() < 256,
        ensures
            final(self).wf(),
            final(self).view_abs() =~= old(self).view_abs().push(value@),
    {
        self.values.push(value);
    }

    /// Pop the top value; the stack must be nonempty.
    pub fn pop(&mut self) -> (r: Value)
        requires
            old(self).wf(),
            old(self).values@.len() > 0,
        ensures
            final(self).wf(),
            final(self).view_abs() =~= old(self).view_abs().drop_last(),
            r@ == old(self).view_abs().last(),
    {
        let r = self.values.pop();
        match r {
            Some(v) => v,
            None => {
                proof {
                    assert(false);
                }
                Value::Nil
            },
        }
    }

    /// The top value; the stack must be nonempty.
    pub fn peek(&self) -> (r: &Value)
        requires
            self.values@.len() > 0,
        ensures
            r@ == self.view_abs().last(),
    {
        &self.values[self.values.len() - 1]
    }

    /// The value `from_top` slots below the top.
    pub fn peek_at(&self, from_top: usize) -> (r: &Value)
        requires
            from_top < self.values@.len(),
        ensures
            r@ == self.view_abs()[self.view_abs().len() - 1 - from_top],
    {
        &self.values[self.values.len() - from_top - 1]
    }

    /// The value in slot `slot`, counted from the bottom: a local reads
    /// its stack slot directly.
    pub fn get_slot(&self, slot: usize) -> (r: &Value)
        requires
            slot < self.values@.len(),
        ensures
            r@ == self.view_abs()[slot as int],
    {
        &self.values[slot]
    }

    /// Overwrite slot `slot`, counted from the bottom.
    pub fn set_slot(&mut self, slot: usize, value: Value)
        requires
            old(self).wf(),
            slot < old(self).values@.len(),
        ensures
            final(self).wf(),
            final(self).view_abs() =~= old(self).view_abs().update(slot as int, value@),
    {
        self.values[slot] = value;
    }

    /// How many values are on the stack.
    pub fn depth(&self) -> (r: usize)
        ensures
            r == self.values@.len(),
    {
        self.values.len()
    }

    /// The stack as one debugging line: every value bottom-first between
    /// brackets, strings in quotes.
    pub fn debug(&self) -> (r: String)
    {
        let mut text: String = "[ ".to_owned();
        let n = self.values.len();
        let mut i: usize = 0;
        while i < n
            invariant
                n == self.values@.len(),
                i <= n,
            decreases n - i,
        {
            match &self.values[i] {
                Value::Str(is) => {
                    text.append("'");
                    text.append(is.text.as_str());
                    text.append("' ");
                },
                v => {
                    let vt = v.to_text();
                    text.append(vt.as_str());
                    text.append(" ");
                },
            }
            i += 1;
        }
        text.append("]");
        text
    }
}

/// The machine state that one instruction transforms: the value stack,
/// the globals as ordered name-identity/value pairs, the intern table,
/// the two output texts, and the instruction pointer.
#[verifier::ext_equal]
pub struct VmSt {
    pub stack: Seq<AbsValue>,
    pub globals: Seq<(usize, AbsValue)>,
    pub interns: Seq<Option<Seq<char>>>,
    pub out: Seq<char>,
    pub errs: Seq<char>,
    pub ip: int,
}

/// The value bound to name identity `k`, searching the most recent
/// binding first.
pub open spec fn spec_lookup(globals: Seq<(usize, AbsValue)>, k: usize) -> Option<AbsValue>
    decreases globals.len(),
{
    if globals.len() == 0 {
        None
    } else if globals.last().0 == k {
        Some(globals.last().1)
    } else {
        spec_lookup(globals.drop_last(), k)
    }
}

/// A key bound somewhere in the globals.
pub open spec fn spec_has_key(globals: Seq<(usize, AbsValue)>, k: usize) -> bool {
    exists|j: int| 0 <= j < globals.len() && (#[trigger] globals[j]).0 == k
}

/// The position of the most recent binding of `k`.
pub open spec fn spec_key_at(globals: Seq<(usize, AbsValue)>, k: usize) -> int {
    choose|j: int|
        0 <= j < globals.len() && globals[j].0 == k && (forall|l: int|
            j < l < globals.len() ==> (#[trigger] globals[l]).0 != k)
}

/// The globals with `k` bound to `v`: an existing binding is replaced in
/// place, else the pair is appended.
pub open spec fn spec_bind(globals: Seq<(usize, AbsValue)>, k: usize, v: AbsValue) -> Seq<
    (usize, AbsValue),
> {
    if spec_has_key(globals, k) {
        globals.update(spec_key_at(globals, k), (k, v))
    } else {
        globals.push((k, v))
    }
}

/// The identity that interning `t` yields: the live slot that holds `t`,
/// else a fresh slot at the end of the table.
pub open spec fn spec_intern_id(interns: Seq<Option<Seq<char>>>, t: Seq<char>) -> usize {
    if crate::value::has_live(interns, t) {
        crate::value::live_id(interns, t)
    } else {
        interns.len() as usize
    }
}

/// The intern table after interning `t`.
pub open spec fn spec_intern_table(interns: Seq<Option<Seq<char>>>, t: Seq<char>) -> Seq<
    Option<Seq<char>>,
> {
    if crate::value::has_live(interns, t) {
        interns
    } else {
        interns.push(Some(t))
    }
}

/// What one step of the machine produced.
pub enum StepResult {
    /// The instruction completed; run the next one.
    Next(VmSt),
    /// A `Return` ended the chunk.
    Halt(VmSt),
    /// A runtime error: its message and line note are on the error
    /// output.
    Fail(VmSt),
    /// The stream held no valid instruction at `ip`; the byte found is
    /// reported on the standard output.
    BadOp(VmSt),
}

/// The text of a runtime error report: the message, then the line of the
/// instruction just past the faulting one.
pub open spec fn spec_runtime_err(errs: Seq<char>, msg: Seq<char>, lines: Seq<usize>, ip: int) -> Seq<
    char,
> {
    let line = if 0 <= ip < lines.len() {
        lines[ip]
    } else {
        0
    };
    errs + msg + "\n[line "@ + dec_text(line as nat) + "] in script\n"@
}

/// A failing step: the state with the report appended.
pub open spec fn spec_fail(st: VmSt, ip: int, msg: Seq<char>, lines: Seq<usize>) -> StepResult {
    StepResult::Fail(
        VmSt { errs: spec_runtime_err(st.errs, msg, lines, ip), ip, ..st },
    )
}

/// One step of the machine on `code`/`consts`/`lines`: the meaning of
/// every instruction, as the table in the instruction set gives it.
/// Arithmetic and comparison demand two numbers; `Add` also accepts two
/// strings and concatenates them through the interner; equality is value
/// equality; globals are read and written under the identity of their
/// interned name.
pub open spec fn spec_step(
    st: VmSt,
    code: Seq<u8>,
    consts: Seq<AbsValue>,
    lines: Seq<usize>,
) -> StepResult {
    if !(0 <= st.ip < code.len()) {
        StepResult::BadOp(
            VmSt { out: st.out + "Invalid opcode "@ + dec_text(0) + "\n"@, ..st },
        )
    } else {
        let b = code[st.ip];
        let bad = StepResult::BadOp(
            VmSt { out: st.out + "Invalid opcode "@ + dec_text(b as nat) + "\n"@, ..st },
        );
        match crate::instructions::spec_decode(code, st.ip) {
            None => bad,
            Some((op, next)) => match op {
                Op::Return => StepResult::Halt(VmSt { ip: next, ..st }),
                Op::Jump(d) => {
                    if next + d > usize::MAX {
                        bad
                    } else {
                        StepResult::Next(VmSt { ip: next + d, ..st })
                    }
                },
                Op::JumpIfFalse(d) => {
                    if st.stack.len() == 0 {
                        spec_fail(st, next, "Stack underflow."@, lines)
                    } else if spec_falsey(st.stack.last()) {
                        if next + d > usize::MAX {
                            bad
                        } else {
                            StepResult::Next(VmSt { ip: next + d, ..st })
                        }
                    } else {
                        StepResult::Next(VmSt { ip: next, ..st })
                    }
                },
                Op::Loop(d) => {
                    if next - (d + 3) < 0 {
                        bad
                    } else {
                        StepResult::Next(VmSt { ip: next - (d + 3), ..st })
                    }
                },
                Op::Print => {
                    if st.stack.len() == 0 {
                        spec_fail(st, next, "Stack underflow."@, lines)
                    } else {
                        StepResult::Next(
                            VmSt {
                                stack: st.stack.drop_last(),
                                out: st.out + spec_value_text(st.stack.last()) + "\n"@,
                                ip: next,
                                ..st
                            },
                        )
                    }
                },
                Op::Pop => {
                    if st.stack.len() == 0 {
                        spec_fail(st, next, "Stack underflow."@, lines)
                    } else {
                        StepResult::Next(VmSt { stack: st.stack.drop_last(), ip: next, ..st })
                    }
                },
                Op::Constant(idx) => {
                    if idx as int >= consts.len() {
                        bad
                    } else if st.stack.len() >= 256 {
                        spec_fail(st, next, "Stack overflow."@, lines)
                    } else {
                        StepResult::Next(
                            VmSt { stack: st.stack.push(consts[idx as int]), ip: next, ..st },
                        )
                    }
                },
                Op::DefineGlobal(idx) => {
                    if idx as int >= consts.len() || !(consts[idx as int] is Text) {
                        bad
                    } else if st.stack.len() == 0 {
                        spec_fail(st, next, "Stack underflow."@, lines)
                    } else {
                        StepResult::Next(
                            VmSt {
                                stack: st.stack.drop_last(),
                                globals: spec_bind(
                                    st.globals,
                                    consts[idx as int]->Text_0,
                                    st.stack.last(),
                                ),
                                ip: next,
                                ..st
                            },
                        )
                    }
                },
                Op::GetGlobal(idx) => {
                    if idx as int >= consts.len() || !(consts[idx as int] is Text) {
                        bad
                    } else {
                        match spec_lookup(st.globals, consts[idx as int]->Text_0) {
                            Some(v) => {
                                if st.stack.len() >= 256 {
                                    spec_fail(st, next, "Stack overflow."@, lines)
                                } else {
                                    StepResult::Next(
                                        VmSt { stack: st.stack.push(v), ip: next, ..st },
                                    )
                                }
                            },
                            None => spec_fail(
                                st,
                                next,
                                "Undefined variable '"@ + consts[idx as int]->Text_1 + "'."@,
                                lines,
                            ),
                        }
                    }
                },
                Op::SetGlobal(idx) => {
                    if idx as int >= consts.len() || !(consts[idx as int] is Text) {
                        bad
                    } else if st.stack.len() == 0 {
                        spec_fail(st, next, "Stack underflow."@, lines)
                    } else {
                        match spec_lookup(st.globals, consts[idx as int]->Text_0) {
                            Some(_) => StepResult::Next(
                                VmSt {
                                    globals: spec_bind(
                                        st.globals,
                                        consts[idx as int]->Text_0,
                                        st.stack.last(),
                                    ),
                                    ip: next,
                                    ..st
                                },
                            ),
                            None => spec_fail(
                                st,
                                next,
                                "Undefined variable '"@ + consts[idx as int]->Text_1 + "'."@,
                                lines,
                            ),
                        }
                    }
                },
                Op::GetLocal(slot) => {
                    if slot as int >= st.stack.len() {
                        spec_fail(st, next, "Stack underflow."@, lines)
                    } else if st.stack.len() >= 256 {
                        spec_fail(st, next, "Stack overflow."@, lines)
                    } else {
                        StepResult::Next(
                            VmSt { stack: st.stack.push(st.stack[slot as int]), ip: next, ..st },
                        )
                    }
                },
                Op::SetLocal(slot) => {
                    if st.stack.len() == 0 || slot as int >= st.stack.len() {
                        spec_fail(st, next, "Stack underflow."@, lines)
                    } else {
                        StepResult::Next(
                            VmSt {
                                stack: st.stack.update(slot as int, st.stack.last()),
                                ip: next,
                                ..st
                            },
                        )
                    }
                },
                Op::Nil => {
                    if st.stack.len() >= 256 {
                        spec_fail(st, next, "Stack overflow."@, lines)
                    } else {
                        StepResult::Next(
                            VmSt { stack: st.stack.push(AbsValue::NilV), ip: next, ..st },
                        )
                    }
                },
                Op::True => {
                    if st.stack.len() >= 256 {
                        spec_fail(st, next, "Stack overflow."@, lines)
                    } else {
                        StepResult::Next(
                            VmSt { stack: st.stack.push(AbsValue::Truth(true)), ip: next, ..st },
                        )
                    }
                },
                Op::False => {
                    if st.stack.len() >= 256 {
                        spec_fail(st, next, "Stack overflow."@, lines)
                    } else {
                        StepResult::Next(
                            VmSt { stack: st.stack.push(AbsValue::Truth(false)), ip: next, ..st },
                        )
                    }
                },
                Op::Negate => {
                    if st.stack.len() == 0 {
                        spec_fail(st, next, "Stack underflow."@, lines)
                    } else {
                        match st.stack.last() {
                            AbsValue::Num(bits) => StepResult::Next(
                                VmSt {
                                    stack: st.stack.drop_last().push(
                                        AbsValue::Num(num_neg_bits(bits)),
                                    ),
                                    ip: next,
                                    ..st
                                },
                            ),
                            _ => spec_fail(
                                VmSt { stack: st.stack.drop_last(), ..st },
                                next,
                                "Operand must be a number."@,
                                lines,
                            ),
                        }
                    }
                },
                Op::Not => {
                    if st.stack.len() == 0 {
                        spec_fail(st, next, "Stack underflow."@, lines)
                    } else {
                        StepResult::Next(
                            VmSt {
                                stack: st.stack.drop_last().push(
                                    AbsValue::Truth(spec_falsey(st.stack.last())),
                                ),
                                ip: next,
                                ..st
                            },
                        )
                    }
                },
                Op::Equal => {
                    if st.stack.len() < 2 {
                        spec_fail(st, next, "Stack underflow."@, lines)
                    } else {
                        let v2 = st.stack.last();
                        let v1 = st.stack.drop_last().last();
                        StepResult::Next(
                            VmSt {
                                stack: st.stack.drop_last().drop_last().push(
                                    AbsValue::Truth(spec_value_eq(v1, v2)),
                                ),
                                ip: next,
                                ..st
                            },
                        )
                    }
                },
                Op::Greater => spec_binary_num(st, next, lines, Opcode::Greater),
                Op::Less => spec_binary_num(st, next, lines, Opcode::Less),
                Op::Add => {
                    if st.stack.len() < 2 {
                        spec_fail(st, next, "Stack underflow."@, lines)
                    } else {
                        let v2 = st.stack.last();
                        let v1 = st.stack.drop_last().last();
                        let popped = st.stack.drop_last().drop_last();
                        match (v1, v2) {
                            (AbsValue::Num(a), AbsValue::Num(b)) => StepResult::Next(
                                VmSt {
                                    stack: popped.push(AbsValue::Num(num_add_bits(b, a))),
                                    ip: next,
                                    ..st
                                },
                            ),
                            (AbsValue::Text(i1, t1), AbsValue::Text(i2, t2)) => {
                                let t = t1 + t2;
                                StepResult::Next(
                                    VmSt {
                                        stack: popped.push(
                                            AbsValue::Text(spec_intern_id(st.interns, t), t),
                                        ),
                                        interns: spec_intern_table(st.interns, t),
                                        ip: next,
                                        ..st
                                    },
                                )
                            },
                            _ => spec_fail(
                                VmSt { stack: popped, ..st },
                                next,
                                "Operands must be two numbers or two strings."@,
                                lines,
                            ),
                        }
                    }
                },
                Op::Subtract => spec_binary_num(st, next, lines, Opcode::Subtract),
                Op::Multiply => spec_binary_num(st, next, lines, Opcode::Multiply),
                Op::Divide => spec_binary_num(st, next, lines, Opcode::Divide),
            },
        }
    }
}

/// The numeric binary operations: pop the right then the left operand;
/// both must be numbers. The operands reach the operation in popped
/// order, so the left operand is the second one popped.
pub open spec fn spec_binary_num(st: VmSt, next: int, lines: Seq<usize>, oc: Opcode) -> StepResult {
    if st.stack.len() < 2 {
        spec_fail(st, next, "Stack underflow."@, lines)
    } else {
        let b_val = st.stack.last();
        let a_val = st.stack.drop_last().last();
        let popped = st.stack.drop_last().drop_last();
        match (b_val, a_val) {
            (AbsValue::Num(b), AbsValue::Num(a)) => {
                let res = match oc {
                    Opcode::Greater => AbsValue::Truth(num_gt_bits(a, b)),
                    Opcode::Less => AbsValue::Truth(num_lt_bits(a, b)),
                    Opcode::Subtract => AbsValue::Num(num_sub_bits(a, b)),
                    Opcode::Multiply => AbsValue::Num(num_mul_bits(a, b)),
                    _ => AbsValue::Num(num_div_bits(a, b)),
                };
                StepResult::Next(VmSt { stack: popped.push(res), ip: next, ..st })
            },
            _ => spec_fail(
                VmSt { stack: popped, ..st },
                next,
                "Operands must be numbers."@,
                lines,
            ),
        }
    }
}

/// `n` steps of the machine; stops early at a halt or a failure.
pub open spec fn spec_run(
    st: VmSt,
    code: Seq<u8>,
    consts: Seq<AbsValue>,
    lines: Seq<usize>,
    n: nat,
) -> StepResult
    decreases n,
{
    if n == 0 {
        StepResult::Next(st)
    } else {
        match spec_run(st, code, consts, lines, (n - 1) as nat) {
            StepResult::Next(s2) => spec_step(s2, code, consts, lines),
            done => done,
        }
    }
}


/// `spec_lookup` finds the last binding of `k`.
proof fn lemma_lookup_at(g: Seq<(usize, AbsValue)>, k: usize, i: int)
    requires
        0 <= i < g.len(),
        g[i].0 == k,
        forall|j: int| i < j < g.len() ==> (#[trigger] g[j]).0 != k,
    ensures
        spec_lookup(g, k) == Some(g[i].1),
    decreases g.len(),
{
    if i == g.len() - 1 {
    } else {
        lemma_lookup_at(g.drop_last(), k, i);
    }
}

/// Without a binding of `k`, `spec_lookup` finds nothing.
proof fn lemma_lookup_none(g: Seq<(usize, AbsValue)>, k: usize)
    requires
        forall|j: int| 0 <= j < g.len() ==> (#[trigger] g[j]).0 != k,
    ensures
        spec_lookup(g, k) is None,
    decreases g.len(),
{
    if g.len() > 0 {
        lemma_lookup_none(g.drop_last(), k);
    }
}

/// Rebinding `k` replaces its last binding in place.
proof fn lemma_bind_at(g: Seq<(usize, AbsValue)>, k: usize, v: AbsValue, i: int)
    requires
        0 <= i < g.len(),
        g[i].0 == k,
        forall|j: int| i < j < g.len() ==> (#[trigger] g[j]).0 != k,
    ensures
        spec_bind(g, k, v) == g.update(i, (k, v)),
{
    let j = spec_key_at(g, k);
    assert(0 <= j < g.len() && g[j].0 == k && (forall|l: int|
        j < l < g.len() ==> (#[trigger] g[l]).0 != k));
    if j < i {
        assert(g[i].0 != k);
    } else if i < j {
        assert(g[j].0 != k);
    }
}

/// Binding a fresh key appends it.
proof fn lemma_bind_new(g: Seq<(usize, AbsValue)>, k: usize, v: AbsValue)
    requires
        forall|j: int| 0 <= j < g.len() ==> (#[trigger] g[j]).0 != k,
    ensures
        spec_bind(g, k, v) == g.push((k, v)),
{
}

/// The mathematical form of the globals table.
pub open spec fn globals_abs(g: Seq<(usize, Value)>) -> Seq<(usize, AbsValue)> {
    g.map(|i: int, p: (usize, Value)| (p.0, p.1@))
}

/// A string identity the globals still reference: as some variable's
/// interned name, or as a string value bound to one.
pub open spec fn spec_global_ref(globals: Seq<(usize, AbsValue)>, id: usize) -> bool {
    exists|j: int|
        0 <= j < globals.len() && ((#[trigger] globals[j]).0 == id || (globals[j].1 matches
        AbsValue::Text(t_id, t) && t_id == id))
}

/// Look `k` up in the globals, most recent binding first.
fn globals_lookup(g: &Vec<(usize, Value)>, k: usize) -> (r: Option<&Value>)
    ensures
        match r {
            Some(v) => spec_lookup(globals_abs(g@), k) == Some(v@),
            None => spec_lookup(globals_abs(g@), k) is None,
        },
{
    let mut i: usize = g.len();
    while i > 0
        invariant
            i <= g@.len(),
            forall|j: int| i <= j < g@.len() ==> (#[trigger] g@[j]).0 != k,
        decreases i,
    {
        i -= 1;
        if g[i].0 == k {
            proof {
                lemma_lookup_at(globals_abs(g@), k, i as int);
            }
            return Some(&g[i].1);
        }
    }
    proof {
        lemma_lookup_none(globals_abs(g@), k);
    }
    None
}

/// Bind `k` to `v` in the globals: replace its last binding, or append.
fn globals_bind(g: &mut Vec<(usize, Value)>, k: usize, v: Value)
    ensures
        globals_abs(final(g)@) =~= spec_bind(globals_abs(old(g)@), k, v@),
{
    let mut i: usize = g.len();
    while i > 0
        invariant
            i <= g@.len(),
            g@ == old(g)@,
            forall|j: int| i <= j < g@.len() ==> (#[trigger] g@[j]).0 != k,
        decreases i,
    {
        i -= 1;
        if g[i].0 == k {
            proof {
                lemma_bind_at(globals_abs(g@), k, v@, i as int);
            }
            g[i] = (k, v);
            proof {
                assert(globals_abs(g@) =~= globals_abs(old(g)@).update(i as int, (k, v@)));
            }
            return ;
        }
    }
    proof {
        lemma_bind_new(globals_abs(g@), k, v@);
    }
    g.push((k, v));
    proof {
        assert(globals_abs(g@) =~= globals_abs(old(g)@).push((k, v@)));
    }
}

/// The virtual machine: instruction pointer, value stack, interner
/// shared with the compiler, globals, and the two output texts that
/// stand in for the standard and error streams.
pub struct VM {
    pub ip: usize,
    pub values: ValueStack,
    pub strings: StringInterns,
    pub globals: Vec<(usize, Value)>,
    pub stdout: String,
    pub stderr: String,
}

impl VM {
    /// The stack within bounds and the interner consistent.
    pub open spec fn wf(&self) -> bool {
        &&& self.values.wf()
        &&& self.strings.wf()
    }

    /// The machine state of this virtual machine.
    pub open spec fn st(&self) -> VmSt {
        VmSt {
            stack: self.values.view_abs(),
            globals: globals_abs(self.globals@),
            interns: self.strings@,
            out: self.stdout@,
            errs: self.stderr@,
            ip: self.ip as int,
        }
    }

    /// A fresh machine: empty stack, no globals, empty outputs.
    pub fn new() -> (r: VM)
        ensures
            r.wf(),
            r.ip == 0,
            r.st().stack =~= Seq::<AbsValue>::empty(),
            r.st().globals =~= Seq::<(usize, AbsValue)>::empty(),
            r.st().interns =~= Seq::<Option<Seq<char>>>::empty(),
            r.st().out =~= Seq::<char>::empty(),
            r.st().errs =~= Seq::<char>::empty(),
    {
        VM {
            ip: 0,
            values: ValueStack::new(),
            strings: StringInterns::new(),
            globals: Vec::new(),
            stdout: String::new(),
            stderr: String::new(),
        }
    }

    /// Report a runtime error: the message, then the line of the
    /// instruction at the current pointer.
    fn runtime_err(&mut self, msg: &str, chunk: &Chunk) -> (r: InterpretResult)
        requires
            old(self).wf(),
        ensures
            final(self).wf(),
            r == Err::<(), InterpretError>(InterpretError::RuntimeError),
            final(self).stderr@ == spec_runtime_err(
                old(self).stderr@,
                msg@,
                chunk.lines@,
                old(self).ip as int,
            ),
            final(self).values == old(self).values,
            final(self).strings == old(self).strings,
            final(self).globals == old(self).globals,
            final(self).stdout == old(self).stdout,
            final(self).ip == old(self).ip,
    {
        let line = if self.ip < chunk.lines.len() {
            chunk.lines[self.ip]
        } else {
            0
        };
        self.stderr.append(msg);
        self.stderr.append("\n[line ");
        let lt = crate::text::usize_string(line);
        self.stderr.append(lt.as_str());
        self.stderr.append("] in script\n");
        proof {
            assert(self.stderr@ =~= spec_runtime_err(
                old(self).stderr@,
                msg@,
                chunk.lines@,
                old(self).ip as int,
            ));
        }
        Err(InterpretError::RuntimeError)
    }

    /// Report an invalid instruction byte on the standard output.
    fn bad_op(&mut self, b: u8) -> (r: InterpretResult)
        requires
            old(self).wf(),
        ensures
            final(self).wf(),
            r == Err::<(), InterpretError>(InterpretError::CompileError),
            final(self).stdout@ == old(self).stdout@ + "Invalid opcode "@ + dec_text(b as nat)
                + "\n"@,
            final(self).values == old(self).values,
            final(self).strings == old(self).strings,
            final(self).globals == old(self).globals,
            final(self).stderr == old(self).stderr,
            final(self).ip == old(self).ip,
    {
        self.stdout.append("Invalid opcode ");
        let bt = crate::text::dec_string(b as u64);
        self.stdout.append(bt.as_str());
        self.stdout.append("\n");
        proof {
            assert(self.stdout@ =~= old(self).stdout@ + "Invalid opcode "@ + dec_text(b as nat)
                + "\n"@);
        }
        Err(InterpretError::CompileError)
    }
}


impl VM {
    /// Execute the instruction at the current pointer: one step of the
    /// machine. `None` means execution continues; `Ok` is a `Return`;
    /// a runtime fault or a malformed instruction ends the run with the
    /// matching error.
    #[verifier::rlimit(100)]
    fn step_once(&mut self, chunk: &Chunk) -> (r: Option<InterpretResult>)
        requires
            old(self).wf(),
        ensures
            final(self).wf(),
            match r {
                None => spec_step(old(self).st(), chunk.code@, chunk.consts(), chunk.lines@)
                    == StepResult::Next(final(self).st()),
                Some(Ok(_)) => spec_step(old(self).st(), chunk.code@, chunk.consts(), chunk.lines@)
                    == StepResult::Halt(final(self).st()),
                Some(Err(InterpretError::RuntimeError)) => spec_step(
                    old(self).st(),
                    chunk.code@,
                    chunk.consts(),
                    chunk.lines@,
                ) == StepResult::Fail(final(self).st()),
                Some(Err(InterpretError::CompileError)) => spec_step(
                    old(self).st(),
                    chunk.code@,
                    chunk.consts(),
                    chunk.lines@,
                ) == StepResult::BadOp(final(self).st()),
            },
    {
        let ghost pre = self.st();
        let ghost code = chunk.code@;
        let ghost consts = chunk.consts();
        let ghost lines = chunk.lines@;
        let n = chunk.code.len();
        if self.ip >= n {
            let e = self.bad_op(0);
            proof {
                assert(spec_step(pre, code, consts, lines) == StepResult::BadOp(self.st()))
                    by {
                    assert(self.st() =~= VmSt {
                        out: pre.out + "Invalid opcode "@ + dec_text(0) + "\n"@,
                        ..pre
                    });
                }
            }
            return Some(e);
        }
        let b = chunk.code[self.ip];
        let oc = match Opcode::from_byte(b) {
            Some(oc) => oc,
            None => {
                let e = self.bad_op(b);
                proof {
                    assert(self.st() =~= VmSt {
                        out: pre.out + "Invalid opcode "@ + dec_text(b as nat) + "\n"@,
                        ..pre
                    });
                }
                return Some(e);
            },
        };
        let width: usize = match oc {
            Opcode::Jump | Opcode::JumpIfFalse | Opcode::Loop => 2,
            Opcode::Constant | Opcode::DefineGlobal | Opcode::GetGlobal | Opcode::SetGlobal
                | Opcode::GetLocal | Opcode::SetLocal => 1,
            _ => 0,
        };
        if n - self.ip < 1 + width {
            let e = self.bad_op(b);
            proof {
                assert(spec_step(pre, code, consts, lines) == StepResult::BadOp(self.st())) by {
                    assert(self.st() =~= VmSt {
                        out: pre.out + "Invalid opcode "@ + dec_text(b as nat) + "\n"@,
                        ..pre
                    });
                }
            }
            return Some(e);
        }
        proof {
            assert(crate::instructions::spec_decode(code, pre.ip) == Some(
                (
                    crate::instructions::spec_decode_with(oc, code, pre.ip),
                    pre.ip + 1 + width,
                ),
            ));
        }
        match oc {
            Opcode::Return => {
                self.ip = self.ip + 1;
                proof {
                    assert(self.st() =~= VmSt { ip: pre.ip + 1, ..pre });
                }
                Some(Ok(()))
            },
            Opcode::Jump => {
                let d = (chunk.code[self.ip + 1] as u16) * 256 + (chunk.code[self.ip + 2] as u16);
                if d as usize > usize::MAX - 3 - self.ip {
                    let e = self.bad_op(b);
                    proof {
                        assert(self.st() =~= VmSt {
                            out: pre.out + "Invalid opcode "@ + dec_text(b as nat) + "\n"@,
                            ..pre
                        });
                    }
                    return Some(e);
                }
                self.ip = self.ip + 3 + d as usize;
                proof {
                    assert(self.st() =~= VmSt { ip: pre.ip + 3 + d, ..pre });
                }
                None
            },
            Opcode::JumpIfFalse => {
                let d = (chunk.code[self.ip + 1] as u16) * 256 + (chunk.code[self.ip + 2] as u16);
                self.ip = self.ip + 3;
                if self.values.depth() == 0 {
                    let e = self.runtime_err("Stack underflow.", chunk);
                    proof {
                        assert(self.st() =~= spec_fail(pre, pre.ip + 3, "Stack underflow."@, lines)->Fail_0);
                    }
                    return Some(e);
                }
                if self.values.peek().is_falsey() {
                    if d as usize > usize::MAX - self.ip {
                        self.ip = self.ip - 3;
                        let e = self.bad_op(b);
                        proof {
                            assert(self.st() =~= VmSt {
                                out: pre.out + "Invalid opcode "@ + dec_text(b as nat) + "\n"@,
                                ..pre
                            });
                        }
                        return Some(e);
                    }
                    self.ip = self.ip + d as usize;
                    proof {
                        assert(self.st() =~= VmSt { ip: pre.ip + 3 + d, ..pre });
                    }
                } else {
                    proof {
                        assert(self.st() =~= VmSt { ip: pre.ip + 3, ..pre });
                    }
                }
                None
            },
            Opcode::Loop => {
                let d = (chunk.code[self.ip + 1] as u16) * 256 + (chunk.code[self.ip + 2] as u16);
                self.ip = self.ip + 3;
                if (d as usize) + 3 > self.ip {
                    self.ip = self.ip - 3;
                    let e = self.bad_op(b);
                    proof {
                        assert(self.st() =~= VmSt {
                            out: pre.out + "Invalid opcode "@ + dec_text(b as nat) + "\n"@,
                            ..pre
                        });
                    }
                    return Some(e);
                }
                self.ip = self.ip - (d as usize + 3);
                proof {
                    assert(self.st() =~= VmSt { ip: pre.ip + 3 - (d + 3), ..pre });
                }
                None
            },
            Opcode::Print => {
                self.ip = self.ip + 1;
                if self.values.depth() == 0 {
                    let e = self.runtime_err("Stack underflow.", chunk);
                    proof {
                        assert(self.st() =~= spec_fail(pre, pre.ip + 1, "Stack underflow."@, lines)->Fail_0);
                    }
                    return Some(e);
                }
                let v = self.values.pop();
                let text = v.to_text();
                self.stdout.append(text.as_str());
                self.stdout.append("\n");
                proof {
                    assert(self.st() =~= VmSt {
                        stack: pre.stack.drop_last(),
                        out: pre.out + spec_value_text(pre.stack.last()) + "\n"@,
                        ip: pre.ip + 1,
                        ..pre
                    });
                }
                None
            },
            Opcode::Pop => {
                self.ip = self.ip + 1;
                if self.values.depth() == 0 {
                    let e = self.runtime_err("Stack underflow.", chunk);
                    proof {
                        assert(self.st() =~= spec_fail(pre, pre.ip + 1, "Stack underflow."@, lines)->Fail_0);
                    }
                    return Some(e);
                }
                self.values.pop();
                proof {
                    assert(self.st() =~= VmSt {
                        stack: pre.stack.drop_last(),
                        ip: pre.ip + 1,
                        ..pre
                    });
                }
                None
            },
            Opcode::Constant => {
                let idx = chunk.code[self.ip + 1];
                self.ip = self.ip + 2;
                if idx as usize >= chunk.constants.len() {
                    self.ip = self.ip - 2;
                    let e = self.bad_op(b);
                    proof {
                        assert(self.st() =~= VmSt {
                            out: pre.out + "Invalid opcode "@ + dec_text(b as nat) + "\n"@,
                            ..pre
                        });
                    }
                    return Some(e);
                }
                if self.values.depth() >= STACK_MAX {
                    let e = self.runtime_err("Stack overflow.", chunk);
                    proof {
                        assert(self.st() =~= spec_fail(pre, pre.ip + 2, "Stack overflow."@, lines)->Fail_0);
                    }
                    return Some(e);
                }
                let v = chunk.get_constant_unwrap(idx).duplicate();
                self.values.push(v);
                proof {
                    assert(self.st() =~= VmSt {
                        stack: pre.stack.push(consts[idx as int]),
                        ip: pre.ip + 2,
                        ..pre
                    });
                }
                None
            },
            Opcode::DefineGlobal => {
                let idx = chunk.code[self.ip + 1];
                self.ip = self.ip + 2;
                if idx as usize >= chunk.constants.len() {
                    self.ip = self.ip - 2;
                    let e = self.bad_op(b);
                    proof {
                        assert(self.st() =~= VmSt {
                            out: pre.out + "Invalid opcode "@ + dec_text(b as nat) + "\n"@,
                            ..pre
                        });
                    }
                    return Some(e);
                }
                let name_id: usize = match chunk.get_constant_unwrap(idx) {
                    Value::Str(is) => is.id,
                    _ => {
                        self.ip = self.ip - 2;
                        let e = self.bad_op(b);
                        proof {
                            assert(self.st() =~= VmSt {
                                out: pre.out + "Invalid opcode "@ + dec_text(b as nat) + "\n"@,
                                ..pre
                            });
                        }
                        return Some(e);
                    },
                };
                if self.values.depth() == 0 {
                    let e = self.runtime_err("Stack underflow.", chunk);
                    proof {
                        assert(self.st() =~= spec_fail(pre, pre.ip + 2, "Stack underflow."@, lines)->Fail_0);
                    }
                    return Some(e);
                }
                let v = self.values.pop();
                globals_bind(&mut self.globals, name_id, v);
                proof {
                    assert(self.st() =~= VmSt {
                        stack: pre.stack.drop_last(),
                        globals: spec_bind(pre.globals, consts[idx as int]->Text_0, pre.stack.last()),
                        ip: pre.ip + 2,
                        ..pre
                    });
                }
                None
            },
            Opcode::GetGlobal => {
                let idx = chunk.code[self.ip + 1];
                self.ip = self.ip + 2;
                if idx as usize >= chunk.constants.len() {
                    self.ip = self.ip - 2;
                    let e = self.bad_op(b);
                    proof {
                        assert(self.st() =~= VmSt {
                            out: pre.out + "Invalid opcode "@ + dec_text(b as nat) + "\n"@,
                            ..pre
                        });
                    }
                    return Some(e);
                }
                let found: Option<Value>;
                let name_text: String;
                match chunk.get_constant_unwrap(idx) {
                    Value::Str(is) => {
                        name_text = is.text.clone();
                        found = match globals_lookup(&self.globals, is.id) {
                            Some(v) => Some(v.duplicate()),
                            None => None,
                        };
                    },
                    _ => {
                        self.ip = self.ip - 2;
                        let e = self.bad_op(b);
                        proof {
                            assert(self.st() =~= VmSt {
                                out: pre.out + "Invalid opcode "@ + dec_text(b as nat) + "\n"@,
                                ..pre
                            });
                        }
                        return Some(e);
                    },
                }
                match found {
                    Some(v) => {
                        if self.values.depth() >= STACK_MAX {
                            let e = self.runtime_err("Stack overflow.", chunk);
                            proof {
                                assert(self.st() =~= spec_fail(pre, pre.ip + 2, "Stack overflow."@, lines)->Fail_0);
                            }
                            return Some(e);
                        }
                        self.values.push(v);
                        proof {
                            assert(self.st() =~= VmSt {
                                stack: pre.stack.push(
                                    spec_lookup(pre.globals, consts[idx as int]->Text_0)->Some_0,
                                ),
                                ip: pre.ip + 2,
                                ..pre
                            });
                        }
                        None
                    },
                    None => {
                        let mut msg: String = "Undefined variable '".to_owned();
                        msg.append(name_text.as_str());
                        msg.append("'.");
                        let e = self.runtime_err(msg.as_str(), chunk);
                        proof {
                            assert(msg@ =~= "Undefined variable '"@ + consts[idx as int]->Text_1
                                + "'."@);
                            assert(self.st() =~= spec_fail(
                                pre,
                                pre.ip + 2,
                                "Undefined variable '"@ + consts[idx as int]->Text_1 + "'."@,
                                lines,
                            )->Fail_0);
                        }
                        Some(e)
                    },
                }
            },
            Opcode::SetGlobal => {
                let idx = chunk.code[self.ip + 1];
                self.ip = self.ip + 2;
                if idx as usize >= chunk.constants.len() {
                    self.ip = self.ip - 2;
                    let e = self.bad_op(b);
                    proof {
                        assert(self.st() =~= VmSt {
                            out: pre.out + "Invalid opcode "@ + dec_text(b as nat) + "\n"@,
                            ..pre
                        });
                    }
                    return Some(e);
                }
                let name_id: usize;
                let name_text: String;
                match chunk.get_constant_unwrap(idx) {
                    Value::Str(is) => {
                        name_id = is.id;
                        name_text = is.text.clone();
                    },
                    _ => {
                        self.ip = self.ip - 2;
                        let e = self.bad_op(b);
                        proof {
                            assert(self.st() =~= VmSt {
                                out: pre.out + "Invalid opcode "@ + dec_text(b as nat) + "\n"@,
                                ..pre
                            });
                        }
                        return Some(e);
                    },
                }
                if self.values.depth() == 0 {
                    let e = self.runtime_err("Stack underflow.", chunk);
                    proof {
                        assert(self.st() =~= spec_fail(pre, pre.ip + 2, "Stack underflow."@, lines)->Fail_0);
                    }
                    return Some(e);
                }
                let exists_already = match globals_lookup(&self.globals, name_id) {
                    Some(_) => true,
                    None => false,
                };
                if exists_already {
                    let v = self.values.peek().duplicate();
                    globals_bind(&mut self.globals, name_id, v);
                    proof {
                        assert(self.st() =~= VmSt {
                            globals: spec_bind(
                                pre.globals,
                                consts[idx as int]->Text_0,
                                pre.stack.last(),
                            ),
                            ip: pre.ip + 2,
                            ..pre
                        });
                    }
                    None
                } else {
                    let mut msg: String = "Undefined variable '".to_owned();
                    msg.append(name_text.as_str());
                    msg.append("'.");
                    let e = self.runtime_err(msg.as_str(), chunk);
                    proof {
                        assert(msg@ =~= "Undefined variable '"@ + consts[idx as int]->Text_1
                            + "'."@);
                        assert(self.st() =~= spec_fail(
                            pre,
                            pre.ip + 2,
                            "Undefined variable '"@ + consts[idx as int]->Text_1 + "'."@,
                            lines,
                        )->Fail_0);
                    }
                    Some(e)
                }
            },
            Opcode::GetLocal => {
                let slot = chunk.code[self.ip + 1];
                self.ip = self.ip + 2;
                if slot as usize >= self.values.depth() {
                    let e = self.runtime_err("Stack underflow.", chunk);
                    proof {
                        assert(self.st() =~= spec_fail(pre, pre.ip + 2, "Stack underflow."@, lines)->Fail_0);
                    }
                    return Some(e);
                }
                if self.values.depth() >= STACK_MAX {
                    let e = self.runtime_err("Stack overflow.", chunk);
                    proof {
                        assert(self.st() =~= spec_fail(pre, pre.ip + 2, "Stack overflow."@, lines)->Fail_0);
                    }
                    return Some(e);
                }
                let v = self.values.get_slot(slot as usize).duplicate();
                self.values.push(v);
                proof {
                    assert(self.st() =~= VmSt {
                        stack: pre.stack.push(pre.stack[slot as int]),
                        ip: pre.ip + 2,
                        ..pre
                    });
                }
                None
            },
            Opcode::SetLocal => {
                let slot = chunk.code[self.ip + 1];
                self.ip = self.ip + 2;
                if self.values.depth() == 0 || slot as usize >= self.values.depth() {
                    let e = self.runtime_err("Stack underflow.", chunk);
                    proof {
                        assert(self.st() =~= spec_fail(pre, pre.ip + 2, "Stack underflow."@, lines)->Fail_0);
                    }
                    return Some(e);
                }
                let v = self.values.peek().duplicate();
                self.values.set_slot(slot as usize, v);
                proof {
                    assert(self.st() =~= VmSt {
                        stack: pre.stack.update(slot as int, pre.stack.last()),
                        ip: pre.ip + 2,
                        ..pre
                    });
                }
                None
            },
            Opcode::Nil | Opcode::True | Opcode::False => {
                self.ip = self.ip + 1;
                if self.values.depth() >= STACK_MAX {
                    let e = self.runtime_err("Stack overflow.", chunk);
                    proof {
                        assert(self.st() =~= spec_fail(pre, pre.ip + 1, "Stack overflow."@, lines)->Fail_0);
                    }
                    return Some(e);
                }
                let v = match oc {
                    Opcode::True => Value::Bool(true),
                    Opcode::False => Value::Bool(false),
                    _ => Value::Nil,
                };
                self.values.push(v);
                proof {
                    match oc {
                        Opcode::True => {
                            assert(self.st() =~= VmSt {
                                stack: pre.stack.push(AbsValue::Truth(true)),
                                ip: pre.ip + 1,
                                ..pre
                            });
                        },
                        Opcode::False => {
                            assert(self.st() =~= VmSt {
                                stack: pre.stack.push(AbsValue::Truth(false)),
                                ip: pre.ip + 1,
                                ..pre
                            });
                        },
                        _ => {
                            assert(self.st() =~= VmSt {
                                stack: pre.stack.push(AbsValue::NilV),
                                ip: pre.ip + 1,
                                ..pre
                            });
                        },
                    }
                }
                None
            },
            Opcode::Negate => {
                self.ip = self.ip + 1;
                if self.values.depth() == 0 {
                    let e = self.runtime_err("Stack underflow.", chunk);
                    proof {
                        assert(self.st() =~= spec_fail(pre, pre.ip + 1, "Stack underflow."@, lines)->Fail_0);
                    }
                    return Some(e);
                }
                let v = self.values.pop();
                match v {
                    Value::Number(bits) => {
                        self.values.push(Value::Number(num_neg(bits)));
                        proof {
                            assert(self.st() =~= VmSt {
                                stack: pre.stack.drop_last().push(
                                    AbsValue::Num(num_neg_bits(pre.stack.last()->Num_0)),
                                ),
                                ip: pre.ip + 1,
                                ..pre
                            });
                        }
                        None
                    },
                    _ => {
                        let e = self.runtime_err("Operand must be a number.", chunk);
                        proof {
                            assert(self.st() =~= spec_fail(
                                VmSt { stack: pre.stack.drop_last(), ..pre },
                                pre.ip + 1,
                                "Operand must be a number."@,
                                lines,
                            )->Fail_0);
                        }
                        Some(e)
                    },
                }
            },
            Opcode::Not => {
                self.ip = self.ip + 1;
                if self.values.depth() == 0 {
                    let e = self.runtime_err("Stack underflow.", chunk);
                    proof {
                        assert(self.st() =~= spec_fail(pre, pre.ip + 1, "Stack underflow."@, lines)->Fail_0);
                    }
                    return Some(e);
                }
                let v = self.values.pop();
                let falsey = v.is_falsey();
                self.values.push(Value::Bool(falsey));
                proof {
                    assert(self.st() =~= VmSt {
                        stack: pre.stack.drop_last().push(
                            AbsValue::Truth(spec_falsey(pre.stack.last())),
                        ),
                        ip: pre.ip + 1,
                        ..pre
                    });
                }
                None
            },
            Opcode::Equal => {
                self.ip = self.ip + 1;
                if self.values.depth() < 2 {
                    let e = self.runtime_err("Stack underflow.", chunk);
                    proof {
                        assert(self.st() =~= spec_fail(pre, pre.ip + 1, "Stack underflow."@, lines)->Fail_0);
                    }
                    return Some(e);
                }
                let v2 = self.values.pop();
                let v1 = self.values.pop();
                let eqv = value_eq(&v1, &v2);
                self.values.push(Value::Bool(eqv));
                proof {
                    assert(self.st() =~= VmSt {
                        stack: pre.stack.drop_last().drop_last().push(
                            AbsValue::Truth(
                                spec_value_eq(pre.stack.drop_last().last(), pre.stack.last()),
                            ),
                        ),
                        ip: pre.ip + 1,
                        ..pre
                    });
                }
                None
            },
            Opcode::Greater | Opcode::Less | Opcode::Subtract | Opcode::Multiply
                | Opcode::Divide => {
                self.ip = self.ip + 1;
                if self.values.depth() < 2 {
                    let e = self.runtime_err("Stack underflow.", chunk);
                    proof {
                        assert(self.st() =~= spec_fail(pre, pre.ip + 1, "Stack underflow."@, lines)->Fail_0);
                    }
                    return Some(e);
                }
                let b_val = self.values.pop();
                let a_val = self.values.pop();
                match (a_val, b_val) {
                    (Value::Number(a), Value::Number(bv)) => {
                        let res = match oc {
                            Opcode::Greater => Value::Bool(num_gt(a, bv)),
                            Opcode::Less => Value::Bool(num_lt(a, bv)),
                            Opcode::Subtract => Value::Number(num_sub(a, bv)),
                            Opcode::Multiply => Value::Number(num_mul(a, bv)),
                            _ => Value::Number(num_div(a, bv)),
                        };
                        proof {
                            assert(self.values.view_abs().len() == self.values.values@.len());
                            assert(self.values.values@.len() + 2 == pre.stack.len());
                        }
                        self.values.push(res);
                        proof {
                            let sa = pre.stack.drop_last().last()->Num_0;
                            let sb = pre.stack.last()->Num_0;
                            let sres = match oc {
                                Opcode::Greater => AbsValue::Truth(num_gt_bits(sa, sb)),
                                Opcode::Less => AbsValue::Truth(num_lt_bits(sa, sb)),
                                Opcode::Subtract => AbsValue::Num(num_sub_bits(sa, sb)),
                                Opcode::Multiply => AbsValue::Num(num_mul_bits(sa, sb)),
                                _ => AbsValue::Num(num_div_bits(sa, sb)),
                            };
                            assert(self.st() =~= VmSt {
                                stack: pre.stack.drop_last().drop_last().push(sres),
                                ip: pre.ip + 1,
                                ..pre
                            });
                        }
                        None
                    },
                    _ => {
                        let e = self.runtime_err("Operands must be numbers.", chunk);
                        proof {
                            assert(self.st() =~= spec_fail(
                                VmSt { stack: pre.stack.drop_last().drop_last(), ..pre },
                                pre.ip + 1,
                                "Operands must be numbers."@,
                                lines,
                            )->Fail_0);
                        }
                        Some(e)
                    },
                }
            },
            Opcode::Add => {
                self.ip = self.ip + 1;
                if self.values.depth() < 2 {
                    let e = self.runtime_err("Stack underflow.", chunk);
                    proof {
                        assert(self.st() =~= spec_fail(pre, pre.ip + 1, "Stack underflow."@, lines)->Fail_0);
                    }
                    return Some(e);
                }
                let v2 = self.values.pop();
                let v1 = self.values.pop();
                match (v1, v2) {
                    (Value::Number(a), Value::Number(bv)) => {
                        self.values.push(Value::Number(num_add(bv, a)));
                        proof {
                            assert(self.st() =~= VmSt {
                                stack: pre.stack.drop_last().drop_last().push(
                                    AbsValue::Num(
                                        num_add_bits(
                                            pre.stack.last()->Num_0,
                                            pre.stack.drop_last().last()->Num_0,
                                        ),
                                    ),
                                ),
                                ip: pre.ip + 1,
                                ..pre
                            });
                        }
                        None
                    },
                    (Value::Str(s1), Value::Str(s2)) => {
                        let joined = s1.text.clone().concat(s2.text.as_str());
                        let ghost tt = joined@;
                        proof {
                            assert(tt == pre.stack.drop_last().last()->Text_1
                                + pre.stack.last()->Text_1);
                        }
                        let val = self.strings.build_string_value(joined.as_str());
                        self.values.push(val);
                        proof {
                            let ch = val@->Text_0;
                            if crate::value::has_live(pre.interns, tt) {
                                assert(self.strings@ == pre.interns);
                                assert(ch == crate::value::live_id(pre.interns, tt));
                                assert(ch == spec_intern_id(pre.interns, tt));
                            } else {
                                assert(self.strings@ == pre.interns.push(Some(tt)));
                                assert(ch < self.strings@.len() && self.strings@[ch as int]
                                    == Some(tt));
                                if (ch as int) < pre.interns.len() {
                                    assert(pre.interns[ch as int] == Some(tt));
                                    assert(false);
                                }
                                assert(ch == spec_intern_id(pre.interns, tt));
                            }
                            assert(self.st() =~= VmSt {
                                stack: pre.stack.drop_last().drop_last().push(
                                    AbsValue::Text(spec_intern_id(pre.interns, tt), tt),
                                ),
                                interns: spec_intern_table(pre.interns, tt),
                                ip: pre.ip + 1,
                                ..pre
                            });
                        }
                        None
                    },
                    _ => {
                        let e = self.runtime_err(
                            "Operands must be two numbers or two strings.",
                            chunk,
                        );
                        proof {
                            assert(self.st() =~= spec_fail(
                                VmSt { stack: pre.stack.drop_last().drop_last(), ..pre },
                                pre.ip + 1,
                                "Operands must be two numbers or two strings."@,
                                lines,
                            )->Fail_0);
                        }
                        Some(e)
                    },
                }
            },
        }
    }
}

impl VM {
    /// Run `chunk` from the current instruction pointer until a `Return`
    /// halts it or an error ends it: the machine that remains is the one
    /// that stepping the starting machine produces. An execution of
    /// astronomical length is cut off as a runtime error after the
    /// maximum step count.
    pub fn run(&mut self, chunk: &Chunk) -> (r: InterpretResult)
        requires
            old(self).wf(),
        ensures
            final(self).wf(),
            (exists|n: nat|
                #![auto]
                match r {
                    Ok(_) => spec_run(old(self).st(), chunk.code@, chunk.consts(), chunk.lines@, n)
                        == StepResult::Halt(final(self).st()),
                    Err(InterpretError::RuntimeError) => spec_run(
                        old(self).st(),
                        chunk.code@,
                        chunk.consts(),
                        chunk.lines@,
                        n,
                    ) == StepResult::Fail(final(self).st()),
                    Err(InterpretError::CompileError) => spec_run(
                        old(self).st(),
                        chunk.code@,
                        chunk.consts(),
                        chunk.lines@,
                        n,
                    ) == StepResult::BadOp(final(self).st()),
                }) || (r == Err::<(), InterpretError>(InterpretError::RuntimeError) && spec_run(
                old(self).st(),
                chunk.code@,
                chunk.consts(),
                chunk.lines@,
                u64::MAX as nat,
            ) is Next),
    {
        let ghost init = self.st();
        let mut steps: u64 = 0;
        loop
            invariant
                self.wf(),
                spec_run(init, chunk.code@, chunk.consts(), chunk.lines@, steps as nat)
                    == StepResult::Next(self.st()),
                init == old(self).st(),
            decreases u64::MAX - steps,
        {
            if steps == u64::MAX {
                return Err(InterpretError::RuntimeError);
            }
            let ghost pre = self.st();
            match self.step_once(chunk) {
                None => {
                    steps = steps + 1;
                    proof {
                        assert(spec_run(
                            init,
                            chunk.code@,
                            chunk.consts(),
                            chunk.lines@,
                            steps as nat,
                        ) == StepResult::Next(self.st()));
                    }
                },
                Some(res) => {
                    proof {
                        let n = (steps + 1) as nat;
                        assert(spec_run(init, chunk.code@, chunk.consts(), chunk.lines@, n)
                            == spec_step(pre, chunk.code@, chunk.consts(), chunk.lines@));
                    }
                    return res;
                },
            }
        }
    }

    /// Compile and run `source`. Compile errors append their diagnostics
    /// to the error text and nothing runs; otherwise the machine starts
    /// at the head of the compiled chunk and runs it to completion or to
    /// a runtime error.
    pub fn interpret(&mut self, source: String) -> (r: InterpretResult)
        requires
            old(self).wf(),
        ensures
            final(self).wf(),
            (exists|c: Chunk, n: nat, start: VmSt|
                #![auto]
                {
                    &&& c.wf()
                    &&& c.pending@ == Set::<int>::empty()
                    &&& start.stack == old(self).st().stack
                    &&& start.globals == old(self).st().globals
                    &&& start.out == old(self).st().out
                    &&& start.errs == old(self).st().errs
                    &&& start.ip == 0
                    &&& match r {
                        Ok(_) => spec_run(start, c.code@, c.consts(), c.lines@, n)
                            == StepResult::Halt(final(self).st()),
                        Err(InterpretError::RuntimeError) => spec_run(
                            start,
                            c.code@,
                            c.consts(),
                            c.lines@,
                            n,
                        ) == StepResult::Fail(final(self).st()) || spec_run(
                            start,
                            c.code@,
                            c.consts(),
                            c.lines@,
                            n,
                        ) is Next,
                        Err(InterpretError::CompileError) => spec_run(
                            start,
                            c.code@,
                            c.consts(),
                            c.lines@,
                            n,
                        ) == StepResult::BadOp(final(self).st()),
                    }
                }) || (r == Err::<(), InterpretError>(InterpretError::CompileError) && final(self).stdout@ == old(self).stdout@ && final(self).values == old(self).values && final(self).globals == old(self).globals && final(self).stderr@.len() > old(self).stderr@.len()),
    {
        let chunk = match compile(source, &mut self.strings, &mut self.stderr) {
            Some(c) => c,
            None => {
                return Err(InterpretError::CompileError);
            },
        };
        self.ip = 0;
        let ghost start = self.st();
        let r = self.run(&chunk);
        proof {
            if exists|n: nat|
                #![auto]
                match r {
                    Ok(_) => spec_run(start, chunk.code@, chunk.consts(), chunk.lines@, n)
                        == StepResult::Halt(self.st()),
                    Err(InterpretError::RuntimeError) => spec_run(
                        start,
                        chunk.code@,
                        chunk.consts(),
                        chunk.lines@,
                        n,
                    ) == StepResult::Fail(self.st()),
                    Err(InterpretError::CompileError) => spec_run(
                        start,
                        chunk.code@,
                        chunk.consts(),
                        chunk.lines@,
                        n,
                    ) == StepResult::BadOp(self.st()),
                } {
            } else {
                assert(r == Err::<(), InterpretError>(InterpretError::RuntimeError) && spec_run(
                    start,
                    chunk.code@,
                    chunk.consts(),
                    chunk.lines@,
                    u64::MAX as nat,
                ) is Next);
            }
        }
        r
    }

    /// Sweep the intern table between top-level inputs: every string
    /// still referenced from the globals, by name or as a value, stays
    /// live.
    pub fn garbage_collect(&mut self)
        requires
            old(self).wf(),
        ensures
            final(self).wf(),
            final(self).ip == old(self).ip,
            final(self).values == old(self).values,
            final(self).globals == old(self).globals,
            final(self).stdout == old(self).stdout,
            final(self).stderr == old(self).stderr,
            final(self).strings@.len() == old(self).strings@.len(),
            forall|i: int|
                0 <= i < final(self).strings@.len() ==> #[trigger] final(self).strings@[i]
                    == if spec_global_ref(globals_abs(old(self).globals@), i as usize) {
                    old(self).strings@[i]
                } else {
                    None::<Seq<char>>
                },
    {
        let mut live: Vec<usize> = Vec::new();
        let n = self.globals.len();
        let mut i: usize = 0;
        while i < n
            invariant
                n == self.globals@.len(),
                i <= n,
                self == old(self),
                forall|j: int| 0 <= j < i ==> live@.contains((#[trigger] self.globals@[j]).0),
                forall|j: int|
                    0 <= j < i ==> ((#[trigger] globals_abs(self.globals@)[j]).1 matches
                    AbsValue::Text(t_id, t) ==> live@.contains(t_id)),
                forall|w: int|
                    0 <= w < live@.len() ==> spec_global_ref(
                        globals_abs(self.globals@),
                        #[trigger] live@[w],
                    ),
            decreases n - i,
        {
            let k = self.globals[i].0;
            live.push(k);
            proof {
                assert((globals_abs(self.globals@)[i as int]).0 == k);
            }
            match &self.globals[i].1 {
                Value::Str(is) => {
                    live.push(is.id);
                    proof {
                        assert((globals_abs(self.globals@)[i as int]).1 == AbsValue::Text(
                            is.id,
                            is.text@,
                        ));
                    }
                },
                _ => {},
            }
            i += 1;
        }
        self.strings.clean(&live);
        proof {
            assert forall|i: int| 0 <= i < self.strings@.len() implies #[trigger] self.strings@[i]
                == if spec_global_ref(globals_abs(old(self).globals@), i as usize) {
                old(self).strings@[i]
            } else {
                None::<Seq<char>>
            } by {
                if spec_global_ref(globals_abs(old(self).globals@), i as usize) {
                    let j = choose|j: int|
                        0 <= j < globals_abs(old(self).globals@).len() && ((
                        #[trigger] globals_abs(old(self).globals@)[j]).0 == i as usize || (
                        globals_abs(old(self).globals@)[j].1 matches AbsValue::Text(t_id, t)
                            && t_id == i as usize));
                    assert(live@.contains(i as usize));
                }
            }
        }
    }

    /// Interpret `source` on a fresh machine, as a one-shot run; the
    /// machine and its collected outputs are dropped, so only the
    /// outcome remains observable. Some fresh-machine interpretation
    /// justifies the outcome: a run of a well-formed, fully patched
    /// chunk from the empty state, or a failed compilation.
    pub fn new_and_run(source: String) -> (r: InterpretResult)
        ensures
            (exists|c: Chunk, n: nat, start: VmSt, fin: VmSt|
                #![auto]
                {
                    &&& c.wf()
                    &&& c.pending@ == Set::<int>::empty()
                    &&& start.stack == Seq::<AbsValue>::empty()
                    &&& start.globals == Seq::<(usize, AbsValue)>::empty()
                    &&& start.out == Seq::<char>::empty()
                    &&& start.errs == Seq::<char>::empty()
                    &&& start.ip == 0
                    &&& match r {
                        Ok(_) => spec_run(start, c.code@, c.consts(), c.lines@, n)
                            == StepResult::Halt(fin),
                        Err(InterpretError::RuntimeError) => spec_run(
                            start,
                            c.code@,
                            c.consts(),
                            c.lines@,
                            n,
                        ) == StepResult::Fail(fin) || spec_run(
                            start,
                            c.code@,
                            c.consts(),
                            c.lines@,
                            n,
                        ) is Next,
                        Err(InterpretError::CompileError) => spec_run(
                            start,
                            c.code@,
                            c.consts(),
                            c.lines@,
                            n,
                        ) == StepResult::BadOp(fin),
                    }
                }) || r == Err::<(), InterpretError>(InterpretError::CompileError),
    {
        let mut vm = VM::new();
        vm.interpret(source)
    }
}

} // verus!
