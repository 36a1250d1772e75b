//! The virtual machine: owns a chunk and an operand stack, and executes the
//! instruction stream to a final value.
//!
//! The machine's behaviour is specified twice over: `sp_exec` gives the
//! meaning of a pure code segment (no `Return`) as a partial function from
//! operand stacks to operand stacks, and `sp_run` mirrors the full
//! fetch-decode-execute loop, `Return` and faults included. The run loop is
//! proved to compute exactly `sp_run`; stack underflow and overflow, bad
//! constant indices, unknown opcodes, division by zero and arithmetic the
//! value representation cannot hold all surface as runtime faults, never as
//! panics.

use vstd::prelude::*;

use crate::bytecode::chunk::{byte_opcode, Chunk, OpCode, SpChunk};
use crate::bytecode::value::{
    fits_i64, sp_add, sp_div, sp_mul, sp_neg, sp_sub, val_wf, Rat, Rational, SpVal, Value,
};

verus! {

/// Capacity of the operand stack.
pub const STACK_MAX: usize = 256;

/// How one run of a chunk can end: `Okay` after a `Return`, `CompilerError`
/// when compilation failed, `RuntimeError` on a fault.
#[derive(Clone, Copy, Debug, PartialEq, Eq, Structural)]
pub enum InterpretResult {
    Okay,
    CompilerError,
    RuntimeError,
}

/// The arithmetic instruction tags the dispatch loop hands to `binary_op`.
#[derive(Clone, Copy, Debug, PartialEq, Eq, Structural)]
pub enum BinaryOp {
    ADD,
    SUB,
    MUL,
    DIV,
}

/// The result a binary opcode pushes for operands `a` (left, pushed first)
/// and `b` (right): `None` on a type mismatch, a division by zero, or a
/// result the value representation cannot hold.
pub open spec fn sp_bin_val(op: OpCode, a: SpVal, b: SpVal) -> Option<Rat> {
    match (a, b) {
        (SpVal::Num(x), SpVal::Num(y)) => match op {
            OpCode::Add => if fits_i64(sp_add(x, y)) {
                Some(sp_add(x, y))
            } else {
                None
            },
            OpCode::Subtract => if fits_i64(sp_sub(x, y)) {
                Some(sp_sub(x, y))
            } else {
                None
            },
            OpCode::Multiply => if fits_i64(sp_mul(x, y)) {
                Some(sp_mul(x, y))
            } else {
                None
            },
            OpCode::Divide => if y.n == 0 {
                None
            } else if fits_i64(sp_div(x, y)) {
                Some(sp_div(x, y))
            } else {
                None
            },
            _ => None,
        },
        _ => None,
    }
}

/// The meaning of a pure code segment (one with no `Return`): starting from
/// `stack`, the operand stack after the whole segment runs, or `None` when
/// the segment faults.
pub open spec fn sp_exec(code: Seq<u8>, consts: Seq<SpVal>, stack: Seq<SpVal>) -> Option<
    Seq<SpVal>,
>
    decreases code.len(),
{
    if code.len() == 0 {
        Some(stack)
    } else {
        let op = byte_opcode(code[0]);
        match op {
            OpCode::Constant => {
                if code.len() < 2 {
                    None
                } else if code[1] >= consts.len() {
                    None
                } else if stack.len() >= STACK_MAX {
                    None
                } else {
                    sp_exec(code.skip(2), consts, stack.push(consts[code[1] as int]))
                }
            },
            OpCode::Negate => {
                if stack.len() < 1 {
                    None
                } else {
                    match stack.last() {
                        SpVal::Num(r) => {
                            if fits_i64(sp_neg(r)) {
                                sp_exec(
                                    code.skip(1),
                                    consts,
                                    stack.drop_last().push(SpVal::Num(sp_neg(r))),
                                )
                            } else {
                                None
                            }
                        },
                        _ => None,
                    }
                }
            },
            OpCode::Return => None,
            OpCode::Unknown => None,
            _ => {
                if stack.len() < 2 {
                    None
                } else {
                    match sp_bin_val(op, stack[stack.len() - 2], stack.last()) {
                        Some(r) => sp_exec(
                            code.skip(1),
                            consts,
                            stack.drop_last().drop_last().push(SpVal::Num(r)),
                        ),
                        None => None,
                    }
                }
            },
        }
    }
}

/// How a full run halts: a `Return` delivering the program's result, or a
/// fault.
pub ghost enum SpHalt {
    Done(SpVal),
    Fault,
}

/// The outcome of a full run: how it halted, and the operand stack at that
/// moment.
pub ghost struct SpRunOut {
    pub halt: SpHalt,
    pub stack: Seq<SpVal>,
}

/// The full fetch-decode-execute loop from instruction pointer `ip`:
/// running off the end of the code, an unknown opcode, a missing operand or
/// bad constant index, stack underflow or overflow, a type mismatch,
/// division by zero and unrepresentable arithmetic all halt with a fault;
/// `Return` pops the result and halts cleanly.
pub open spec fn sp_run(code: Seq<u8>, consts: Seq<SpVal>, ip: int, stack: Seq<SpVal>) -> SpRunOut
    decreases code.len() - ip,
{
    if ip < 0 || ip >= code.len() {
        SpRunOut { halt: SpHalt::Fault, stack: stack }
    } else {
        let op = byte_opcode(code[ip]);
        match op {
            OpCode::Constant => {
                if ip + 1 >= code.len() {
                    SpRunOut { halt: SpHalt::Fault, stack: stack }
                } else if code[ip + 1] >= consts.len() {
                    SpRunOut { halt: SpHalt::Fault, stack: stack }
                } else if stack.len() >= STACK_MAX {
                    SpRunOut { halt: SpHalt::Fault, stack: stack }
                } else {
                    sp_run(code, consts, ip + 2, stack.push(consts[code[ip + 1] as int]))
                }
            },
            OpCode::Negate => {
                if stack.len() < 1 {
                    SpRunOut { halt: SpHalt::Fault, stack: stack }
                } else {
                    match stack.last() {
                        SpVal::Num(r) => {
                            if fits_i64(sp_neg(r)) {
                                sp_run(
                                    code,
                                    consts,
                                    ip + 1,
                                    stack.drop_last().push(SpVal::Num(sp_neg(r))),
                                )
                            } else {
                                SpRunOut { halt: SpHalt::Fault, stack: stack }
                            }
                        },
                        _ => SpRunOut { halt: SpHalt::Fault, stack: stack },
                    }
                }
            },
            OpCode::Return => {
                if stack.len() < 1 {
                    SpRunOut { halt: SpHalt::Fault, stack: stack }
                } else {
                    SpRunOut { halt: SpHalt::Done(stack.last()), stack: stack.drop_last() }
                }
            },
            OpCode::Unknown => SpRunOut { halt: SpHalt::Fault, stack: stack },
            _ => {
                if stack.len() < 2 {
                    SpRunOut { halt: SpHalt::Fault, stack: stack }
                } else {
                    match sp_bin_val(op, stack[stack.len() - 2], stack.last()) {
                        Some(r) => sp_run(
                            code,
                            consts,
                            ip + 1,
                            stack.drop_last().drop_last().push(SpVal::Num(r)),
                        ),
                        None => SpRunOut { halt: SpHalt::Fault, stack: stack },
                    }
                }
            },
        }
    }
}

/// The ghost-level view of the operand stack.
pub open spec fn stack_view(s: Seq<Value>) -> Seq<SpVal> {
    s.map(|i: int, v: Value| v@)
}

/// A well-formed pure code segment from `ip`: only the constant and
/// arithmetic instructions, each constant with its operand byte present,
/// ending exactly at the segment's end.
pub open spec fn sp_seg_ok(seg: Seq<u8>, ip: int) -> bool
    decreases seg.len() - ip,
{
    if ip < 0 {
        false
    } else if ip >= seg.len() {
        ip == seg.len()
    } else {
        match byte_opcode(seg[ip]) {
            OpCode::Constant => ip + 1 < seg.len() && sp_seg_ok(seg, ip + 2),
            OpCode::Negate => sp_seg_ok(seg, ip + 1),
            OpCode::Add => sp_seg_ok(seg, ip + 1),
            OpCode::Subtract => sp_seg_ok(seg, ip + 1),
            OpCode::Multiply => sp_seg_ok(seg, ip + 1),
            OpCode::Divide => sp_seg_ok(seg, ip + 1),
            _ => false,
        }
    }
}

/// Two well-formed segments concatenate to a well-formed segment.
pub proof fn lemma_seg_ok_concat(a: Seq<u8>, b: Seq<u8>, ip: int)
    requires
        sp_seg_ok(a, ip),
        sp_seg_ok(b, 0),
    ensures
        sp_seg_ok(a + b, ip),
    decreases a.len() - ip,
{
    if ip >= a.len() {
        lemma_seg_ok_shift(a, b, 0);
    } else {
        assert((a + b)[ip] == a[ip]);
        match byte_opcode(a[ip]) {
            OpCode::Constant => {
                lemma_seg_ok_concat(a, b, ip + 2);
            },
            OpCode::Negate => { lemma_seg_ok_concat(a, b, ip + 1); },
            OpCode::Add => { lemma_seg_ok_concat(a, b, ip + 1); },
            OpCode::Subtract => { lemma_seg_ok_concat(a, b, ip + 1); },
            OpCode::Multiply => { lemma_seg_ok_concat(a, b, ip + 1); },
            OpCode::Divide => { lemma_seg_ok_concat(a, b, ip + 1); },
            _ => {},
        }
    }
}

/// A well-formed segment stays well formed when read at its offset inside a
/// concatenation.
proof fn lemma_seg_ok_shift(a: Seq<u8>, b: Seq<u8>, j: int)
    requires
        sp_seg_ok(b, j),
        0 <= j,
    ensures
        sp_seg_ok(a + b, a.len() + j),
    decreases b.len() - j,
{
    if j >= b.len() {
    } else {
        assert((a + b)[a.len() + j] == b[j]);
        match byte_opcode(b[j]) {
            OpCode::Constant => {
                assert((a + b)[a.len() + j + 1] == b[j + 1]);
                lemma_seg_ok_shift(a, b, j + 2);
            },
            OpCode::Negate => { lemma_seg_ok_shift(a, b, j + 1); },
            OpCode::Add => { lemma_seg_ok_shift(a, b, j + 1); },
            OpCode::Subtract => { lemma_seg_ok_shift(a, b, j + 1); },
            OpCode::Multiply => { lemma_seg_ok_shift(a, b, j + 1); },
            OpCode::Divide => { lemma_seg_ok_shift(a, b, j + 1); },
            _ => {},
        }
    }
}

/// Running a concatenation of a well-formed segment and any code: run the
/// first segment, then the rest from the stack it left.
pub proof fn lemma_exec_append(c1: Seq<u8>, c2: Seq<u8>, consts: Seq<SpVal>, stack: Seq<SpVal>)
    requires
        sp_seg_ok(c1, 0),
    ensures
        sp_exec(c1 + c2, consts, stack) == (match sp_exec(c1, consts, stack) {
            Some(s2) => sp_exec(c2, consts, s2),
            None => None::<Seq<SpVal>>,
        }),
    decreases c1.len(),
{
    if c1.len() == 0 {
        assert(c1 + c2 =~= c2);
    } else {
        let cc = c1 + c2;
        assert(cc[0] == c1[0]);
        match byte_opcode(c1[0]) {
            OpCode::Constant => {
                assert(cc[1] == c1[1]);
                if c1[1] < consts.len() && stack.len() < STACK_MAX {
                    assert(cc.skip(2) =~= c1.skip(2) + c2);
                    assert(sp_seg_ok(c1.skip(2), 0)) by {
                        lemma_seg_ok_unshift(c1, 2);
                    }
                    lemma_exec_append(c1.skip(2), c2, consts, stack.push(consts[c1[1] as int]));
                }
            },
            OpCode::Negate => {
                if stack.len() >= 1 {
                    match stack.last() {
                        SpVal::Num(r) => {
                            if fits_i64(sp_neg(r)) {
                                assert(cc.skip(1) =~= c1.skip(1) + c2);
                                assert(sp_seg_ok(c1.skip(1), 0)) by {
                                    lemma_seg_ok_unshift(c1, 1);
                                }
                                lemma_exec_append(
                                    c1.skip(1),
                                    c2,
                                    consts,
                                    stack.drop_last().push(SpVal::Num(sp_neg(r))),
                                );
                            }
                        },
                        _ => {},
                    }
                }
            },
            OpCode::Return => {},
            OpCode::Unknown => {},
            _ => {
                if stack.len() >= 2 {
                    match sp_bin_val(byte_opcode(c1[0]), stack[stack.len() - 2], stack.last()) {
                        Some(r) => {
                            assert(cc.skip(1) =~= c1.skip(1) + c2);
                            assert(sp_seg_ok(c1.skip(1), 0)) by {
                                lemma_seg_ok_unshift(c1, 1);
                            }
                            lemma_exec_append(
                                c1.skip(1),
                                c2,
                                consts,
                                stack.drop_last().drop_last().push(SpVal::Num(r)),
                            );
                        },
                        None => {},
                    }
                }
            },
        }
    }
}

/// Dropping the first instruction of a well-formed segment leaves a
/// well-formed segment.
proof fn lemma_seg_ok_unshift(seg: Seq<u8>, k: int)
    requires
        0 <= k <= seg.len(),
        sp_seg_ok(seg, k),
    ensures
        sp_seg_ok(seg.skip(k), 0),
    decreases seg.len() - k,
{
    lemma_seg_ok_unshift_at(seg, k, k);
}

/// Well-formedness of a segment suffix transfers under `skip`.
proof fn lemma_seg_ok_unshift_at(seg: Seq<u8>, k: int, ip: int)
    requires
        0 <= k <= ip <= seg.len(),
        sp_seg_ok(seg, ip),
    ensures
        sp_seg_ok(seg.skip(k), ip - k),
    decreases seg.len() - ip,
{
    let t = seg.skip(k);
    if ip >= seg.len() {
    } else {
        assert(t[ip - k] == seg[ip]);
        match byte_opcode(seg[ip]) {
            OpCode::Constant => {
                assert(t[ip - k + 1] == seg[ip + 1]);
                lemma_seg_ok_unshift_at(seg, k, ip + 2);
            },
            OpCode::Negate => { lemma_seg_ok_unshift_at(seg, k, ip + 1); },
            OpCode::Add => { lemma_seg_ok_unshift_at(seg, k, ip + 1); },
            OpCode::Subtract => { lemma_seg_ok_unshift_at(seg, k, ip + 1); },
            OpCode::Multiply => { lemma_seg_ok_unshift_at(seg, k, ip + 1); },
            OpCode::Divide => { lemma_seg_ok_unshift_at(seg, k, ip + 1); },
            _ => {},
        }
    }
}

/// Running a segment followed by a lone `Return`: when the segment runs
/// clean, the `Return` pops its topmost value and halts cleanly; when the
/// segment faults, the run faults.
pub proof fn lemma_run_of_segment(seg: Seq<u8>, consts: Seq<SpVal>, ip: int, stack: Seq<SpVal>)
    requires
        0 <= ip <= seg.len(),
        sp_seg_ok(seg, ip),
    ensures
        ({
            let code = seg.push(crate::bytecode::chunk::opcode_byte(OpCode::Return));
            match sp_exec(seg.skip(ip), consts, stack) {
                Some(s2) => s2.len() >= 1 ==> sp_run(code, consts, ip, stack) == (SpRunOut {
                    halt: SpHalt::Done(s2.last()),
                    stack: s2.drop_last(),
                }),
                None => sp_run(code, consts, ip, stack).halt == SpHalt::Fault,
            }
        }),
    decreases seg.len() - ip,
{
    let code = seg.push(crate::bytecode::chunk::opcode_byte(OpCode::Return));
    let rest = seg.skip(ip);
    if ip == seg.len() {
        assert(rest =~= Seq::<u8>::empty());
        assert(code[ip] == 6u8);
    } else {
        assert(code[ip] == seg[ip]);
        assert(rest.len() > 0);
        assert(rest[0] == seg[ip]);
        let op = byte_opcode(seg[ip]);
        match op {
            OpCode::Constant => {
                if ip + 1 < seg.len() && seg[ip + 1] < consts.len() && stack.len() < STACK_MAX {
                    assert(code[ip + 1] == seg[ip + 1]);
                    assert(rest[1] == seg[ip + 1]);
                    assert(rest.skip(2) =~= seg.skip(ip + 2));
                    lemma_run_of_segment(
                        seg,
                        consts,
                        ip + 2,
                        stack.push(consts[seg[ip + 1] as int]),
                    );
                } else {
                    if ip + 1 >= seg.len() {
                        // The operand byte would be the final `Return`:
                        // the segment faults, and the run misreads the
                        // operand but then runs off the end or indexes the
                        // pool with 6, faulting as well.
                        if ip + 1 < code.len() && code[ip + 1] < consts.len() && stack.len()
                            < STACK_MAX {
                            assert(ip + 2 == code.len());
                            assert(sp_run(code, consts, ip + 2, stack.push(consts[code[ip + 1] as int])).halt
                                == SpHalt::Fault);
                        }
                    } else {
                        assert(code[ip + 1] == seg[ip + 1]);
                    }
                }
            },
            OpCode::Negate => {
                if stack.len() >= 1 {
                    match stack.last() {
                        SpVal::Num(r) => {
                            if fits_i64(sp_neg(r)) {
                                assert(rest.skip(1) =~= seg.skip(ip + 1));
                                lemma_run_of_segment(
                                    seg,
                                    consts,
                                    ip + 1,
                                    stack.drop_last().push(SpVal::Num(sp_neg(r))),
                                );
                            }
                        },
                        _ => {},
                    }
                }
            },
            OpCode::Return => {},
            OpCode::Unknown => {},
            _ => {
                if stack.len() >= 2 {
                    match sp_bin_val(op, stack[stack.len() - 2], stack.last()) {
                        Some(r) => {
                            assert(rest.skip(1) =~= seg.skip(ip + 1));
                            lemma_run_of_segment(
                                seg,
                                consts,
                                ip + 1,
                                stack.drop_last().drop_last().push(SpVal::Num(r)),
                            );
                        },
                        None => {},
                    }
                }
            },
        }
    }
}

/// The machine: a chunk, an instruction pointer into its code, the operand
/// stack, and the result of the last clean run.
pub struct VM {
    chunk: Chunk,
    ip: usize,
    stack: Vec<Value>,
    result: Option<Value>,
}

impl VM {
    /// The machine's invariant: the chunk is well formed and every stack
    /// value is.
    pub open spec fn wf(self) -> bool {
        &&& self.chunk_wf()
        &&& self.chunkv().wf()
        &&& forall|i: int| 0 <= i < self.stackv().len() ==> #[trigger] val_wf(self.stackv()[i])
        &&& self.resultv() matches Some(v) ==> val_wf(v)
    }

    /// The chunk currently adopted.
    pub closed spec fn chunkv(self) -> SpChunk {
        self.chunk@
    }

    /// The chunk's structural invariant, seen from outside.
    pub closed spec fn chunk_wf(self) -> bool {
        self.chunk.wf()
    }

    /// The operand stack.
    pub closed spec fn stackv(self) -> Seq<SpVal> {
        stack_view(self.stack@)
    }

    /// The instruction pointer.
    pub closed spec fn ipv(self) -> int {
        self.ip as int
    }

    /// The result of the last clean run.
    pub closed spec fn resultv(self) -> Option<SpVal> {
        match self.result {
            Some(v) => Some(v@),
            None => None,
        }
    }

    /// A fresh machine with an empty chunk and stack.
    pub fn new() -> (vm: VM)
        ensures
            vm.wf(),
            vm.chunk_wf(),
            vm.chunkv() == SpChunk::empty(),
            vm.stackv() == Seq::<SpVal>::empty(),
            vm.ipv() == 0,
            vm.resultv() is None,
    {
        let vm = VM { chunk: Chunk::new(), ip: 0, stack: Vec::new(), result: None };
        proof {
            assert(vm.stackv() =~= Seq::<SpVal>::empty());
        }
        vm
    }

    /// The result of the last clean run, if any.
    pub fn result(&self) -> (r: Option<Value>)
        ensures
            match r {
                Some(v) => self.resultv() == Some(v@),
                None => self.resultv() is None,
            },
    {
        self.result
    }

    /// Resets the machine: clears the stack and zeroes the pointer.
    pub fn init(&mut self)
        ensures
            final(self).wf() == (old(self).chunk_wf() && old(self).chunkv().wf()),
            final(self).chunkv() == old(self).chunkv(),
            final(self).chunk_wf() == old(self).chunk_wf(),
            final(self).stackv() == Seq::<SpVal>::empty(),
            final(self).ipv() == 0,
            final(self).resultv() is None,
    {
        self.reset_stack();
        self.ip = 0;
        self.result = None;
    }

    /// Releases the machine's resources: the adopted chunk's storage.
    pub fn free(&mut self)
        ensures
            final(self).chunkv() == SpChunk::empty(),
            final(self).chunk_wf(),
            final(self).stackv() == old(self).stackv(),
            final(self).resultv() == old(self).resultv(),
            old(self).wf() ==> final(self).wf(),
    {
        self.chunk.free();
        proof {
            if old(self).wf() {
                assert forall|i: int|
                    0 <= i < final(self).stackv().len() implies #[trigger] val_wf(
                    final(self).stackv()[i],
                ) by {
                    assert(final(self).stackv()[i] == old(self).stackv()[i]);
                    assert(val_wf(old(self).stackv()[i]));
                }
            }
        }
    }

    /// Clears the operand stack.
    pub fn reset_stack(&mut self)
        ensures
            final(self).chunkv() == old(self).chunkv(),
            final(self).chunk_wf() == old(self).chunk_wf(),
            final(self).stackv() == Seq::<SpVal>::empty(),
            final(self).ipv() == old(self).ipv(),
            final(self).resultv() == old(self).resultv(),
    {
        self.stack.clear();
        proof {
            assert(final(self).stackv() =~= Seq::<SpVal>::empty());
        }
    }

    /// Pushes one value.
    fn push(&mut self, value: Value)
        ensures
            final(self).stackv() == old(self).stackv().push(value@),
            final(self).chunkv() == old(self).chunkv(),
            final(self).chunk_wf() == old(self).chunk_wf(),
            final(self).ipv() == old(self).ipv(),
            final(self).resultv() == old(self).resultv(),
    {
        self.stack.push(value);
        proof {
            assert(final(self).stackv() =~= old(self).stackv().push(value@));
        }
    }

    /// Pops the top value, if any.
    fn pop(&mut self) -> (v: Option<Value>)
        ensures
            final(self).chunkv() == old(self).chunkv(),
            final(self).chunk_wf() == old(self).chunk_wf(),
            final(self).ipv() == old(self).ipv(),
            final(self).resultv() == old(self).resultv(),
            old(self).stackv().len() == 0 ==> v is None && final(self).stackv() == old(
                self,
            ).stackv(),
            old(self).stackv().len() > 0 ==> (v matches Some(x) && x@ == old(self).stackv().last()
                && final(self).stackv() == old(self).stackv().drop_last()),
    {
        let r = self.stack.pop();
        proof {
            if old(self).stackv().len() > 0 {
                assert(final(self).stackv() =~= old(self).stackv().drop_last());
            }
        }
        r
    }

    /// Reads the opcode under the instruction pointer and advances past it.
    fn read_byte(&mut self) -> (op: OpCode)
        requires
            old(self).ipv() < old(self).chunkv().code.len(),
        ensures
            op == byte_opcode(old(self).chunkv().code[old(self).ipv()]),
            final(self).ipv() == old(self).ipv() + 1,
            final(self).chunkv() == old(self).chunkv(),
            final(self).chunk_wf() == old(self).chunk_wf(),
            final(self).stackv() == old(self).stackv(),
            final(self).resultv() == old(self).resultv(),
    {
        // Reading the length as a machine word bounds the new pointer.
        let _bound: usize = self.chunk.code_len();
        let b: u8 = self.chunk.code_at(self.ip);
        self.ip = self.ip + 1;
        OpCode::from(b)
    }

    /// Reads the operand byte under the pointer, advances past it, and
    /// looks the constant up; `None` on a bad index.
    fn read_constant(&mut self) -> (v: Option<Value>)
        requires
            old(self).ipv() < old(self).chunkv().code.len(),
        ensures
            final(self).ipv() == old(self).ipv() + 1,
            final(self).chunkv() == old(self).chunkv(),
            final(self).chunk_wf() == old(self).chunk_wf(),
            final(self).stackv() == old(self).stackv(),
            final(self).resultv() == old(self).resultv(),
            ({
                let idx = old(self).chunkv().code[old(self).ipv()] as int;
                if idx < old(self).chunkv().consts.len() {
                    v matches Some(x) && x@ == old(self).chunkv().consts[idx] && (old(
                        self,
                    ).chunk_wf() ==> x.wf())
                } else {
                    v is None
                }
            }),
    {
        // Reading the length as a machine word bounds the new pointer.
        let _bound: usize = self.chunk.code_len();
        let b: u8 = self.chunk.code_at(self.ip);
        self.ip = self.ip + 1;
        let idx: usize = b as usize;
        if idx < self.chunk.const_count() {
            Some(self.chunk.const_at(idx))
        } else {
            None
        }
    }

    /// Applies one binary arithmetic instruction to the top two stack
    /// values; `false` reports a fault, with the stack left as it was.
    fn binary_op(&mut self, op: BinaryOp) -> (ok: bool)
        requires
            old(self).wf(),
        ensures
            final(self).wf(),
            final(self).chunkv() == old(self).chunkv(),
            final(self).chunk_wf() == old(self).chunk_wf(),
            final(self).ipv() == old(self).ipv(),
            final(self).resultv() == old(self).resultv(),
            ({
                let opc = match op {
                    BinaryOp::ADD => OpCode::Add,
                    BinaryOp::SUB => OpCode::Subtract,
                    BinaryOp::MUL => OpCode::Multiply,
                    BinaryOp::DIV => OpCode::Divide,
                };
                let s = old(self).stackv();
                if s.len() >= 2 {
                    match sp_bin_val(opc, s[s.len() - 2], s.last()) {
                        Some(r) => ok && final(self).stackv() == s.drop_last().drop_last().push(
                            SpVal::Num(r),
                        ),
                        None => !ok && final(self).stackv() == s,
                    }
                } else {
                    !ok && final(self).stackv() == s
                }
            }),
    {
        let n: usize = self.stack.len();
        if n < 2 {
            return false;
        }
        let b: Value = self.stack[n - 1];
        let a: Value = self.stack[n - 2];
        proof {
            assert(old(self).stackv()[n - 1 as int] == b@);
            assert(old(self).stackv()[n - 2 as int] == a@);
            assert(val_wf(old(self).stackv()[n - 1 as int]));
            assert(val_wf(old(self).stackv()[n - 2 as int]));
        }
        let (x, y): (Rational, Rational) = match (a, b) {
            (Value::Number(x), Value::Number(y)) => (x, y),
            _ => { return false; },
        };
        let r: Option<Rational> = match op {
            BinaryOp::ADD => x.add(&y),
            BinaryOp::SUB => x.sub(&y),
            BinaryOp::MUL => x.mul(&y),
            BinaryOp::DIV => {
                if y.num() == 0 {
                    return false;
                }
                x.div(&y)
            },
        };
        match r {
            Some(q) => {
                let _ = self.pop();
                let _ = self.pop();
                self.push(Value::Number(q));
                proof {
                    let opc = match op {
                        BinaryOp::ADD => OpCode::Add,
                        BinaryOp::SUB => OpCode::Subtract,
                        BinaryOp::MUL => OpCode::Multiply,
                        BinaryOp::DIV => OpCode::Divide,
                    };
                    let s = old(self).stackv();
                    assert(final(self).stackv() =~= s.drop_last().drop_last().push(
                        SpVal::Num(q@),
                    ));
                }
                true
            },
            None => false,
        }
    }

    /// Runs the adopted chunk from the current pointer and stack, exactly
    /// as `sp_run` describes: `Okay` on a clean `Return` (the popped value
    /// is recorded as the result), `RuntimeError` on any fault.
    pub fn run(&mut self) -> (res: InterpretResult)
        requires
            old(self).wf(),
        ensures
            final(self).wf(),
            final(self).chunkv() == old(self).chunkv(),
            final(self).chunk_wf() == old(self).chunk_wf(),
            ({
                let o = sp_run(
                    old(self).chunkv().code,
                    old(self).chunkv().consts,
                    old(self).ipv(),
                    old(self).stackv(),
                );
                &&& final(self).stackv() == o.stack
                &&& match o.halt {
                    SpHalt::Done(v) => res == InterpretResult::Okay && final(self).resultv()
                        == Some(v),
                    SpHalt::Fault => res == InterpretResult::RuntimeError && final(self).resultv()
                        == old(self).resultv(),
                }
            }),
    {
        let ghost code = old(self).chunkv().code;
        let ghost consts = old(self).chunkv().consts;
        let ghost target = sp_run(code, consts, old(self).ipv(), old(self).stackv());
        loop
            invariant
                self.wf(),
                code == old(self).chunkv().code,
                consts == old(self).chunkv().consts,
                target == sp_run(code, consts, old(self).ipv(), old(self).stackv()),
                self.chunkv() == old(self).chunkv(),
                self.chunk_wf() == old(self).chunk_wf(),
                self.resultv() == old(self).resultv(),
                0 <= self.ipv(),
                sp_run(code, consts, self.ipv(), self.stackv()) == target,
            decreases code.len() - self.ipv(),
        {
            if self.ip >= self.chunk.code_len() {
                return InterpretResult::RuntimeError;
            }
            let instruction: OpCode = self.read_byte();
            match instruction {
                OpCode::Constant => {
                    if self.ip >= self.chunk.code_len() {
                        return InterpretResult::RuntimeError;
                    }
                    let c: Option<Value> = self.read_constant();
                    match c {
                        Some(v) => {
                            if self.stack.len() >= STACK_MAX {
                                return InterpretResult::RuntimeError;
                            }
                            let ghost s0 = self.stackv();
                            self.push(v);
                            proof {
                                assert(val_wf(v@));
                                assert forall|i: int|
                                    0 <= i < self.stackv().len() implies #[trigger] val_wf(
                                    self.stackv()[i],
                                ) by {
                                    if i < self.stackv().len() - 1 {
                                        assert(self.stackv()[i] == s0[i]);
                                        assert(val_wf(s0[i]));
                                    }
                                }
                            }
                        },
                        None => {
                            return InterpretResult::RuntimeError;
                        },
                    }
                },
                OpCode::Negate => {
                    let n: usize = self.stack.len();
                    if n < 1 {
                        return InterpretResult::RuntimeError;
                    }
                    let v: Value = self.stack[n - 1];
                    proof {
                        assert(self.stackv()[n - 1 as int] == v@);
                        assert(val_wf(self.stackv()[n - 1 as int]));
                    }
                    match v {
                        Value::Number(r) => {
                            match r.neg() {
                                Some(q) => {
                                    let ghost s0 = self.stackv();
                                    let _ = self.pop();
                                    self.push(Value::Number(q));
                                    proof {
                                        assert forall|i: int|
                                            0 <= i < self.stackv().len() implies #[trigger] val_wf(
                                            self.stackv()[i],
                                        ) by {
                                            if i < self.stackv().len() - 1 {
                                                assert(self.stackv()[i] == s0[i]);
                                                assert(val_wf(s0[i]));
                                            }
                                        }
                                    }
                                },
                                None => {
                                    return InterpretResult::RuntimeError;
                                },
                            }
                        },
                        _ => {
                            return InterpretResult::RuntimeError;
                        },
                    }
                },
                OpCode::Add => {
                    if !self.binary_op(BinaryOp::ADD) {
                        return InterpretResult::RuntimeError;
                    }
                },
                OpCode::Subtract => {
                    if !self.binary_op(BinaryOp::SUB) {
                        return InterpretResult::RuntimeError;
                    }
                },
                OpCode::Multiply => {
                    if !self.binary_op(BinaryOp::MUL) {
                        return InterpretResult::RuntimeError;
                    }
                },
                OpCode::Divide => {
                    if !self.binary_op(BinaryOp::DIV) {
                        return InterpretResult::RuntimeError;
                    }
                },
                OpCode::Return => {
                    match self.pop() {
                        Some(v) => {
                            self.result = Some(v);
                            return InterpretResult::Okay;
                        },
                        None => {
                            return InterpretResult::RuntimeError;
                        },
                    }
                },
                OpCode::Unknown => {
                    return InterpretResult::RuntimeError;
                },
            }
        }
    }
}

/// How one whole interpretation of a source text must end: a compile error
/// exactly when the mirrored compilation records one; otherwise the
/// expression's value when its arithmetic is representable and the operand
/// stack can take its depth, and a runtime error when not.
pub ghost enum SpOutcome {
    CompErr,
    RunErr,
    Done(Rat),
}

/// See `SpOutcome`: the one outcome `interpret` may produce on `src`.
pub open spec fn sp_interpret(src: Seq<char>) -> SpOutcome {
    let c = crate::bytecode::compiler::sp_compile(src);
    if c.st.err {
        SpOutcome::CompErr
    } else {
        match c.ev {
            crate::bytecode::compiler::SpArith::Val(r) => if c.dep <= STACK_MAX {
                SpOutcome::Done(r)
            } else {
                SpOutcome::RunErr
            },
            crate::bytecode::compiler::SpArith::Fault => SpOutcome::RunErr,
        }
    }
}

impl VM {
    /// Compiles `source` into a fresh chunk and, when compilation is clean,
    /// resets the machine, adopts the chunk, runs it, and releases it.
    ///
    /// The contract is the compiling-equals-evaluating statement for the
    /// whole pipeline: the result is `Okay` exactly when the spec-level
    /// evaluating parser gives the expression a value (and the stack can
    /// take its depth), and then the recorded result is that value;
    /// `CompilerError` exactly on a lexical or syntactic failure, with
    /// nothing executed; `RuntimeError` exactly when running the compiled
    /// code faults.
    pub fn interpret(&mut self, source: String) -> (res: InterpretResult)
        requires
            old(self).wf(),
            source@.len() < usize::MAX,
        ensures
            final(self).wf(),
            match sp_interpret(source@) {
                SpOutcome::CompErr => res == InterpretResult::CompilerError && final(self).stackv()
                    == old(self).stackv() && final(self).chunkv() == old(self).chunkv()
                    && final(self).resultv() == old(self).resultv(),
                SpOutcome::RunErr => res == InterpretResult::RuntimeError && final(self).chunkv()
                    == SpChunk::empty(),
                SpOutcome::Done(r) => res == InterpretResult::Okay && final(self).resultv() == Some(
                    SpVal::Num(r),
                ) && final(self).stackv() == Seq::<SpVal>::empty() && final(self).chunkv()
                    == SpChunk::empty(),
            },
    {
        let mut parser = crate::bytecode::compiler::Parser::new();
        let ok: bool = parser.compile(source);
        if !ok {
            return InterpretResult::CompilerError;
        }
        self.init();
        self.chunk = parser.take_chunk();
        proof {
            let c = crate::bytecode::compiler::sp_compile(source@);
            let consts = self.chunkv().consts;
            let seg = self.chunkv().code.drop_last();
            assert(self.chunkv().code =~= seg.push(crate::bytecode::chunk::opcode_byte(
                OpCode::Return,
            )));
            assert(consts.is_prefix_of(consts)) by {
                assert(consts =~= consts.subrange(0, consts.len() as int));
            }
            let empty_stack = Seq::<SpVal>::empty();
            assert(seg.skip(0) =~= seg);
            assert(sp_exec(seg, consts, empty_stack) == (match c.ev {
                crate::bytecode::compiler::SpArith::Val(r) => if empty_stack.len() + c.dep
                    <= STACK_MAX {
                    Some(empty_stack.push(SpVal::Num(r)))
                } else {
                    None::<Seq<SpVal>>
                },
                crate::bytecode::compiler::SpArith::Fault => None::<Seq<SpVal>>,
            }));
            lemma_run_of_segment(seg, consts, 0, empty_stack);
            match c.ev {
                crate::bytecode::compiler::SpArith::Val(r) => {
                    if c.dep <= STACK_MAX {
                        let s2 = empty_stack.push(SpVal::Num(r));
                        assert(s2.last() == SpVal::Num(r));
                        assert(s2.drop_last() =~= Seq::<SpVal>::empty());
                    }
                },
                crate::bytecode::compiler::SpArith::Fault => {},
            }
        }
        let run_res: InterpretResult = self.run();
        self.free();
        run_res
    }
}

} // verus!
