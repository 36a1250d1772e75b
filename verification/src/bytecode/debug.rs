//! The disassembler: a read-only diagnostic view over a chunk. It renders
//! the instruction stream as structured lines; the front end decides how to
//! print them. Walking a whole chunk visits every code byte exactly once,
//! at strictly increasing offsets, and every constant line shows the pooled
//! value at its printed index.

use vstd::prelude::*;

use crate::bytecode::chunk::{byte_opcode, Chunk, OpCode, SpChunk};
use crate::bytecode::value::Value;

verus! {

/// What one rendered instruction shows.
#[derive(Clone, Copy, Debug, PartialEq, Eq, Structural)]
pub enum InstrInfo {
    /// An opcode with no operand: its name alone.
    Simple(OpCode),
    /// A constant instruction: the operand index and the pooled value.
    Constant { index: u8, value: Value },
    /// A constant instruction whose operand is missing or out of the pool.
    BadConstant { index: u8 },
    /// An unassigned opcode byte.
    Unknown(u8),
}

/// One line of a disassembly: the instruction's offset, its recorded
/// source line, whether that line repeats the previous instruction's (shown
/// as a continuation marker), and the instruction itself.
#[derive(Clone, Copy, Debug, PartialEq, Eq, Structural)]
pub struct InstrLine {
    pub offset: usize,
    pub line: usize,
    pub same_line: bool,
    pub info: InstrInfo,
}

/// A whole chunk's rendering: its title and one entry per instruction.
pub struct Disassembly {
    pub title: String,
    pub entries: Vec<InstrLine>,
}

/// How many code bytes the instruction at `off` spans: two for a constant
/// instruction with its operand present, one for everything else (so a walk
/// never stalls).
pub open spec fn sp_instr_len(c: SpChunk, off: int) -> int {
    if byte_opcode(c.code[off]) == OpCode::Constant && off + 1 < c.code.len() {
        2
    } else {
        1
    }
}

/// The rendered instruction at `off` is faithful to the chunk.
pub open spec fn instr_ok(c: SpChunk, off: int, r: InstrLine) -> bool {
    &&& r.offset == off
    &&& r.line == c.lines[off]
    &&& r.same_line == (off > 0 && c.lines[off] == c.lines[off - 1])
    &&& match byte_opcode(c.code[off]) {
        OpCode::Constant => {
            if off + 1 < c.code.len() && c.code[off + 1] < c.consts.len() {
                r.info matches InstrInfo::Constant { index, value } && index == c.code[off + 1]
                    && value@ == c.consts[index as int]
            } else if off + 1 < c.code.len() {
                r.info == (InstrInfo::BadConstant { index: c.code[off + 1] })
            } else {
                r.info == (InstrInfo::BadConstant { index: 0u8 })
            }
        },
        OpCode::Unknown => r.info == InstrInfo::Unknown(c.code[off]),
        _ => r.info == InstrInfo::Simple(byte_opcode(c.code[off])),
    }
}

/// Renders the instruction at `offset` and returns the offset just past
/// it.
pub fn disassemble_instruction(chunk: &Chunk, offset: usize) -> (r: (InstrLine, usize))
    requires
        chunk.wf(),
        offset < chunk@.code.len(),
    ensures
        instr_ok(chunk@, offset as int, r.0),
        r.1 == offset + sp_instr_len(chunk@, offset as int),
        offset < r.1 <= chunk@.code.len(),
{
    let n: usize = chunk.code_len();
    let byte: u8 = chunk.code_at(offset);
    let line: usize = chunk.line_at(offset);
    let same_line: bool = offset > 0 && chunk.line_at(offset - 1) == line;
    let instruction: OpCode = OpCode::from(byte);
    match instruction {
        OpCode::Constant => {
            if offset + 1 < n {
                let index: u8 = chunk.code_at(offset + 1);
                if (index as usize) < chunk.const_count() {
                    let value: Value = chunk.const_at(index as usize);
                    (
                        InstrLine { offset, line, same_line, info: InstrInfo::Constant { index, value } },
                        offset + 2,
                    )
                } else {
                    (
                        InstrLine { offset, line, same_line, info: InstrInfo::BadConstant { index } },
                        offset + 2,
                    )
                }
            } else {
                (
                    InstrLine {
                        offset,
                        line,
                        same_line,
                        info: InstrInfo::BadConstant { index: 0 },
                    },
                    offset + 1,
                )
            }
        },
        OpCode::Unknown => (
            InstrLine { offset, line, same_line, info: InstrInfo::Unknown(byte) },
            offset + 1,
        ),
        _ => (
            InstrLine { offset, line, same_line, info: InstrInfo::Simple(instruction) },
            offset + 1,
        ),
    }
}

/// Walks the whole instruction stream from offset zero, one entry per
/// instruction: the entries' offsets start at zero, follow each
/// instruction's span exactly (so they are strictly increasing), together
/// cover exactly the chunk's code bytes, and each entry is faithful — in
/// particular every constant entry shows the pooled value at its index.
pub fn disassemble(chunk: &Chunk, title: String) -> (d: Disassembly)
    requires
        chunk.wf(),
    ensures
        d.title == title,
        chunk@.code.len() == 0 ==> d.entries@.len() == 0,
        chunk@.code.len() > 0 ==> d.entries@.len() > 0 && d.entries@[0].offset == 0,
        forall|i: int|
            0 <= i < d.entries@.len() ==> instr_ok(chunk@, #[trigger] d.entries@[i].offset as int,
            d.entries@[i]),
        forall|i: int|
            0 <= i < d.entries@.len() - 1 ==> #[trigger] d.entries@[i + 1].offset
                == d.entries@[i].offset + sp_instr_len(chunk@, d.entries@[i].offset as int),
        forall|i: int|
            0 <= i < d.entries@.len() - 1 ==> #[trigger] d.entries@[i + 1].offset > d.entries@[
            i].offset,
        d.entries@.len() > 0 ==> d.entries@.last().offset + sp_instr_len(
            chunk@,
            d.entries@.last().offset as int,
        ) == chunk@.code.len(),
{
    let mut entries: Vec<InstrLine> = Vec::new();
    let mut offset: usize = 0;
    let n: usize = chunk.code_len();
    loop
        invariant_except_break
            chunk.wf(),
            n == chunk@.code.len(),
            0 <= offset <= n,
            entries@.len() == 0 ==> offset == 0,
            entries@.len() > 0 ==> entries@[0].offset == 0,
            forall|i: int|
                0 <= i < entries@.len() ==> instr_ok(chunk@, #[trigger] entries@[i].offset as int,
                entries@[i]),
            forall|i: int|
                0 <= i < entries@.len() - 1 ==> #[trigger] entries@[i + 1].offset == entries@[
                i].offset + sp_instr_len(chunk@, entries@[i].offset as int),
            entries@.len() > 0 ==> entries@.last().offset + sp_instr_len(
                chunk@,
                entries@.last().offset as int,
            ) == offset,
        ensures
            n == chunk@.code.len(),
            offset == n,
            entries@.len() == 0 ==> n == 0,
            entries@.len() > 0 ==> entries@[0].offset == 0,
            forall|i: int|
                0 <= i < entries@.len() ==> instr_ok(chunk@, #[trigger] entries@[i].offset as int,
                entries@[i]),
            forall|i: int|
                0 <= i < entries@.len() - 1 ==> #[trigger] entries@[i + 1].offset == entries@[
                i].offset + sp_instr_len(chunk@, entries@[i].offset as int),
            entries@.len() > 0 ==> entries@.last().offset + sp_instr_len(
                chunk@,
                entries@.last().offset as int,
            ) == n,
        decreases n - offset,
    {
        if offset >= n {
            break ;
        }
        let ghost before = entries@;
        let (entry, next): (InstrLine, usize) = disassemble_instruction(chunk, offset);
        entries.push(entry);
        proof {
            assert(entries@ == before.push(entry));
            assert(entries@.last() == entry);
            assert forall|i: int|
                0 <= i < entries@.len() - 1 implies #[trigger] entries@[i + 1].offset == entries@[
            i].offset + sp_instr_len(chunk@, entries@[i].offset as int) by {
                if i < before.len() - 1 {
                    assert(entries@[i] == before[i]);
                    assert(entries@[i + 1] == before[i + 1]);
                } else {
                    assert(entries@[i] == before[i]);
                    assert(entries@[i + 1] == entry);
                }
            }
        }
        offset = next;
    }
    proof {
        if entries@.len() > 0 {
            assert forall|i: int|
                0 <= i < entries@.len() - 1 implies #[trigger] entries@[i + 1].offset > entries@[
            i].offset by {
                assert(entries@[i + 1].offset == entries@[i].offset + sp_instr_len(
                    chunk@,
                    entries@[i].offset as int,
                ));
            }
        }
    }
    Disassembly { title, entries }
}

} // verus!
