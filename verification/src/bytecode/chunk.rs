//! The instruction chunk: an append-only container of an instruction byte
//! stream, a constant pool, and a parallel line-number table. Opcodes are a
//! closed tagged variant; the byte encoding exists only at this boundary.

use vstd::prelude::*;

use crate::bytecode::value::{SpVal, Value, ValueArray};

verus! {

/// One virtual-machine instruction tag.
#[derive(Clone, Copy, Debug, PartialEq, Eq, Structural)]
pub enum OpCode {
    Constant,
    Negate,
    Add,
    Subtract,
    Multiply,
    Divide,
    Return,
    Unknown,
}

/// The byte an opcode is encoded as in a chunk's instruction stream.
pub open spec fn opcode_byte(op: OpCode) -> u8 {
    match op {
        OpCode::Constant => 0,
        OpCode::Negate => 1,
        OpCode::Add => 2,
        OpCode::Subtract => 3,
        OpCode::Multiply => 4,
        OpCode::Divide => 5,
        OpCode::Return => 6,
        OpCode::Unknown => 7,
    }
}

/// The opcode an instruction byte decodes to; every unassigned byte decodes
/// to `Unknown`.
pub open spec fn byte_opcode(b: u8) -> OpCode {
    if b == 0 {
        OpCode::Constant
    } else if b == 1 {
        OpCode::Negate
    } else if b == 2 {
        OpCode::Add
    } else if b == 3 {
        OpCode::Subtract
    } else if b == 4 {
        OpCode::Multiply
    } else if b == 5 {
        OpCode::Divide
    } else if b == 6 {
        OpCode::Return
    } else {
        OpCode::Unknown
    }
}

impl From<u8> for OpCode {
    /// Decodes one instruction byte.
    fn from(orig: u8) -> (op: OpCode) {
        match orig {
            0u8 => OpCode::Constant,
            1u8 => OpCode::Negate,
            2u8 => OpCode::Add,
            3u8 => OpCode::Subtract,
            4u8 => OpCode::Multiply,
            5u8 => OpCode::Divide,
            6u8 => OpCode::Return,
            _ => OpCode::Unknown,
        }
    }
}

impl vstd::std_specs::convert::FromSpecImpl<u8> for OpCode {
    open spec fn obeys_from_spec() -> bool {
        true
    }

    open spec fn from_spec(orig: u8) -> OpCode {
        byte_opcode(orig)
    }
}

impl From<OpCode> for u8 {
    /// Encodes an opcode as its instruction byte.
    fn from(orig: OpCode) -> (b: u8) {
        match orig {
            OpCode::Constant => 0u8,
            OpCode::Negate => 1u8,
            OpCode::Add => 2u8,
            OpCode::Subtract => 3u8,
            OpCode::Multiply => 4u8,
            OpCode::Divide => 5u8,
            OpCode::Return => 6u8,
            OpCode::Unknown => 7u8,
        }
    }
}

impl vstd::std_specs::convert::FromSpecImpl<OpCode> for u8 {
    open spec fn obeys_from_spec() -> bool {
        true
    }

    open spec fn from_spec(orig: OpCode) -> u8 {
        opcode_byte(orig)
    }
}

/// The ghost-level contents of a chunk.
pub ghost struct SpChunk {
    pub code: Seq<u8>,
    pub lines: Seq<usize>,
    pub consts: Seq<SpVal>,
}

impl SpChunk {
    /// The structural invariant: one recorded line per instruction byte.
    pub open spec fn wf(self) -> bool {
        self.lines.len() == self.code.len()
    }

    /// An empty chunk.
    pub open spec fn empty() -> SpChunk {
        SpChunk { code: Seq::empty(), lines: Seq::empty(), consts: Seq::empty() }
    }
}

/// A compiled unit: instruction bytes, their source lines, and the constant
/// pool they index into. Append-only: no instruction is ever removed or
/// reordered after being written.
pub struct Chunk {
    code: Vec<u8>,
    lines: Vec<usize>,
    constants: ValueArray,
}

impl View for Chunk {
    type V = SpChunk;

    closed spec fn view(&self) -> SpChunk {
        SpChunk {
            code: self.code@,
            lines: self.lines@,
            consts: self.constants@.map(|i: int, v: Value| v@),
        }
    }
}

impl Chunk {
    /// The chunk's invariant: the line table parallels the code, and every
    /// pooled number is a well-formed rational.
    pub open spec fn wf(self) -> bool {
        &&& self@.wf()
        &&& forall|i: int|
            0 <= i < self@.consts.len() ==> #[trigger] crate::bytecode::value::val_wf(
                self@.consts[i],
            )
    }

    /// A fresh, empty chunk.
    pub fn new() -> (c: Chunk)
        ensures
            c@ == SpChunk::empty(),
            c.wf(),
    {
        let c = Chunk { code: Vec::new(), lines: Vec::new(), constants: ValueArray::new() };
        proof {
            assert(c@.code =~= Seq::<u8>::empty());
            assert(c@.lines =~= Seq::<usize>::empty());
            assert(c@.consts =~= Seq::<SpVal>::empty());
        }
        c
    }

    /// Appends one instruction byte and its source line.
    pub fn write(&mut self, byte: OpCode, line: usize)
        ensures
            final(self)@.code == old(self)@.code.push(opcode_byte(byte)),
            final(self)@.lines == old(self)@.lines.push(line),
            final(self)@.consts == old(self)@.consts,
            old(self).wf() ==> final(self).wf(),
    {
        let b: u8 = u8::from(byte);
        self.code.push(b);
        self.lines.push(line);
    }

    /// Appends one raw operand byte (a constant-pool index) under the same
    /// line-tracking discipline.
    pub fn write_constant(&mut self, byte: usize, line: usize)
        requires
            byte < 256,
        ensures
            final(self)@.code == old(self)@.code.push(byte as u8),
            final(self)@.lines == old(self)@.lines.push(line),
            final(self)@.consts == old(self)@.consts,
            old(self).wf() ==> final(self).wf(),
    {
        self.code.push(byte as u8);
        self.lines.push(line);
    }

    /// Appends a value to the constant pool and returns its index.
    pub fn add_constant(&mut self, value: Value) -> (idx: usize)
        ensures
            final(self)@.consts == old(self)@.consts.push(value@),
            final(self)@.code == old(self)@.code,
            final(self)@.lines == old(self)@.lines,
            idx == old(self)@.consts.len(),
            old(self).wf() && value.wf() ==> final(self).wf(),
    {
        let idx: usize = self.constants.len();
        self.constants.write(value);
        proof {
            assert(final(self)@.consts =~= old(self)@.consts.push(value@));
        }
        idx
    }

    /// Clears all three backing containers.
    pub fn free(&mut self)
        ensures
            final(self)@ == SpChunk::empty(),
            final(self).wf(),
    {
        self.code.clear();
        self.lines.clear();
        self.constants.free();
        proof {
            assert(final(self)@.consts =~= Seq::<SpVal>::empty());
        }
    }

    /// Number of instruction bytes.
    pub fn code_len(&self) -> (n: usize)
        ensures
            n == self@.code.len(),
    {
        self.code.len()
    }

    /// The instruction byte at `i`.
    pub fn code_at(&self, i: usize) -> (b: u8)
        requires
            i < self@.code.len(),
        ensures
            b == self@.code[i as int],
    {
        self.code[i]
    }

    /// The source line recorded for the instruction byte at `i`.
    pub fn line_at(&self, i: usize) -> (l: usize)
        requires
            i < self@.lines.len(),
        ensures
            l == self@.lines[i as int],
    {
        self.lines[i]
    }

    /// Number of pooled constants.
    pub fn const_count(&self) -> (n: usize)
        ensures
            n == self@.consts.len(),
    {
        self.constants.len()
    }

    /// The pooled constant at `i`.
    pub fn const_at(&self, i: usize) -> (v: Value)
        requires
            i < self@.consts.len(),
        ensures
            v@ == self@.consts[i as int],
            self.wf() ==> v.wf(),
    {
        let v: Value = self.constants.at(i);
        proof {
            if self.wf() {
                assert(crate::bytecode::value::val_wf(self@.consts[i as int]));
            }
        }
        v
    }
}

} // verus!
