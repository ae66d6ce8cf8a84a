//! Chunks of bytecode: the instruction bytes, the constant pool, and the
//! source line of every byte.
use vstd::prelude::*;
use crate::opcode::{decode, from_u8, Opcode};
use crate::value::{Value, ValueView};

verus! {

/// A compiled unit. `lines` runs parallel to `code`.
#[derive(Debug)]
pub struct Chunk {
    pub code: Vec<u8>,
    pub constants: Vec<Value>,
    pub lines: Vec<usize>,
}

pub ghost struct ChunkView {
    pub code: Seq<u8>,
    pub constants: Seq<ValueView>,
    pub lines: Seq<usize>,
}

/// The operand bytes of an instruction. `Missing` says that the code ends
/// before the operand does.
#[derive(Clone, Copy, Debug, PartialEq, Eq, Structural)]
pub enum Operand {
    Nothing,
    Byte(u8),
    Short(u16),
    Missing,
}

/// One entry of a disassembly: where the instruction starts, the source line
/// of its first byte, that byte and the operation it names, and the operand.
#[derive(Clone, Copy, Debug, PartialEq, Eq, Structural)]
pub struct Instruction {
    pub offset: usize,
    pub line: usize,
    pub byte: u8,
    pub opcode: Opcode,
    pub operand: Operand,
}

/// The 16-bit number that two bytes spell, the high byte first.
pub open spec fn short(hi: u8, lo: u8) -> u16 {
    (hi as int * 256 + lo as int) as u16
}

/// Joins two bytes, the high byte first.
pub fn make_short(hi: u8, lo: u8) -> (r: u16)
    ensures
        r == short(hi, lo),
{
    let h: u16 = hi as u16;
    let l: u16 = lo as u16;
    h * 256 + l
}

impl ChunkView {
    /// A chunk with nothing in it.
    pub open spec fn empty() -> ChunkView {
        ChunkView { code: Seq::empty(), constants: Seq::empty(), lines: Seq::empty() }
    }

    /// Every byte has its line.
    pub open spec fn wf(self) -> bool {
        self.lines.len() == self.code.len()
    }

    /// The chunk with one more byte, met on the given line.
    pub open spec fn write(self, byte: u8, line: usize) -> ChunkView {
        ChunkView { code: self.code.push(byte), lines: self.lines.push(line), ..self }
    }

    /// The chunk with one more constant at the end of the pool.
    pub open spec fn add_constant(self, value: ValueView) -> ChunkView {
        ChunkView { constants: self.constants.push(value), ..self }
    }

    /// The operand of an instruction at `offset` that takes `width` bytes.
    pub open spec fn operand_at(self, offset: int, width: nat) -> Operand {
        if width == 0 {
            Operand::Nothing
        } else if offset + width >= self.code.len() {
            Operand::Missing
        } else if width == 1 {
            Operand::Byte(self.code[offset + 1])
        } else {
            Operand::Short(short(self.code[offset + 1], self.code[offset + 2]))
        }
    }

    /// The instruction that starts at `offset`.
    pub open spec fn instruction_at(self, offset: int) -> Instruction {
        let op = decode(self.code[offset]);
        Instruction {
            offset: offset as usize,
            line: self.lines[offset],
            byte: self.code[offset],
            opcode: op,
            operand: self.operand_at(offset, op.operand_width()),
        }
    }

    /// Where the instruction after the one at `offset` starts: behind its
    /// operand, or at the end of the code where the operand is cut short.
    pub open spec fn next_offset(self, offset: int) -> int {
        let width = decode(self.code[offset]).operand_width();
        if offset + width < self.code.len() {
            offset + 1 + width
        } else {
            self.code.len() as int
        }
    }

    /// The instructions from `offset` to the end of the code, in order.
    pub open spec fn listing_from(self, offset: int) -> Seq<Instruction>
        decreases self.code.len() - offset,
    {
        if offset < 0 || offset >= self.code.len() {
            Seq::empty()
        } else {
            seq![self.instruction_at(offset)] + self.listing_from(self.next_offset(offset))
        }
    }

    /// The instructions of the chunk, in order.
    pub open spec fn listing(self) -> Seq<Instruction> {
        self.listing_from(0)
    }
}

impl Chunk {
    /// What the chunk holds: its bytes, the views of its constants, its lines.
    pub open spec fn view(&self) -> ChunkView
        decreases self,
    {
        ChunkView {
            code: self.code@,
            constants: Seq::new(
                self.constants@.len(),
                |i: int|
                    if 0 <= i < self.constants@.len() {
                        self.constants@[i].view()
                    } else {
                        ValueView::Nil
                    },
            ),
            lines: self.lines@,
        }
    }

    /// Every byte has its line.
    pub open spec fn wf(&self) -> bool {
        self@.wf()
    }

    /// A chunk with no code and no constants.
    pub fn new() -> (c: Chunk)
        ensures
            c@ == ChunkView::empty(),
            c.wf(),
    {
        let c = Chunk { code: Vec::new(), constants: Vec::new(), lines: Vec::new() };
        assert(c@.constants =~= Seq::empty());
        c
    }

    /// Appends one byte and the line it came from.
    pub fn write(&mut self, byte: u8, line: usize)
        ensures
            final(self)@ == old(self)@.write(byte, line),
            old(self).wf() ==> final(self).wf(),
    {
        self.code.push(byte);
        self.lines.push(line);
        assert(self@.constants =~= old(self)@.constants);
    }

    /// Appends a constant to the pool and returns its index.
    pub fn add_constant(&mut self, value: Value) -> (index: usize)
        ensures
            index == old(self)@.constants.len(),
            final(self)@ == old(self)@.add_constant(value@),
            final(self)@.constants[index as int] == value@,
    {
        let index = self.constants.len();
        self.constants.push(value);
        assert(self@.constants =~= old(self)@.constants.push(value@));
        index
    }

    /// Whether two chunks are the same in every part.
    pub fn identical(&self, other: &Chunk) -> (r: bool)
        ensures
            r == (self@ == other@),
        decreases self,
    {
        if self.code.len() != other.code.len() || self.lines.len() != other.lines.len()
            || self.constants.len() != other.constants.len() {
            assert(self@.constants.len() == self.constants.len());
            assert(other@.constants.len() == other.constants.len());
            return false;
        }
        let mut i: usize = 0;
        while i < self.code.len()
            invariant
                i <= self.code.len() == other.code.len(),
                self.code@.take(i as int) == other.code@.take(i as int),
            decreases self.code.len() - i,
        {
            if self.code[i] != other.code[i] {
                return false;
            }
            assert(self.code@.take(i + 1) =~= self.code@.take(i as int).push(self.code@[i as int]));
            assert(other.code@.take(i + 1) =~= other.code@.take(i as int).push(
                other.code@[i as int],
            ));
            i += 1;
        }
        assert(self.code@ =~= self.code@.take(i as int));
        assert(other.code@ =~= other.code@.take(i as int));
        let mut j: usize = 0;
        while j < self.lines.len()
            invariant
                j <= self.lines.len() == other.lines.len(),
                self.lines@.take(j as int) == other.lines@.take(j as int),
            decreases self.lines.len() - j,
        {
            if self.lines[j] != other.lines[j] {
                return false;
            }
            assert(self.lines@.take(j + 1) =~= self.lines@.take(j as int).push(
                self.lines@[j as int],
            ));
            assert(other.lines@.take(j + 1) =~= other.lines@.take(j as int).push(
                other.lines@[j as int],
            ));
            j += 1;
        }
        assert(self.lines@ =~= self.lines@.take(j as int));
        assert(other.lines@ =~= other.lines@.take(j as int));
        let mut k: usize = 0;
        while k < self.constants.len()
            invariant
                k <= self.constants.len() == other.constants.len(),
                forall|n: int| 0 <= n < k ==> self@.constants[n] == other@.constants[n],
            decreases self.constants.len() - k,
        {
            if !self.constants[k].identical(&other.constants[k]) {
                assert(self@.constants[k as int] != other@.constants[k as int]);
                return false;
            }
            k += 1;
        }
        assert(self@.constants =~= other@.constants);
        true
    }

    /// A copy of the chunk, equal to it in every part.
    pub fn duplicate(&self) -> (r: Chunk)
        ensures
            r@ == self@,
        decreases self,
    {
        let mut constants: Vec<Value> = Vec::new();
        let mut i: usize = 0;
        while i < self.constants.len()
            invariant
                i <= self.constants.len(),
                constants.len() == i,
                forall|j: int| 0 <= j < i ==> constants@[j]@ == self.constants@[j]@,
            decreases self.constants.len() - i,
        {
            let v = self.constants[i].duplicate();
            constants.push(v);
            i += 1;
        }
        let r = Chunk { code: self.code.clone(), constants, lines: self.lines.clone() };
        assert(r@.constants =~= self@.constants);
        assert(r@.code =~= self@.code);
        assert(r@.lines =~= self@.lines);
        r
    }

    /// Decodes the instruction that starts at `offset` and says where the
    /// next one starts. Reads no byte at or beyond the end of the code.
    pub fn disassemble_instruction(&self, offset: usize) -> (r: (Instruction, usize))
        requires
            self.wf(),
            offset < self.code.len(),
        ensures
            r.0 == self@.instruction_at(offset as int),
            r.1 == self@.next_offset(offset as int),
            offset < r.1 <= self.code.len(),
    {
        let byte = self.code[offset];
        let opcode = from_u8(byte);
        let width = opcode.width();
        let len = self.code.len();
        if width == 0 {
            (Instruction { offset, line: self.lines[offset], byte, opcode, operand: Operand::Nothing }, offset + 1)
        } else if width >= len - offset {
            (Instruction { offset, line: self.lines[offset], byte, opcode, operand: Operand::Missing }, len)
        } else if width == 1 {
            let operand = Operand::Byte(self.code[offset + 1]);
            (Instruction { offset, line: self.lines[offset], byte, opcode, operand }, offset + 2)
        } else {
            let operand = Operand::Short(make_short(self.code[offset + 1], self.code[offset + 2]));
            (Instruction { offset, line: self.lines[offset], byte, opcode, operand }, offset + 3)
        }
    }

    /// Lists the instructions of the chunk in order: every instruction once,
    /// each decoded from its own bytes.
    pub fn disassemble(&self) -> (r: Vec<Instruction>)
        requires
            self.wf(),
        ensures
            r@ == self@.listing(),
    {
        let mut out: Vec<Instruction> = Vec::new();
        let mut offset: usize = 0;
        while offset < self.code.len()
            invariant
                self.wf(),
                offset <= self.code.len(),
                out@ + self@.listing_from(offset as int) == self@.listing(),
            decreases self.code.len() - offset,
        {
            let (instruction, next) = self.disassemble_instruction(offset);
            assert(self@.listing_from(offset as int) == seq![instruction] + self@.listing_from(
                next as int,
            ));
            assert(out@.push(instruction) + self@.listing_from(next as int) =~= out@
                + self@.listing_from(offset as int));
            out.push(instruction);
            offset = next;
        }
        assert(self@.listing_from(offset as int) =~= Seq::empty());
        assert(out@ =~= out@ + self@.listing_from(offset as int));
        out
    }
}

/// A disassembly visits every instruction exactly once and reads nothing
/// beyond the end of the code: it starts at offset 0, each entry is followed
/// by the one that starts right behind its operand, so the offsets strictly
/// increase; every entry lies inside the code together with the operand it
/// shows; and the last entry ends where the code ends.
pub proof fn lemma_listing_covers_code(c: ChunkView, offset: int)
    requires
        0 <= offset <= c.code.len() <= usize::MAX,
    ensures
        ({
            let l = c.listing_from(offset);
            &&& (l.len() == 0) == (offset == c.code.len())
            &&& l.len() > 0 ==> l[0].offset == offset && c.next_offset(l.last().offset as int)
                == c.code.len()
            &&& forall|i: int|
                0 <= i < l.len() ==> {
                    &&& offset <= (#[trigger] l[i]).offset < c.code.len()
                    &&& l[i] == c.instruction_at(l[i].offset as int)
                    &&& l[i].operand != Operand::Missing ==> l[i].offset
                        + l[i].opcode.operand_width() < c.code.len()
                }
            &&& forall|i: int|
                0 <= i < l.len() - 1 ==> {
                    &&& (#[trigger] l[i + 1]).offset == c.next_offset(l[i].offset as int)
                    &&& l[i].offset < l[i + 1].offset
                }
        }),
    decreases c.code.len() - offset,
{
    if offset < c.code.len() {
        let next = c.next_offset(offset);
        lemma_listing_covers_code(c, next);
        let rest = c.listing_from(next);
        let l = c.listing_from(offset);
        assert(l == seq![c.instruction_at(offset)] + rest);
        assert(l[0] == c.instruction_at(offset));
        assert forall|i: int| 1 <= i < l.len() implies l[i] == rest[i - 1] by {}
        if rest.len() == 0 {
            assert(l.last() == l[0]);
        } else {
            assert(l.last() == rest.last());
        }
        assert forall|i: int| 0 <= i < l.len() implies {
            &&& offset <= (#[trigger] l[i]).offset < c.code.len()
            &&& l[i] == c.instruction_at(l[i].offset as int)
            &&& l[i].operand != Operand::Missing ==> l[i].offset + l[i].opcode.operand_width()
                < c.code.len()
        } by {
            if i > 0 {
                assert(l[i] == rest[i - 1]);
            }
        }
        assert forall|i: int| 0 <= i < l.len() - 1 implies {
            &&& (#[trigger] l[i + 1]).offset == c.next_offset(l[i].offset as int)
            &&& l[i].offset < l[i + 1].offset
        } by {
            assert(l[i + 1] == rest[i]);
            if i > 0 {
                assert(l[i] == rest[i - 1]);
                assert(rest[i - 1 + 1] == rest[i]);
            }
        }
    }
}

} // verus!
