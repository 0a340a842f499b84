//! Opcodes and chunks: the instruction stream with the source line of each of
//! its bytes, and the pool of constants that the instructions load.

use vstd::prelude::*;
use vstd::std_specs::convert::FromSpecImpl;
use crate::value::{Value, ValueArray};

verus! {

/// One instruction of the machine, or one of the two markers that decoding
/// gives for a stream that cannot be read.
#[derive(PartialEq, Eq, Structural, Hash, Debug, Clone, Copy)]
pub enum OpCode {
    Constant,
    ConstantLong,
    Return,
    Negate,
    Add,
    Subtract,
    Multiply,
    Divide,
    UnexpectedEndOfChunk,
    Invalid(u8),
}

impl OpCode {
    /// The byte that stands for an opcode in an instruction stream.
    pub open spec fn byte(self) -> u8 {
        match self {
            OpCode::Constant => 0,
            OpCode::ConstantLong => 1,
            OpCode::Return => 2,
            OpCode::Negate => 3,
            OpCode::Add => 4,
            OpCode::Subtract => 5,
            OpCode::Multiply => 6,
            OpCode::Divide => 7,
            OpCode::UnexpectedEndOfChunk => 255,
            OpCode::Invalid(code) => code,
        }
    }

    /// The opcode that a byte of an instruction stream stands for.
    pub open spec fn decode(byte: u8) -> OpCode {
        if byte == 0 {
            OpCode::Constant
        } else if byte == 1 {
            OpCode::ConstantLong
        } else if byte == 2 {
            OpCode::Return
        } else if byte == 3 {
            OpCode::Negate
        } else if byte == 4 {
            OpCode::Add
        } else if byte == 5 {
            OpCode::Subtract
        } else if byte == 6 {
            OpCode::Multiply
        } else if byte == 7 {
            OpCode::Divide
        } else if byte == 255 {
            OpCode::UnexpectedEndOfChunk
        } else {
            OpCode::Invalid(byte)
        }
    }

    /// Whether a byte is one of the nine that stand for an opcode of their own.
    pub open spec fn assigned(byte: u8) -> bool {
        byte <= 7 || byte == 255
    }

    /// The opcode has the form that decoding gives: `Invalid` holds no byte that
    /// stands for another opcode.
    pub open spec fn canonical(self) -> bool {
        self matches OpCode::Invalid(code) ==> !OpCode::assigned(code)
    }

    /// The byte that stands for the opcode in an instruction stream.
    pub fn to_byte(&self) -> (byte: u8)
        ensures
            byte == self.byte(),
    {
        match self {
            OpCode::Constant => 0,
            OpCode::ConstantLong => 1,
            OpCode::Return => 2,
            OpCode::Negate => 3,
            OpCode::Add => 4,
            OpCode::Subtract => 5,
            OpCode::Multiply => 6,
            OpCode::Divide => 7,
            OpCode::UnexpectedEndOfChunk => 255,
            OpCode::Invalid(code) => *code,
        }
    }

    /// Encoding what was decoded gives the byte back, and a byte that stands
    /// for no opcode of its own is decoded to `Invalid` with that byte.
    pub proof fn lemma_decode_then_encode(byte: u8)
        ensures
            OpCode::decode(byte).byte() == byte,
            OpCode::decode(byte).canonical(),
            !OpCode::assigned(byte) ==> OpCode::decode(byte) == OpCode::Invalid(byte),
            OpCode::Invalid(byte).byte() == byte,
    {
    }

    /// Decoding what was encoded gives the opcode back, for every opcode of the
    /// form that decoding gives.
    pub proof fn lemma_encode_then_decode(op: OpCode)
        requires
            op.canonical(),
        ensures
            OpCode::decode(op.byte()) == op,
    {
    }
}

impl From<u8> for OpCode {
    /// The opcode that a byte of an instruction stream stands for: `Invalid`
    /// with the byte for a byte that stands for no opcode of its own.
    fn from(byte: u8) -> (op: OpCode) {
        match byte {
            0 => OpCode::Constant,
            1 => OpCode::ConstantLong,
            2 => OpCode::Return,
            3 => OpCode::Negate,
            4 => OpCode::Add,
            5 => OpCode::Subtract,
            6 => OpCode::Multiply,
            7 => OpCode::Divide,
            255 => OpCode::UnexpectedEndOfChunk,
            _ => OpCode::Invalid(byte),
        }
    }
}

impl FromSpecImpl<u8> for OpCode {
    open spec fn obeys_from_spec() -> bool {
        true
    }

    open spec fn from_spec(byte: u8) -> OpCode {
        OpCode::decode(byte)
    }
}

/// What a chunk holds: the instruction stream, the source line of each of its
/// bytes, and the constant pool.
pub struct ChunkView {
    pub code: Seq<u8>,
    pub lines: Seq<u32>,
    pub constants: Seq<Value>,
}

/// The largest index of a constant that a one-byte operand can hold.
pub const SHORT_INDEX_MAX: usize = 255;

/// The number of indices that a two-byte operand can hold.
pub const LONG_INDEX_LIMIT: usize = 65536;

/// The high byte of the two-byte operand for a pool index.
pub open spec fn high_byte(index: nat) -> u8 {
    ((index / 256) % 256) as u8
}

/// The low byte of the two-byte operand for a pool index.
pub open spec fn low_byte(index: nat) -> u8 {
    (index % 256) as u8
}

/// The pool index that a two-byte operand holds.
pub open spec fn long_index(first: nat, second: nat) -> nat {
    first * 256 + second
}

/// The number of bytes of the instruction that loads the constant at a pool
/// index.
pub open spec fn load_len(index: nat) -> nat {
    if index <= SHORT_INDEX_MAX {
        2
    } else {
        3
    }
}

/// One append to a chunk: an instruction without operands, or a constant with
/// the instruction that loads it.
pub enum Append {
    Instruction { op_code: OpCode, line: u32 },
    Constant { constant: Value, line: u32 },
}

impl Append {
    /// The number of bytes that the append adds to the stream of a chunk whose
    /// pool holds `pooled` constants.
    pub open spec fn len(self, pooled: nat) -> nat {
        match self {
            Append::Instruction { .. } => 1,
            Append::Constant { .. } => load_len(pooled),
        }
    }
}

impl ChunkView {
    /// The chunk that holds nothing.
    pub open spec fn empty() -> ChunkView {
        ChunkView { code: Seq::empty(), lines: Seq::empty(), constants: Seq::empty() }
    }

    /// Every byte of the stream has its line.
    pub open spec fn aligned(self) -> bool {
        self.code.len() == self.lines.len()
    }

    /// The chunk with one more byte, written from the given line.
    pub open spec fn write_byte(self, byte: u8, line: u32) -> ChunkView {
        ChunkView { code: self.code.push(byte), lines: self.lines.push(line), ..self }
    }

    /// The chunk with one more instruction without operands.
    pub open spec fn write_chunk(self, op_code: OpCode, line: u32) -> ChunkView {
        self.write_byte(op_code.byte(), line)
    }

    /// The chunk with one more constant and the instruction that loads it: the
    /// short form where the index of the constant fits in one byte, else the
    /// long form with the high byte of the index before the low one.
    pub open spec fn write_constant(self, constant: Value, line: u32) -> ChunkView {
        let index = self.constants.len();
        let pooled = ChunkView { constants: self.constants.push(constant), ..self };
        if index <= SHORT_INDEX_MAX {
            pooled.write_byte(OpCode::Constant.byte(), line).write_byte(index as u8, line)
        } else {
            pooled.write_byte(OpCode::ConstantLong.byte(), line).write_byte(
                high_byte(index),
                line,
            ).write_byte(low_byte(index), line)
        }
    }

    /// The byte at an offset of the stream.
    pub open spec fn byte_at(self, offset: int) -> Option<u8> {
        if 0 <= offset < self.code.len() {
            Some(self.code[offset])
        } else {
            None
        }
    }

    /// The line of the byte at an offset of the stream.
    pub open spec fn line_at(self, offset: int) -> Option<u32> {
        if 0 <= offset < self.lines.len() {
            Some(self.lines[offset])
        } else {
            None
        }
    }

    /// The constant at an index of the pool.
    pub open spec fn constant_at(self, index: int) -> Option<Value> {
        if 0 <= index < self.constants.len() {
            Some(self.constants[index])
        } else {
            None
        }
    }

    /// The number of bytes of the stream from an offset on.
    pub open spec fn bytes_from(self, offset: int) -> nat {
        if offset < self.code.len() {
            (self.code.len() - offset) as nat
        } else {
            0
        }
    }

    /// The opcode at an offset; the end-of-chunk marker where the stream has no
    /// byte there.
    pub open spec fn opcode_at(self, offset: int) -> OpCode {
        match self.byte_at(offset) {
            Some(byte) => OpCode::decode(byte),
            None => OpCode::UnexpectedEndOfChunk,
        }
    }

    /// The pool index that the operand of the load at an offset holds, if the
    /// stream holds all of the operand's bytes: the byte after the opcode, or,
    /// for a long load, the two bytes after it, the high one first.
    pub open spec fn operand_at(self, offset: int, is_long: bool) -> Option<nat> {
        match self.byte_at(offset + 1) {
            None => None,
            Some(first) => if !is_long {
                Some(first as nat)
            } else {
                match self.byte_at(offset + 2) {
                    None => None,
                    Some(second) => Some(long_index(first as nat, second as nat)),
                }
            },
        }
    }

    /// The constant that the load at an offset names, if the stream holds all
    /// of its operand and the pool holds a constant at the index.
    pub open spec fn named_constant(self, offset: int, is_long: bool) -> Option<Value> {
        match self.operand_at(offset, is_long) {
            None => None,
            Some(index) => self.constant_at(index as int),
        }
    }

    /// The encoding of the number that the load at an offset names, if it names
    /// a constant and that constant is a number.
    pub open spec fn named_number(self, offset: int, is_long: bool) -> Option<u64> {
        match self.named_constant(offset, is_long) {
            Some(constant) => if constant.data is Float {
                Some(constant.bits())
            } else {
                None
            },
            None => None,
        }
    }

    /// The constant that the instruction at an offset loads: none where the
    /// instruction is no load, where the stream ends inside its operand, or
    /// where the pool has nothing at the index.
    pub open spec fn loaded_constant(self, offset: int) -> Option<Value> {
        match self.opcode_at(offset) {
            OpCode::Constant => self.named_constant(offset, false),
            OpCode::ConstantLong => self.named_constant(offset, true),
            _ => None,
        }
    }

    /// The encoding of the number that the instruction at an offset loads, if
    /// it loads a constant and that constant is a number.
    pub open spec fn loaded_number(self, offset: int) -> Option<u64> {
        match self.opcode_at(offset) {
            OpCode::Constant => self.named_number(offset, false),
            OpCode::ConstantLong => self.named_number(offset, true),
            _ => None,
        }
    }

    /// The chunk after one append.
    pub open spec fn append(self, append: Append) -> ChunkView {
        match append {
            Append::Instruction { op_code, line } => self.write_chunk(op_code, line),
            Append::Constant { constant, line } => self.write_constant(constant, line),
        }
    }

    /// The chunk after a sequence of appends, the first of them first.
    pub open spec fn append_all(self, appends: Seq<Append>) -> ChunkView
        decreases appends.len(),
    {
        if appends.len() == 0 {
            self
        } else {
            self.append_all(appends.drop_last()).append(appends.last())
        }
    }

    /// The sum of the bytes that each of a sequence of appends adds.
    pub open spec fn appended_len(self, appends: Seq<Append>) -> nat
        decreases appends.len(),
    {
        if appends.len() == 0 {
            0
        } else {
            self.appended_len(appends.drop_last()) + appends.last().len(
                self.append_all(appends.drop_last()).constants.len(),
            )
        }
    }

    /// After any sequence of appends the stream has grown by the sum of the
    /// lengths of what was appended, and every byte still has its line.
    pub proof fn lemma_size_after_appends(self, appends: Seq<Append>)
        requires
            self.aligned(),
        ensures
            self.append_all(appends).code.len() == self.code.len() + self.appended_len(appends),
            self.append_all(appends).aligned(),
        decreases appends.len(),
    {
        if appends.len() > 0 {
            self.lemma_size_after_appends(appends.drop_last());
        }
    }

    /// Whatever is appended, the stream gets a line for each new byte.
    pub proof fn lemma_writes_keep_aligned(self, op_code: OpCode, constant: Value, line: u32)
        requires
            self.aligned(),
        ensures
            self.write_chunk(op_code, line).aligned(),
            self.write_constant(constant, line).aligned(),
    {
    }

    /// An instruction without operands takes one byte; a load takes two or
    /// three, by the index of its constant.
    pub proof fn lemma_write_lengths(self, op_code: OpCode, constant: Value, line: u32)
        ensures
            self.write_chunk(op_code, line).code.len() == self.code.len() + 1,
            self.write_constant(constant, line).code.len() == self.code.len() + load_len(
                self.constants.len(),
            ),
    {
    }

    /// Nothing that was written is changed or moved by a later write.
    pub proof fn lemma_writes_keep_what_is_written(
        self,
        op_code: OpCode,
        constant: Value,
        line: u32,
    )
        ensures
            self.code.is_prefix_of(self.write_chunk(op_code, line).code),
            self.lines.is_prefix_of(self.write_chunk(op_code, line).lines),
            self.write_chunk(op_code, line).constants == self.constants,
            self.code.is_prefix_of(self.write_constant(constant, line).code),
            self.lines.is_prefix_of(self.write_constant(constant, line).lines),
            self.constants.is_prefix_of(self.write_constant(constant, line).constants),
    {
    }

    /// A constant whose index fits in one byte is loaded by `Constant` and that
    /// index, and is found under it: what was written is what is read back.
    pub proof fn lemma_short_constant_round_trip(self, constant: Value, line: u32)
        requires
            self.constants.len() <= SHORT_INDEX_MAX,
        ensures
            ({
                let written = self.write_constant(constant, line);
                let at = self.code.len() as int;
                &&& written.code.len() == at + 2
                &&& written.code[at] == OpCode::Constant.byte()
                &&& written.code[at + 1] == self.constants.len()
                &&& written.constant_at(written.code[at + 1] as int) == Some(constant)
                &&& written.opcode_at(at) == OpCode::Constant
                &&& written.operand_at(at, false) == Some(self.constants.len())
                &&& written.named_constant(at, false) == Some(constant)
            }),
    {
    }

    /// A constant whose index takes two bytes is loaded by `ConstantLong`, the
    /// high byte of the index and its low byte, and is found under the index
    /// that the two bytes give: what was written is what is read back.
    pub proof fn lemma_long_constant_round_trip(self, constant: Value, line: u32)
        requires
            SHORT_INDEX_MAX < self.constants.len() < LONG_INDEX_LIMIT,
        ensures
            ({
                let written = self.write_constant(constant, line);
                let at = self.code.len() as int;
                let index = self.constants.len();
                &&& written.code.len() == at + 3
                &&& written.code[at] == OpCode::ConstantLong.byte()
                &&& written.code[at + 1] == index / 256
                &&& written.code[at + 2] == index % 256
                &&& long_index(written.code[at + 1] as nat, written.code[at + 2] as nat)
                    == index
                &&& written.constant_at(
                    long_index(written.code[at + 1] as nat, written.code[at + 2] as nat) as int,
                ) == Some(constant)
                &&& written.opcode_at(at) == OpCode::ConstantLong
                &&& written.operand_at(at, true) == Some(index)
                &&& written.named_constant(at, true) == Some(constant)
            }),
    {
    }
}

/// An instruction stream with the source line of each of its bytes and a pool
/// of constants. Bytes and constants are only ever appended.
#[derive(Debug)]
pub struct Chunk {
    code: Vec<u8>,
    lines: Vec<u32>,
    constants: ValueArray,
}

impl View for Chunk {
    type V = ChunkView;

    closed spec fn view(&self) -> ChunkView {
        ChunkView { code: self.code@, lines: self.lines@, constants: self.constants@ }
    }
}

impl Default for Chunk {
    fn default() -> (chunk: Self)
        ensures
            chunk@ == ChunkView::empty(),
    {
        Chunk::new()
    }
}

impl Chunk {
    #[verifier::type_invariant]
    spec fn every_byte_has_a_line(self) -> bool {
        self.code@.len() == self.lines@.len()
    }

    /// The stream, the lines and the pool each have a length that the machine
    /// can count.
    pub proof fn lemma_lengths_fit(&self)
        ensures
            self@.code.len() <= usize::MAX,
            self@.lines.len() <= usize::MAX,
            self@.constants.len() <= usize::MAX,
    {
        assert(self.code@.len() == self.code.len());
        assert(self.lines@.len() == self.lines.len());
        self.constants.lemma_length_fits();
    }

    /// The chunk that holds nothing.
    pub fn new() -> (chunk: Self)
        ensures
            chunk@ == ChunkView::empty(),
    {
        Chunk { code: Vec::new(), lines: Vec::new(), constants: ValueArray::new() }
    }

    /// Appends the byte of an opcode, written from the given line.
    pub fn write_chunk(self, op_code: &OpCode, line: u32) -> (chunk: Self)
        ensures
            chunk@ == self@.write_chunk(*op_code, line),
            chunk@.aligned(),
    {
        proof {
            use_type_invariant(&self);
        }
        let Chunk { mut code, mut lines, constants } = self;
        code.push(op_code.to_byte());
        lines.push(line);
        Chunk { code, lines, constants }
    }

    /// Appends a constant to the pool and the instruction that loads it.
    pub fn write_constant(self, constant: Value, line: u32) -> (chunk: Self)
        ensures
            chunk@ == self@.write_constant(constant, line),
            chunk@.aligned(),
    {
        proof {
            use_type_invariant(&self);
        }
        let Chunk { mut code, mut lines, mut constants } = self;
        let location = constants.write_value(constant);
        if location <= SHORT_INDEX_MAX {
            code.push(OpCode::Constant.to_byte());
            lines.push(line);
            code.push(location as u8);
            lines.push(line);
        } else {
            let high = ((location >> 8) & 0xff) as u8;
            let low = (location & 0xff) as u8;
            assert(high == high_byte(location as nat) && low == low_byte(location as nat)) by {
                assert((location >> 8) & 0xff == (location / 256) % 256) by (bit_vector);
                assert(location & 0xff == location % 256) by (bit_vector);
            }
            code.push(OpCode::ConstantLong.to_byte());
            lines.push(line);
            code.push(high);
            lines.push(line);
            code.push(low);
            lines.push(line);
        }
        Chunk { code, lines, constants }
    }

    /// The number of bytes in the instruction stream.
    pub fn get_size(&self) -> (size: usize)
        ensures
            size == self@.code.len(),
            self@.aligned(),
    {
        proof {
            use_type_invariant(self);
        }
        self.code.len()
    }

    /// The byte at an offset, if the stream reaches that far.
    pub fn get_byte(&self, offset: usize) -> (byte: Option<u8>)
        ensures
            byte == self@.byte_at(offset as int),
    {
        if offset < self.code.len() {
            Some(self.code[offset])
        } else {
            None
        }
    }

    /// The constant at an index of the pool, if there is one.
    pub fn get_constant(&self, constant_index: usize) -> (value: Option<Value>)
        ensures
            value == self@.constant_at(constant_index as int),
    {
        self.constants.get_constant(constant_index)
    }

    /// The constant at the index that the two bytes of a long operand give, if
    /// there is one.
    pub fn get_long_constant(
        &self,
        constant_index_first_byte: usize,
        constant_index_second_byte: usize,
    ) -> (value: Option<Value>)
        ensures
            value == self@.constant_at(
                long_index(
                    constant_index_first_byte as nat,
                    constant_index_second_byte as nat,
                ) as int,
            ),
    {
        let size = self.constants.get_size();
        if constant_index_first_byte > size / 256 {
            return None;
        }
        let base = constant_index_first_byte * 256;
        if constant_index_second_byte >= size - base {
            return None;
        }
        self.get_constant(base + constant_index_second_byte)
    }

    /// The source line of the byte at an offset, if the stream reaches that far.
    pub fn get_line(&self, offset: usize) -> (line: Option<u32>)
        ensures
            line == self@.line_at(offset as int),
    {
        if offset < self.lines.len() {
            Some(self.lines[offset])
        } else {
            None
        }
    }
}

} // verus!
