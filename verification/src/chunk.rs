//! Bytecode: the instruction set and the chunk that holds a compiled program.
//!
//! Besides the container this module states when a chunk is fit to run:
//! [`walk`] follows the code with a count of the values on the stack, and
//! [`runnable`] asks that the walk reach a closing `Return`. The compiler
//! proves it of what it emits and the machine relies on it.

use vstd::prelude::*;
use crate::text::copy_bytes;

verus! {

/// An instruction of the machine. Each is one byte in the code; those that
/// name a constant, a global or a stack slot are followed by one operand byte.
#[derive(Clone, Copy, Debug, PartialEq, Eq, Hash, Structural)]
pub enum OpCode {
    Constant,
    Nil,
    True,
    False,
    Pop,
    GetLocal,
    SetLocal,
    GetGlobal,
    DefineGlobal,
    SetGlobal,
    Equal,
    Greater,
    Less,
    Add,
    Sub,
    Mul,
    Div,
    Not,
    Negate,
    Print,
    Return,
}

/// The byte that stands for an instruction in the code.
pub open spec fn op_byte(op: OpCode) -> u8 {
    match op {
        OpCode::Constant => 0,
        OpCode::Nil => 1,
        OpCode::True => 2,
        OpCode::False => 3,
        OpCode::Pop => 4,
        OpCode::GetLocal => 5,
        OpCode::SetLocal => 6,
        OpCode::GetGlobal => 7,
        OpCode::DefineGlobal => 8,
        OpCode::SetGlobal => 9,
        OpCode::Equal => 10,
        OpCode::Greater => 11,
        OpCode::Less => 12,
        OpCode::Add => 13,
        OpCode::Sub => 14,
        OpCode::Mul => 15,
        OpCode::Div => 16,
        OpCode::Not => 17,
        OpCode::Negate => 18,
        OpCode::Print => 19,
        OpCode::Return => 20,
    }
}

/// The instruction that a byte stands for, if it stands for one.
pub open spec fn decode(byte: u8) -> Option<OpCode> {
    if byte == 0 {
        Some(OpCode::Constant)
    } else if byte == 1 {
        Some(OpCode::Nil)
    } else if byte == 2 {
        Some(OpCode::True)
    } else if byte == 3 {
        Some(OpCode::False)
    } else if byte == 4 {
        Some(OpCode::Pop)
    } else if byte == 5 {
        Some(OpCode::GetLocal)
    } else if byte == 6 {
        Some(OpCode::SetLocal)
    } else if byte == 7 {
        Some(OpCode::GetGlobal)
    } else if byte == 8 {
        Some(OpCode::DefineGlobal)
    } else if byte == 9 {
        Some(OpCode::SetGlobal)
    } else if byte == 10 {
        Some(OpCode::Equal)
    } else if byte == 11 {
        Some(OpCode::Greater)
    } else if byte == 12 {
        Some(OpCode::Less)
    } else if byte == 13 {
        Some(OpCode::Add)
    } else if byte == 14 {
        Some(OpCode::Sub)
    } else if byte == 15 {
        Some(OpCode::Mul)
    } else if byte == 16 {
        Some(OpCode::Div)
    } else if byte == 17 {
        Some(OpCode::Not)
    } else if byte == 18 {
        Some(OpCode::Negate)
    } else if byte == 19 {
        Some(OpCode::Print)
    } else if byte == 20 {
        Some(OpCode::Return)
    } else {
        None
    }
}

/// How many operand bytes follow an instruction.
pub open spec fn operand_count(op: OpCode) -> int {
    match op {
        OpCode::Constant
        | OpCode::GetLocal
        | OpCode::SetLocal
        | OpCode::GetGlobal
        | OpCode::DefineGlobal
        | OpCode::SetGlobal => 1,
        _ => 0,
    }
}

/// How many values an instruction takes from the stack.
pub open spec fn pops(op: OpCode) -> int {
    match op {
        OpCode::Constant | OpCode::Nil | OpCode::True | OpCode::False => 0,
        OpCode::GetLocal | OpCode::GetGlobal | OpCode::Return => 0,
        OpCode::Pop | OpCode::SetLocal | OpCode::DefineGlobal | OpCode::SetGlobal => 1,
        OpCode::Not | OpCode::Negate | OpCode::Print => 1,
        OpCode::Equal | OpCode::Greater | OpCode::Less => 2,
        OpCode::Add | OpCode::Sub | OpCode::Mul | OpCode::Div => 2,
    }
}

/// How many values an instruction puts on the stack.
pub open spec fn pushes(op: OpCode) -> int {
    match op {
        OpCode::Pop | OpCode::DefineGlobal | OpCode::Print | OpCode::Return => 0,
        _ => 1,
    }
}

impl OpCode {
    /// The byte that stands for the instruction.
    pub fn to_byte(self) -> (byte: u8)
        ensures
            byte == op_byte(self),
    {
        match self {
            OpCode::Constant => 0,
            OpCode::Nil => 1,
            OpCode::True => 2,
            OpCode::False => 3,
            OpCode::Pop => 4,
            OpCode::GetLocal => 5,
            OpCode::SetLocal => 6,
            OpCode::GetGlobal => 7,
            OpCode::DefineGlobal => 8,
            OpCode::SetGlobal => 9,
            OpCode::Equal => 10,
            OpCode::Greater => 11,
            OpCode::Less => 12,
            OpCode::Add => 13,
            OpCode::Sub => 14,
            OpCode::Mul => 15,
            OpCode::Div => 16,
            OpCode::Not => 17,
            OpCode::Negate => 18,
            OpCode::Print => 19,
            OpCode::Return => 20,
        }
    }

    /// The instruction that `byte` stands for, if it stands for one.
    pub fn from_byte(byte: u8) -> (op: Option<OpCode>)
        ensures
            op == decode(byte),
    {
        if byte == 0 {
            Some(OpCode::Constant)
        } else if byte == 1 {
            Some(OpCode::Nil)
        } else if byte == 2 {
            Some(OpCode::True)
        } else if byte == 3 {
            Some(OpCode::False)
        } else if byte == 4 {
            Some(OpCode::Pop)
        } else if byte == 5 {
            Some(OpCode::GetLocal)
        } else if byte == 6 {
            Some(OpCode::SetLocal)
        } else if byte == 7 {
            Some(OpCode::GetGlobal)
        } else if byte == 8 {
            Some(OpCode::DefineGlobal)
        } else if byte == 9 {
            Some(OpCode::SetGlobal)
        } else if byte == 10 {
            Some(OpCode::Equal)
        } else if byte == 11 {
            Some(OpCode::Greater)
        } else if byte == 12 {
            Some(OpCode::Less)
        } else if byte == 13 {
            Some(OpCode::Add)
        } else if byte == 14 {
            Some(OpCode::Sub)
        } else if byte == 15 {
            Some(OpCode::Mul)
        } else if byte == 16 {
            Some(OpCode::Div)
        } else if byte == 17 {
            Some(OpCode::Not)
        } else if byte == 18 {
            Some(OpCode::Negate)
        } else if byte == 19 {
            Some(OpCode::Print)
        } else if byte == 20 {
            Some(OpCode::Return)
        } else {
            None
        }
    }

    /// How many values the instruction takes from the stack.
    pub fn pops(self) -> (n: usize)
        ensures
            n == pops(self),
    {
        match self {
            OpCode::Constant | OpCode::Nil | OpCode::True | OpCode::False => 0,
            OpCode::GetLocal | OpCode::GetGlobal | OpCode::Return => 0,
            OpCode::Pop | OpCode::SetLocal | OpCode::DefineGlobal | OpCode::SetGlobal => 1,
            OpCode::Not | OpCode::Negate | OpCode::Print => 1,
            OpCode::Equal | OpCode::Greater | OpCode::Less => 2,
            OpCode::Add | OpCode::Sub | OpCode::Mul | OpCode::Div => 2,
        }
    }

    /// How many values the instruction puts on the stack.
    pub fn pushes(self) -> (n: usize)
        ensures
            n == pushes(self),
    {
        match self {
            OpCode::Pop | OpCode::DefineGlobal | OpCode::Print | OpCode::Return => 0,
            _ => 1,
        }
    }

    /// How many operand bytes follow the instruction.
    pub fn operands(self) -> (n: usize)
        ensures
            n == operand_count(self),
    {
        match self {
            OpCode::Constant
            | OpCode::GetLocal
            | OpCode::SetLocal
            | OpCode::GetGlobal
            | OpCode::DefineGlobal
            | OpCode::SetGlobal => 1,
            _ => 0,
        }
    }
}

/// A byte decodes to an instruction exactly when it is that instruction's
/// byte.
pub proof fn lemma_decode_op_byte(op: OpCode, byte: u8)
    ensures
        decode(op_byte(op)) == Some(op),
        decode(byte) == Some(op) <==> byte == op_byte(op),
{
}

/// A constant, as the compiler records it.
#[derive(Debug)]
pub enum Constant {
    /// A number literal as it is written. The host converts it to a number
    /// when the machine loads it.
    Number(Vec<u8>),
    /// A string: a string literal without its quotes, or a variable's name.
    String(Vec<u8>),
}

/// The mathematical value of a [`Constant`].
pub enum ConstantView {
    Number(Seq<u8>),
    String(Seq<u8>),
}

impl View for Constant {
    type V = ConstantView;

    open spec fn view(&self) -> ConstantView {
        match self {
            Constant::Number(text) => ConstantView::Number(text@),
            Constant::String(bytes) => ConstantView::String(bytes@),
        }
    }
}

impl Clone for Constant {
    fn clone(&self) -> (constant: Constant)
        ensures
            constant@ == self@,
    {
        match self {
            Constant::Number(text) => Constant::Number(copy_bytes(text.as_slice())),
            Constant::String(bytes) => Constant::String(copy_bytes(bytes.as_slice())),
        }
    }
}

/// A compiled program: the code, the constants it names, and for each byte of
/// code the source line it came from.
#[derive(Debug)]
pub struct Chunk {
    pub code: Vec<u8>,
    pub constants: Vec<Constant>,
    pub lines: Vec<usize>,
}

/// The mathematical value of a [`Chunk`].
pub struct ChunkView {
    pub code: Seq<u8>,
    pub constants: Seq<ConstantView>,
    pub lines: Seq<usize>,
}

impl View for Chunk {
    type V = ChunkView;

    open spec fn view(&self) -> ChunkView {
        ChunkView {
            code: self.code@,
            constants: self.constants@.map_values(|c: Constant| c@),
            lines: self.lines@,
        }
    }
}

impl ChunkView {
    /// Every byte of code has its line.
    pub open spec fn wf(self) -> bool {
        self.lines.len() == self.code.len()
    }

    /// The chunk with one more byte of code.
    pub open spec fn write(self, byte: u8, line: usize) -> ChunkView {
        ChunkView {
            code: self.code.push(byte),
            constants: self.constants,
            lines: self.lines.push(line),
        }
    }

    /// The chunk with one more constant.
    pub open spec fn add_constant(self, constant: ConstantView) -> ChunkView {
        ChunkView { code: self.code, constants: self.constants.push(constant), lines: self.lines }
    }

    /// Whether `self` begins with all that `earlier` holds: code, lines and
    /// constants are only ever added at the end.
    pub open spec fn extends(self, earlier: ChunkView) -> bool {
        &&& earlier.code.is_prefix_of(self.code)
        &&& earlier.lines.is_prefix_of(self.lines)
        &&& earlier.constants.is_prefix_of(self.constants)
    }
}

impl Chunk {
    pub fn new() -> (chunk: Chunk)
        ensures
            chunk@.code.len() == 0,
            chunk@.constants.len() == 0,
            chunk@.lines.len() == 0,
    {
        let chunk = Chunk { code: Vec::new(), constants: Vec::new(), lines: Vec::new() };
        assert(chunk@.constants =~= Seq::empty());
        chunk
    }

    /// Whether the instruction `op` with the operand `operand` can run with
    /// `depth` values on the stack.
    pub fn admits(&self, op: OpCode, operand: u8, depth: usize) -> (ok: bool)
        ensures
            ok == admits(self@.constants, op, operand, depth as int),
    {
        if depth < op.pops() {
            return false;
        }
        match op {
            OpCode::GetLocal | OpCode::SetLocal => (operand as usize) < depth,
            OpCode::Constant => (operand as usize) < self.constants.len(),
            OpCode::GetGlobal | OpCode::DefineGlobal | OpCode::SetGlobal => {
                if (operand as usize) < self.constants.len() {
                    assert(self@.constants[operand as int] == self.constants@[operand as int]@);
                    match &self.constants[operand as usize] {
                        Constant::String(_) => true,
                        Constant::Number(_) => false,
                    }
                } else {
                    false
                }
            },
            _ => true,
        }
    }

    /// Whether the chunk can be run: see [`runnable`].
    pub fn is_runnable(&self) -> (ok: bool)
        ensures
            ok == runnable(self@),
    {
        let len = self.code.len();
        if self.lines.len() != len || len == 0 || self.code[len - 1] != OpCode::Return.to_byte() {
            return false;
        }
        let end = len - 1;
        let mut offset: usize = 0;
        let mut depth: usize = 0;
        while offset < end
            invariant
                end == self.code@.len() - 1,
                offset <= end,
                depth <= offset,
                walk(self@, 0, 0, end as int) == walk(
                    self@,
                    offset as int,
                    depth as int,
                    end as int,
                ),
            decreases end - offset,
        {
            let op = match OpCode::from_byte(self.code[offset]) {
                Some(op) => op,
                None => {
                    return false;
                },
            };
            let count = op.operands();
            if count > end - offset - 1 {
                return false;
            }
            let operand = if count == 1 { self.code[offset + 1] } else { 0 };
            if op == OpCode::Return || !self.admits(op, operand, depth) {
                return false;
            }
            depth = depth + op.pushes() - op.pops();
            offset = offset + 1 + count;
        }
        true
    }

    /// Adds a byte of code that came from the source line `line`.
    pub fn write(&mut self, byte: u8, line: usize)
        ensures
            final(self)@ == old(self)@.write(byte, line),
    {
        self.code.push(byte);
        self.lines.push(line);
    }

    /// Adds a constant and returns its index.
    pub fn add_constant(&mut self, constant: Constant) -> (index: usize)
        ensures
            final(self)@ == old(self)@.add_constant(constant@),
            index == old(self)@.constants.len(),
    {
        self.constants.push(constant);
        assert(self@.constants =~= old(self)@.constants.push(constant@));
        self.constants.len() - 1
    }
}

/// Whether an instruction can run with `depth` values on the stack: it finds
/// the values it takes, the stack slot it names holds a value, and the
/// constant it names exists and, where it is used as a name, is a string.
pub open spec fn admits(constants: Seq<ConstantView>, op: OpCode, operand: u8, depth: int) -> bool {
    &&& depth >= pops(op)
    &&& (op == OpCode::GetLocal || op == OpCode::SetLocal) ==> operand < depth
    &&& op == OpCode::Constant ==> operand < constants.len()
    &&& (op == OpCode::GetGlobal || op == OpCode::DefineGlobal || op == OpCode::SetGlobal) ==> {
        &&& operand < constants.len()
        &&& constants[operand as int] is String
    }
}

/// The operand of the instruction at `offset`: the byte after it, where the
/// instruction has an operand and the byte is there.
pub open spec fn operand_at(code: Seq<u8>, offset: int) -> u8 {
    if offset + 1 < code.len() { code[offset + 1] } else { 0 }
}

/// Follows the code from `offset`, where `depth` values are on the stack, up
/// to `end`. The result is the number of values on the stack on arrival. It
/// is `None` where a byte on the way is no instruction, an instruction is cut
/// off by `end`, cannot run at the depth reached (see [`admits`]), or is a
/// `Return`.
pub open spec fn walk(chunk: ChunkView, offset: int, depth: int, end: int) -> Option<int>
    decreases end - offset,
{
    if offset >= end {
        if offset == end { Some(depth) } else { None }
    } else if offset < 0 || end > chunk.code.len() {
        None
    } else {
        match decode(chunk.code[offset]) {
            None => None,
            Some(op) => {
                if offset + 1 + operand_count(op) <= end && op != OpCode::Return && admits(
                    chunk.constants,
                    op,
                    operand_at(chunk.code, offset),
                    depth,
                ) {
                    walk(chunk, offset + 1 + operand_count(op), depth + pushes(op) - pops(op), end)
                } else {
                    None
                }
            },
        }
    }
}

/// Whether the code from `offset` to `end` is made of whole instructions:
/// each byte that stands where an instruction begins is the byte of an
/// instruction, and is followed by as many operand bytes as that instruction
/// has.
pub open spec fn framed(code: Seq<u8>, offset: int, end: int) -> bool
    decreases end - offset,
{
    if offset >= end {
        offset == end
    } else if offset < 0 || end > code.len() {
        false
    } else {
        match decode(code[offset]) {
            None => false,
            Some(op) => offset + 1 + operand_count(op) <= end && framed(
                code,
                offset + 1 + operand_count(op),
                end,
            ),
        }
    }
}

/// A chunk is runnable when its code ends in `Return` and every instruction
/// before it can run: started at offset 0 with an empty stack, the machine
/// finds each instruction whole, with its operands on the stack, until it
/// reaches that `Return`.
pub open spec fn runnable(chunk: ChunkView) -> bool {
    &&& chunk.wf()
    &&& chunk.code.len() > 0
    &&& chunk.code.last() == op_byte(OpCode::Return)
    &&& walk(chunk, 0, 0, chunk.code.len() - 1) is Some
}

/// Code that can be walked is made of whole instructions.
pub proof fn lemma_walk_framed(chunk: ChunkView, offset: int, depth: int, end: int)
    requires
        walk(chunk, offset, depth, end) is Some,
    ensures
        framed(chunk.code, offset, end),
    decreases end - offset,
{
    if offset < end {
        let op = decode(chunk.code[offset]).unwrap();
        lemma_walk_framed(
            chunk,
            offset + 1 + operand_count(op),
            depth + pushes(op) - pops(op),
            end,
        );
    }
}

/// Whole instructions stay whole when code is added after them, and one
/// more instruction after them, with its operand if it has one, makes whole
/// instructions again.
pub proof fn lemma_framed_push(before: Seq<u8>, after: Seq<u8>, offset: int, op: OpCode)
    requires
        framed(before, offset, before.len() as int),
        before.is_prefix_of(after),
        after.len() == before.len() + 1 + operand_count(op),
        after[before.len() as int] == op_byte(op),
    ensures
        framed(after, offset, after.len() as int),
    decreases before.len() - offset,
{
    lemma_decode_op_byte(op, op_byte(op));
    if offset < before.len() {
        assert(after[offset] == before[offset]);
        let first = decode(before[offset]).unwrap();
        lemma_framed_push(before, after, offset + 1 + operand_count(first), op);
    } else {
        assert(framed(after, after.len() as int, after.len() as int));
    }
}

/// A walk never leaves fewer than no values.
pub proof fn lemma_walk_nonnegative(chunk: ChunkView, offset: int, depth: int, end: int)
    requires
        walk(chunk, offset, depth, end) is Some,
        depth >= 0,
    ensures
        walk(chunk, offset, depth, end).unwrap() >= 0,
    decreases end - offset,
{
    if offset < end {
        let op = decode(chunk.code[offset]).unwrap();
        lemma_walk_nonnegative(
            chunk,
            offset + 1 + operand_count(op),
            depth + pushes(op) - pops(op),
            end,
        );
    }
}

/// A walk that succeeds with some values on the stack succeeds with more.
pub proof fn lemma_walk_deeper(chunk: ChunkView, offset: int, depth: int, end: int, more: int)
    requires
        walk(chunk, offset, depth, end) is Some,
        more >= 0,
    ensures
        walk(chunk, offset, depth + more, end) == Some(
            walk(chunk, offset, depth, end).unwrap() + more,
        ),
    decreases end - offset,
{
    if offset < end {
        let op = decode(chunk.code[offset]).unwrap();
        lemma_walk_deeper(
            chunk,
            offset + 1 + operand_count(op),
            depth + pushes(op) - pops(op),
            end,
            more,
        );
    }
}

/// A walk sees the code before `end` and the constants it names, no more: a
/// chunk that extends `chunk` walks the same way.
pub proof fn lemma_walk_extends(
    chunk: ChunkView,
    later: ChunkView,
    offset: int,
    depth: int,
    end: int,
)
    requires
        later.extends(chunk),
        walk(chunk, offset, depth, end) is Some,
    ensures
        walk(later, offset, depth, end) == walk(chunk, offset, depth, end),
    decreases end - offset,
{
    if offset < end {
        let op = decode(chunk.code[offset]).unwrap();
        assert(later.code[offset] == chunk.code[offset]);
        if operand_count(op) == 1 {
            assert(later.code[offset + 1] == chunk.code[offset + 1]);
        }
        let operand = operand_at(chunk.code, offset);
        if operand < chunk.constants.len() {
            assert(later.constants[operand as int] == chunk.constants[operand as int]);
        }
        assert(operand_count(op) == 0 ==> admits(
            later.constants,
            op,
            operand_at(later.code, offset),
            depth,
        ));
        lemma_walk_extends(
            chunk,
            later,
            offset + 1 + operand_count(op),
            depth + pushes(op) - pops(op),
            end,
        );
    }
}

/// Walking to `middle` and on from there to `end` is walking to `end`.
pub proof fn lemma_walk_join(chunk: ChunkView, offset: int, depth: int, middle: int, end: int)
    requires
        walk(chunk, offset, depth, middle) is Some,
        middle <= end,
    ensures
        walk(chunk, offset, depth, end) == walk(
            chunk,
            middle,
            walk(chunk, offset, depth, middle).unwrap(),
            end,
        ),
    decreases middle - offset,
{
    if offset < middle {
        let op = decode(chunk.code[offset]).unwrap();
        if end > chunk.code.len() {
            let reached = walk(chunk, offset, depth, middle).unwrap();
            assert(walk(chunk, middle, reached, end) is None) by {
                if middle == end {
                    assert(middle <= chunk.code.len());
                }
            }
        }
        lemma_walk_join(
            chunk,
            offset + 1 + operand_count(op),
            depth + pushes(op) - pops(op),
            middle,
            end,
        );
    }
}

} // verus!
