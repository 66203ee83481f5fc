//! The disassembler: a listing of a chunk, one line for each instruction.
//!
//! A line holds the offset of the instruction in four digits, the source
//! line it came from, or a bar where that is the line of the byte before,
//! the name of the instruction, and its operand; after the operand of an
//! instruction that names a constant stands the constant, in quotes. A number
//! constant is listed as it is written in the source.

use vstd::prelude::*;
use vstd::string::StringSliceAdditionalSpecFns;
use crate::chunk::{
    decode, lemma_decode_op_byte, operand_count, runnable, walk, Chunk, ChunkView, Constant,
    ConstantView, OpCode,
};
use crate::text::{append_bytes, append_decimal, decimal};

verus! {

/// `count` times the byte `fill`.
pub open spec fn filling(count: int, fill: u8) -> Seq<u8> {
    Seq::new(if count > 0 { count as nat } else { 0 }, |i: int| fill)
}

/// `text` with as many `fill` before it as bring it to `width` bytes.
pub open spec fn pad_left(text: Seq<u8>, width: int, fill: u8) -> Seq<u8> {
    filling(width - text.len(), fill) + text
}

/// `text` with as many spaces after it as bring it to `width` bytes.
pub open spec fn pad_right(text: Seq<u8>, width: int) -> Seq<u8> {
    text + filling(width - text.len(), 32)
}

/// The name of an instruction.
pub open spec fn op_name(op: OpCode) -> Seq<u8> {
    match op {
        OpCode::Constant => "Constant".spec_bytes(),
        OpCode::Nil => "Nil".spec_bytes(),
        OpCode::True => "True".spec_bytes(),
        OpCode::False => "False".spec_bytes(),
        OpCode::Pop => "Pop".spec_bytes(),
        OpCode::GetLocal => "GetLocal".spec_bytes(),
        OpCode::SetLocal => "SetLocal".spec_bytes(),
        OpCode::GetGlobal => "GetGlobal".spec_bytes(),
        OpCode::DefineGlobal => "DefineGlobal".spec_bytes(),
        OpCode::SetGlobal => "SetGlobal".spec_bytes(),
        OpCode::Equal => "Equal".spec_bytes(),
        OpCode::Greater => "Greater".spec_bytes(),
        OpCode::Less => "Less".spec_bytes(),
        OpCode::Add => "Add".spec_bytes(),
        OpCode::Sub => "Sub".spec_bytes(),
        OpCode::Mul => "Mul".spec_bytes(),
        OpCode::Div => "Div".spec_bytes(),
        OpCode::Not => "Not".spec_bytes(),
        OpCode::Negate => "Negate".spec_bytes(),
        OpCode::Print => "Print".spec_bytes(),
        OpCode::Return => "Return".spec_bytes(),
    }
}

/// Whether the operand of an instruction names a constant.
pub open spec fn names_constant(op: OpCode) -> bool {
    op == OpCode::Constant || op == OpCode::GetGlobal || op == OpCode::DefineGlobal || op
        == OpCode::SetGlobal
}

/// A constant as a listing shows it.
pub open spec fn constant_text(constant: ConstantView) -> Seq<u8> {
    match constant {
        ConstantView::Number(text) => text,
        ConstantView::String(bytes) => bytes,
    }
}

/// The line of a listing for an instruction without operand: its name.
pub open spec fn simple_text(name: Seq<u8>) -> Seq<u8> {
    name + seq![10u8]
}

/// The line of a listing for an instruction whose operand is a stack slot:
/// its name in sixteen columns, and the slot in four.
pub open spec fn byte_text(name: Seq<u8>, slot: u8) -> Seq<u8> {
    pad_right(name, 16) + seq![32u8] + pad_left(decimal(slot as nat), 4, 32) + seq![10u8]
}

/// The line of a listing for an instruction whose operand names a constant:
/// its name in sixteen columns, the operand in four, and the constant in
/// quotes.
pub open spec fn constant_line(name: Seq<u8>, index: u8, constant: ConstantView) -> Seq<u8> {
    pad_right(name, 16) + seq![32u8] + pad_left(decimal(index as nat), 4, 32) + " '".spec_bytes()
        + constant_text(constant) + "'".spec_bytes() + seq![10u8]
}

/// What a listing shows of the instruction at `offset`, after the offset and
/// the line.
pub open spec fn instruction_text(chunk: ChunkView, offset: int) -> Seq<u8> {
    match decode(chunk.code[offset]) {
        None => "Unknown opcode ".spec_bytes() + decimal(chunk.code[offset] as nat) + seq![10u8],
        Some(op) => if operand_count(op) == 0 {
            simple_text(op_name(op))
        } else if names_constant(op) {
            constant_line(
                op_name(op),
                chunk.code[offset + 1],
                chunk.constants[chunk.code[offset + 1] as int],
            )
        } else {
            byte_text(op_name(op), chunk.code[offset + 1])
        },
    }
}

/// The column of a listing that holds the source line: a bar where the byte
/// before came from the same line, else the line in four columns.
pub open spec fn line_text(chunk: ChunkView, offset: int) -> Seq<u8> {
    if offset > 0 && chunk.lines[offset] == chunk.lines[offset - 1] {
        "   | ".spec_bytes()
    } else {
        pad_left(decimal(chunk.lines[offset] as nat), 4, 32) + seq![32u8]
    }
}

/// The line of a listing for the instruction at `offset`.
pub open spec fn listing(chunk: ChunkView, offset: int) -> Seq<u8> {
    pad_left(decimal(offset as nat), 4, 48) + seq![32u8] + line_text(chunk, offset)
        + instruction_text(chunk, offset)
}

/// Where the instruction after the one at `offset` begins. A byte that is no
/// instruction is passed over.
pub open spec fn next_offset(chunk: ChunkView, offset: int) -> int {
    match decode(chunk.code[offset]) {
        None => offset + 1,
        Some(op) => offset + 1 + operand_count(op),
    }
}

/// Whether the instruction at `offset` can be listed: it has its line, its
/// operand if it has one, and the constant that the operand names, if it
/// names one.
pub open spec fn listable(chunk: ChunkView, offset: int) -> bool {
    &&& 0 <= offset < chunk.code.len()
    &&& chunk.code.len() <= chunk.lines.len()
    &&& decode(chunk.code[offset]) matches Some(op) ==> {
        &&& offset + operand_count(op) < chunk.code.len()
        &&& names_constant(op) ==> chunk.code[offset + 1] < chunk.constants.len()
    }
}

/// Whether every instruction from `offset` on can be listed.
pub open spec fn all_listable(chunk: ChunkView, offset: int) -> bool
    decreases chunk.code.len() - offset,
{
    offset >= chunk.code.len() || (listable(chunk, offset) && all_listable(
        chunk,
        next_offset(chunk, offset),
    ))
}

/// The lines of a listing for the instructions from `offset` on, as long as
/// each has its operand.
pub open spec fn listing_from(chunk: ChunkView, offset: int) -> Seq<u8>
    decreases chunk.code.len() - offset,
{
    if offset < 0 || offset >= chunk.code.len() {
        Seq::empty()
    } else {
        listing(chunk, offset) + if offset < next_offset(chunk, offset) <= chunk.code.len() {
            listing_from(chunk, next_offset(chunk, offset))
        } else {
            Seq::empty()
        }
    }
}

/// The title of a listing.
pub open spec fn title(name: Seq<u8>) -> Seq<u8> {
    "== ".spec_bytes() + name + " ==".spec_bytes() + seq![10u8]
}

/// Every instruction of code that can be walked can be listed, and so can
/// what follows it if that can be.
pub proof fn lemma_walk_listable(chunk: ChunkView, offset: int, depth: int, end: int)
    requires
        chunk.wf(),
        0 <= offset,
        walk(chunk, offset, depth, end) is Some,
        all_listable(chunk, end),
    ensures
        all_listable(chunk, offset),
    decreases end - offset,
{
    if offset < end {
        let op = decode(chunk.code[offset]).unwrap();
        lemma_walk_listable(
            chunk,
            offset + 1 + operand_count(op),
            depth + crate::chunk::pushes(op) - crate::chunk::pops(op),
            end,
        );
    }
}

/// Every instruction of a runnable chunk can be listed.
pub proof fn lemma_runnable_listable(chunk: ChunkView)
    requires
        runnable(chunk),
    ensures
        all_listable(chunk, 0),
{
    let end = chunk.code.len() - 1;
    lemma_decode_op_byte(OpCode::Return, chunk.code[end]);
    assert(all_listable(chunk, end + 1));
    assert(all_listable(chunk, end));
    lemma_walk_listable(chunk, 0, 0, end);
}

/// Appends `count` times the byte `fill` to `out`.
fn append_filling(out: &mut Vec<u8>, count: usize, fill: u8)
    ensures
        final(out)@ == old(out)@ + filling(count as int, fill),
{
    let mut i: usize = 0;
    while i < count
        invariant
            i <= count,
            out@ == old(out)@ + filling(i as int, fill),
        decreases count - i,
    {
        out.push(fill);
        i += 1;
        assert(out@ =~= old(out)@ + filling(i as int, fill));
    }
}

/// Appends `text` to `out`, with as many `fill` before it as bring it to
/// `width` bytes.
fn append_padded_left(out: &mut Vec<u8>, text: &[u8], width: usize, fill: u8)
    ensures
        final(out)@ == old(out)@ + pad_left(text@, width as int, fill),
{
    if text.len() < width {
        append_filling(out, width - text.len(), fill);
    }
    append_bytes(out, text);
    assert(out@ =~= old(out)@ + pad_left(text@, width as int, fill));
}

/// Appends `text` to `out`, with as many spaces after it as bring it to
/// `width` bytes.
fn append_padded_right(out: &mut Vec<u8>, text: &[u8], width: usize)
    ensures
        final(out)@ == old(out)@ + pad_right(text@, width as int),
{
    append_bytes(out, text);
    if text.len() < width {
        append_filling(out, width - text.len(), 32);
    }
    assert(out@ =~= old(out)@ + pad_right(text@, width as int));
}

/// Appends the decimal numeral of `n` to `out`, in at least `width` bytes.
fn append_number(out: &mut Vec<u8>, n: usize, width: usize, fill: u8)
    ensures
        final(out)@ == old(out)@ + pad_left(decimal(n as nat), width as int, fill),
{
    let mut numeral: Vec<u8> = Vec::new();
    append_decimal(&mut numeral, n);
    assert(numeral@ =~= decimal(n as nat));
    append_padded_left(out, numeral.as_slice(), width, fill);
}

/// The name of the instruction `op`.
fn name_of(op: OpCode) -> (name: &'static str)
    ensures
        name.spec_bytes() == op_name(op),
{
    match op {
        OpCode::Constant => "Constant",
        OpCode::Nil => "Nil",
        OpCode::True => "True",
        OpCode::False => "False",
        OpCode::Pop => "Pop",
        OpCode::GetLocal => "GetLocal",
        OpCode::SetLocal => "SetLocal",
        OpCode::GetGlobal => "GetGlobal",
        OpCode::DefineGlobal => "DefineGlobal",
        OpCode::SetGlobal => "SetGlobal",
        OpCode::Equal => "Equal",
        OpCode::Greater => "Greater",
        OpCode::Less => "Less",
        OpCode::Add => "Add",
        OpCode::Sub => "Sub",
        OpCode::Mul => "Mul",
        OpCode::Div => "Div",
        OpCode::Not => "Not",
        OpCode::Negate => "Negate",
        OpCode::Print => "Print",
        OpCode::Return => "Return",
    }
}

/// Lists an instruction without operand, and returns the offset after it.
fn simple_instruction(name: &str, offset: usize, out: &mut Vec<u8>) -> (next: usize)
    requires
        offset < usize::MAX,
    ensures
        next == offset + 1,
        final(out)@ == old(out)@ + simple_text(name.spec_bytes()),
{
    append_bytes(out, name.as_bytes());
    out.push(10);
    assert(out@ =~= old(out)@ + simple_text(name.spec_bytes()));
    offset + 1
}

/// Lists an instruction whose operand is a stack slot, and returns the
/// offset after it.
fn byte_instruction(name: &str, chunk: &Chunk, offset: usize, out: &mut Vec<u8>) -> (next: usize)
    requires
        offset + 1 < chunk.code.len(),
    ensures
        next == offset + 2,
        final(out)@ == old(out)@ + byte_text(name.spec_bytes(), chunk.code@[offset + 1]),
{
    let slot = chunk.code[offset + 1];
    append_padded_right(out, name.as_bytes(), 16);
    out.push(32);
    append_number(out, slot as usize, 4, 32);
    out.push(10);
    assert(out@ =~= old(out)@ + byte_text(name.spec_bytes(), chunk.code@[offset + 1]));
    offset + 2
}

/// Lists an instruction whose operand names a constant, and returns the
/// offset after it.
fn constant_instruction(name: &str, chunk: &Chunk, offset: usize, out: &mut Vec<u8>) -> (next:
    usize)
    requires
        offset + 1 < chunk.code.len(),
        chunk.code@[offset + 1] < chunk@.constants.len(),
    ensures
        next == offset + 2,
        final(out)@ == old(out)@ + constant_line(
            name.spec_bytes(),
            chunk.code@[offset + 1],
            chunk@.constants[chunk.code@[offset + 1] as int],
        ),
{
    let constant = chunk.code[offset + 1];
    append_padded_right(out, name.as_bytes(), 16);
    out.push(32);
    append_number(out, constant as usize, 4, 32);
    append_bytes(out, " '".as_bytes());
    assert(chunk@.constants[constant as int] == chunk.constants@[constant as int]@);
    match &chunk.constants[constant as usize] {
        Constant::Number(text) => append_bytes(out, text.as_slice()),
        Constant::String(bytes) => append_bytes(out, bytes.as_slice()),
    }
    append_bytes(out, "'".as_bytes());
    out.push(10);
    assert(out@ =~= old(out)@ + constant_line(
        name.spec_bytes(),
        chunk.code@[offset + 1],
        chunk@.constants[chunk.code@[offset + 1] as int],
    ));
    offset + 2
}

/// Appends to `out` the first columns of a line of the listing: the offset
/// and the source line.
fn line_columns(chunk: &Chunk, offset: usize, out: &mut Vec<u8>)
    requires
        offset < chunk.lines.len(),
    ensures
        final(out)@ == old(out)@ + (pad_left(decimal(offset as nat), 4, 48) + seq![32u8]
            + line_text(chunk@, offset as int)),
{
    append_number(out, offset, 4, 48);
    out.push(32);
    if offset > 0 && chunk.lines[offset] == chunk.lines[offset - 1] {
        append_bytes(out, "   | ".as_bytes());
    } else {
        append_number(out, chunk.lines[offset], 4, 32);
        out.push(32);
    }
    assert(out@ =~= old(out)@ + (pad_left(decimal(offset as nat), 4, 48) + seq![32u8] + line_text(
        chunk@,
        offset as int,
    )));
}

/// Appends to `out` what the listing shows of the instruction at `offset`,
/// and returns the offset of the next instruction.
fn instruction_columns(chunk: &Chunk, offset: usize, out: &mut Vec<u8>) -> (next: usize)
    requires
        listable(chunk@, offset as int),
    ensures
        next == next_offset(chunk@, offset as int),
        offset < next <= chunk@.code.len(),
        final(out)@ == old(out)@ + instruction_text(chunk@, offset as int),
{
    assert(offset < chunk.code.len());
    match OpCode::from_byte(chunk.code[offset]) {
        Some(op) => {
            assert(offset + operand_count(op) < chunk.code.len());
            match op {
                OpCode::Constant
                | OpCode::GetGlobal
                | OpCode::DefineGlobal
                | OpCode::SetGlobal => constant_instruction(name_of(op), chunk, offset, out),
                OpCode::GetLocal | OpCode::SetLocal => byte_instruction(
                    name_of(op),
                    chunk,
                    offset,
                    out,
                ),
                _ => simple_instruction(name_of(op), offset, out),
            }
        },
        None => {
            append_bytes(out, "Unknown opcode ".as_bytes());
            append_decimal(out, chunk.code[offset] as usize);
            out.push(10);
            assert(out@ =~= old(out)@ + instruction_text(chunk@, offset as int));
            offset + 1
        },
    }
}

/// Appends to `out` the line of the listing for the instruction at
/// `offset`, and returns the offset of the next instruction.
pub fn disassemble_instruction(chunk: &Chunk, offset: usize, out: &mut Vec<u8>) -> (next: usize)
    requires
        listable(chunk@, offset as int),
    ensures
        next == next_offset(chunk@, offset as int),
        offset < next <= chunk@.code.len(),
        final(out)@ == old(out)@ + listing(chunk@, offset as int),
{
    assert(offset < chunk.lines.len());
    line_columns(chunk, offset, out);
    let next = instruction_columns(chunk, offset, out);
    assert(out@ =~= old(out)@ + listing(chunk@, offset as int));
    next
}

/// Appends to `out` the listing of `chunk` under the title `name`.
pub fn disassemble_chunk(chunk: &Chunk, name: &[u8], out: &mut Vec<u8>)
    requires
        all_listable(chunk@, 0),
    ensures
        final(out)@ == old(out)@ + title(name@) + listing_from(chunk@, 0),
{
    append_bytes(out, "== ".as_bytes());
    append_bytes(out, name);
    append_bytes(out, " ==".as_bytes());
    out.push(10);
    assert(out@ =~= old(out)@ + title(name@));
    let mut offset: usize = 0;
    while offset < chunk.code.len()
        invariant
            all_listable(chunk@, offset as int),
            out@ + listing_from(chunk@, offset as int) == old(out)@ + title(name@) + listing_from(
                chunk@,
                0,
            ),
        decreases chunk.code@.len() - offset,
    {
        let ghost before = out@;
        let ghost here = offset as int;
        offset = disassemble_instruction(chunk, offset, out);
        assert(out@ + listing_from(chunk@, offset as int) =~= before + listing_from(chunk@, here));
    }
    assert(listing_from(chunk@, offset as int) =~= Seq::<u8>::empty());
    assert(out@ =~= out@ + listing_from(chunk@, offset as int));
}

} // verus!
