//! The virtual machine: a stack machine over a chunk.
//!
//! The machine does everything but three things, which it hands to its host
//! as an [`Action`]: writing what `print` prints, converting a number literal,
//! and arithmetic on two numbers. After a `Print` the host calls
//! [`VM::run`] again; after a `Literal` or an `Arith` it calls
//! [`VM::resume`] with the number it worked out. What the machine does is
//! stated by [`step`], one instruction at a time, and by [`run_from`].

use vstd::prelude::*;
use vstd::string::StringSliceAdditionalSpecFns;
use crate::chunk::{
    admits, decode, lemma_walk_deeper, op_byte, operand_at, pops, pushes, runnable, walk, Chunk,
    ChunkView, Constant, ConstantView, OpCode,
};
use crate::compiler::compile;
use crate::globals::Globals;
use crate::model::compilation;
use crate::text::{append_bytes, append_decimal, copy_bytes, decimal};
use crate::value::{falsey, number_lt, number_neg, values_equal, Value, ValueView};

verus! {

/// How an interpretation ended.
#[derive(Clone, Copy, Debug, PartialEq, Eq, Hash, Structural)]
pub enum InterpretResult {
    /// The program ran to its end.
    Success,
    CompileError,
    RuntimeError,
}

/// The arithmetic that the host does for the machine.
#[derive(Clone, Copy, Debug, PartialEq, Eq, Hash, Structural)]
pub enum ArithOp {
    Add,
    Sub,
    Mul,
    Div,
}

/// What the machine is doing.
#[derive(Clone, Copy, Debug, PartialEq, Eq, Hash, Structural)]
pub enum Phase {
    /// No program is running.
    Idle,
    /// A program is running; `run` goes on with it.
    Running,
    /// A program is running and waits for a number from the host; `resume`
    /// goes on with it.
    Awaiting,
}

/// What the machine asks of its host when it stops.
#[derive(Debug)]
pub enum Action {
    /// The run is over.
    Done(InterpretResult),
    /// Write the value and a line feed to the output, then `run`.
    Print(Value),
    /// Convert the number literal to a number, then `resume` with it.
    Literal(Vec<u8>),
    /// Apply the operation to the two numbers, the first on the left, then
    /// `resume` with the result.
    Arith(ArithOp, u64, u64),
}

/// The mathematical value of an [`Action`].
pub enum ActionView {
    Done(InterpretResult),
    Print(ValueView),
    Literal(Seq<u8>),
    Arith(ArithOp, u64, u64),
}

impl View for Action {
    type V = ActionView;

    open spec fn view(&self) -> ActionView {
        match self {
            Action::Done(result) => ActionView::Done(*result),
            Action::Print(value) => ActionView::Print(value@),
            Action::Literal(text) => ActionView::Literal(text@),
            Action::Arith(op, a, b) => ActionView::Arith(*op, *a, *b),
        }
    }
}

/// The machine.
#[derive(Debug)]
pub struct VM {
    /// The program being run.
    pub chunk: Chunk,
    /// The offset in the code of the next instruction.
    pub ip: usize,
    pub stack: Vec<Value>,
    /// The global variables. They outlive a program.
    pub globals: Globals,
    pub phase: Phase,
    /// The lines written to the error output so far: compile diagnostics and
    /// run-time error reports.
    pub errors: Vec<Vec<u8>>,
}

/// The mathematical value of a [`VM`].
pub struct VMView {
    pub chunk: ChunkView,
    pub ip: int,
    pub stack: Seq<ValueView>,
    pub globals: Map<Seq<u8>, ValueView>,
    pub phase: Phase,
    pub errors: Seq<Seq<u8>>,
}

impl View for VM {
    type V = VMView;

    open spec fn view(&self) -> VMView {
        VMView {
            chunk: self.chunk@,
            ip: self.ip as int,
            stack: self.stack@.map_values(|v: Value| v@),
            globals: self.globals@,
            phase: self.phase,
            errors: self.errors@.map_values(|line: Vec<u8>| line@),
        }
    }
}

/// The second line of a run-time error report.
pub open spec fn trace_line(line: usize) -> Seq<u8> {
    "[line ".spec_bytes() + decimal(line as nat) + "] in script".spec_bytes()
}

/// The message for a global variable that is used before it is defined.
pub open spec fn undefined_variable(name: Seq<u8>) -> Seq<u8> {
    "Undefined variable '".spec_bytes() + name + "'.".spec_bytes()
}

impl VMView {
    /// The machine with `value` pushed, about to run the instruction at
    /// `next`.
    pub open spec fn push(self, next: int, value: ValueView) -> VMView {
        VMView { ip: next, stack: self.stack.push(value), ..self }
    }

    /// The machine with its top `count` values replaced by `value`.
    pub open spec fn replace(self, next: int, count: int, value: ValueView) -> VMView {
        VMView {
            ip: next,
            stack: self.stack.take(self.stack.len() - count).push(value),
            ..self
        }
    }

    /// The machine stopped by a run-time error in the instruction that ends
    /// before `next`: the message and the line of that instruction are
    /// reported, and the stack and the globals stay as they are.
    pub open spec fn fault(self, next: int, message: Seq<u8>) -> VMView {
        VMView {
            ip: next,
            phase: Phase::Idle,
            errors: self.errors.push(message).push(trace_line(self.chunk.lines[next - 1])),
            ..self
        }
    }

    /// The machine waiting for a number from the host, the top `count`
    /// values taken off its stack.
    pub open spec fn wait(self, next: int, count: int) -> VMView {
        VMView {
            ip: next,
            stack: self.stack.take(self.stack.len() - count),
            phase: Phase::Awaiting,
            ..self
        }
    }

    /// The number of values that the instruction at `ip` finds: those on the
    /// stack, and the one the host is about to supply.
    pub open spec fn depth(self) -> int {
        self.stack.len() + if self.phase == Phase::Awaiting { 1int } else { 0int }
    }

    /// While a program runs, its chunk holds a line for each byte, ends in
    /// `Return`, and every instruction from `ip` to that `Return` can run.
    pub open spec fn wf(self) -> bool {
        self.phase != Phase::Idle ==> {
            &&& self.chunk.wf()
            &&& self.chunk.code.len() > 0
            &&& self.chunk.code.last() == op_byte(OpCode::Return)
            &&& walk(self.chunk, self.ip, self.depth(), self.chunk.code.len() - 1) is Some
        }
    }
}

/// What a comparison of two numbers gives.
pub open spec fn compare(op: OpCode, left: u64, right: u64) -> bool {
    if op == OpCode::Greater { number_lt(right, left) } else { number_lt(left, right) }
}

/// The arithmetic that an instruction stands for.
pub open spec fn arith_of(op: OpCode) -> ArithOp {
    match op {
        OpCode::Add => ArithOp::Add,
        OpCode::Sub => ArithOp::Sub,
        OpCode::Mul => ArithOp::Mul,
        _ => ArithOp::Div,
    }
}

/// A run-time error report and the end of the program.
pub open spec fn failed(m: VMView, next: int, message: Seq<u8>) -> (VMView, Option<ActionView>) {
    (m.fault(next, message), Some(ActionView::Done(InterpretResult::RuntimeError)))
}

/// `Constant`, with `ip` at its operand: a string is pushed, a number literal
/// is handed to the host.
pub open spec fn load(m: VMView) -> (VMView, Option<ActionView>) {
    match m.chunk.constants[m.chunk.code[m.ip] as int] {
        ConstantView::Number(text) => (m.wait(m.ip + 1, 0), Some(ActionView::Literal(text))),
        ConstantView::String(bytes) => (m.push(m.ip + 1, ValueView::String(bytes)), None),
    }
}

/// `GetLocal` and `SetLocal`, with `ip` at the operand, the slot.
pub open spec fn local(m: VMView, op: OpCode) -> (VMView, Option<ActionView>) {
    let slot = m.chunk.code[m.ip] as int;
    if op == OpCode::GetLocal {
        (m.push(m.ip + 1, m.stack[slot]), None)
    } else {
        (VMView { ip: m.ip + 1, stack: m.stack.update(slot, m.stack.last()), ..m }, None)
    }
}

/// `GetGlobal`, `DefineGlobal` and `SetGlobal`, with `ip` at the operand,
/// which names the constant that holds the variable's name.
pub open spec fn global(m: VMView, op: OpCode) -> (VMView, Option<ActionView>) {
    let name = m.chunk.constants[m.chunk.code[m.ip] as int]->String_0;
    let next = m.ip + 1;
    if op == OpCode::DefineGlobal {
        (
            VMView {
                ip: next,
                stack: m.stack.drop_last(),
                globals: m.globals.insert(name, m.stack.last()),
                ..m
            },
            None,
        )
    } else if !m.globals.contains_key(name) {
        failed(m, next, undefined_variable(name))
    } else if op == OpCode::GetGlobal {
        (m.push(next, m.globals[name]), None)
    } else {
        (VMView { ip: next, globals: m.globals.insert(name, m.stack.last()), ..m }, None)
    }
}

/// The instructions that take two values, with `ip` after the instruction.
pub open spec fn binary(m: VMView, op: OpCode) -> (VMView, Option<ActionView>) {
    let top = m.stack[m.stack.len() - 1];
    let under = m.stack[m.stack.len() - 2];
    if op == OpCode::Equal {
        (m.replace(m.ip, 2, ValueView::Bool(values_equal(under, top))), None)
    } else if op == OpCode::Add && under is String && top is String {
        (m.replace(m.ip, 2, ValueView::String(under->String_0 + top->String_0)), None)
    } else if under is Number && top is Number {
        if op == OpCode::Greater || op == OpCode::Less {
            (
                m.replace(m.ip, 2, ValueView::Bool(compare(op, under->Number_0, top->Number_0))),
                None,
            )
        } else {
            (
                m.wait(m.ip, 2),
                Some(ActionView::Arith(arith_of(op), under->Number_0, top->Number_0)),
            )
        }
    } else if op == OpCode::Add {
        failed(m, m.ip, "Operands must be two numbers or two strings.".spec_bytes())
    } else {
        failed(m, m.ip, "Operands must be numbers.".spec_bytes())
    }
}

/// `Not` and `Negate`, with `ip` after the instruction.
pub open spec fn unary(m: VMView, op: OpCode) -> (VMView, Option<ActionView>) {
    let top = m.stack.last();
    if op == OpCode::Not {
        (m.replace(m.ip, 1, ValueView::Bool(falsey(top))), None)
    } else if top is Number {
        (m.replace(m.ip, 1, ValueView::Number(number_neg(top->Number_0))), None)
    } else {
        failed(m, m.ip, "Operand must be a number.".spec_bytes())
    }
}

/// The instruction `op`, with `ip` after the instruction's own byte.
pub open spec fn perform(m: VMView, op: OpCode) -> (VMView, Option<ActionView>) {
    match op {
        OpCode::Constant => load(m),
        OpCode::Nil => (m.push(m.ip, ValueView::Nil), None),
        OpCode::True => (m.push(m.ip, ValueView::Bool(true)), None),
        OpCode::False => (m.push(m.ip, ValueView::Bool(false)), None),
        OpCode::Pop => (VMView { stack: m.stack.drop_last(), ..m }, None),
        OpCode::GetLocal | OpCode::SetLocal => local(m, op),
        OpCode::GetGlobal | OpCode::DefineGlobal | OpCode::SetGlobal => global(m, op),
        OpCode::Equal
        | OpCode::Greater
        | OpCode::Less
        | OpCode::Add
        | OpCode::Sub
        | OpCode::Mul
        | OpCode::Div => binary(m, op),
        OpCode::Not | OpCode::Negate => unary(m, op),
        OpCode::Print => (
            VMView { stack: m.stack.drop_last(), ..m },
            Some(ActionView::Print(m.stack.last())),
        ),
        OpCode::Return => (
            VMView { phase: Phase::Idle, ..m },
            Some(ActionView::Done(InterpretResult::Success)),
        ),
    }
}

/// One instruction: the machine after it, and what the machine asks of its
/// host, if it stops. A byte that is no instruction is passed over.
pub open spec fn step(m: VMView) -> (VMView, Option<ActionView>) {
    match decode(m.chunk.code[m.ip]) {
        None => (VMView { ip: m.ip + 1, ..m }, None),
        Some(op) => perform(VMView { ip: m.ip + 1, ..m }, op),
    }
}

/// The run from `m` on: instruction after instruction, up to the first that
/// asks something of the host.
pub open spec fn run_from(m: VMView) -> (VMView, ActionView)
    decreases m.chunk.code.len() - m.ip,
{
    let (after, action) = step(m);
    match action {
        Some(action) => (after, action),
        None => if m.ip < after.ip <= m.chunk.code.len() && after.chunk == m.chunk {
            run_from(after)
        } else {
            (after, ActionView::Done(InterpretResult::Success))
        },
    }
}

/// The mathematical value of what a step hands to the host.
pub open spec fn view_of(action: Option<Action>) -> Option<ActionView> {
    match action {
        Some(action) => Some(action@),
        None => None,
    }
}

/// The machine after the host has supplied the number `bits`.
pub open spec fn supplied(m: VMView, bits: u64) -> VMView {
    VMView { stack: m.stack.push(ValueView::Number(bits)), phase: Phase::Running, ..m }
}

/// A step of a running machine leaves it well formed, and moves it on: it
/// stops, or it stands at a later instruction that is still before the end.
pub proof fn lemma_step_wf(m: VMView)
    requires
        m.wf(),
        m.phase == Phase::Running,
    ensures
        step(m).0.wf(),
        step(m).0.chunk == m.chunk,
        step(m).0.ip > m.ip,
        step(m).0.ip <= m.chunk.code.len(),
        step(m).1 is None ==> step(m).0.phase == Phase::Running,
        step(m).1 is Some ==> step(m).0.phase != Phase::Running || step(m).1->Some_0 is Print,
        m.errors.is_prefix_of(step(m).0.errors),
{
    let end = m.chunk.code.len() - 1;
    if m.ip < end {
        let op = decode(m.chunk.code[m.ip]).unwrap();
        assert(admits(m.chunk.constants, op, operand_at(m.chunk.code, m.ip), m.depth()));
    } else {
        crate::chunk::lemma_decode_op_byte(OpCode::Return, m.chunk.code[m.ip]);
    }
}

/// A run of a running machine leaves it well formed, with the same chunk,
/// and no longer running unless it stopped to print.
pub proof fn lemma_run_wf(m: VMView)
    requires
        m.wf(),
        m.phase == Phase::Running,
    ensures
        run_from(m).0.wf(),
        run_from(m).0.chunk == m.chunk,
        run_from(m).0.phase != Phase::Running || run_from(m).1 is Print,
        m.errors.is_prefix_of(run_from(m).0.errors),
    decreases m.chunk.code.len() - m.ip,
{
    lemma_step_wf(m);
    if step(m).1 is None {
        lemma_run_wf(step(m).0);
    }
}

/// The depth that [`walk`] predicts is the depth that the machine reaches.
/// An instruction that does not end the program moves the number of values
/// on the stack, the one that the host owes counted in, by what it pushes
/// less what it pops; so the depth with which the machine arrives at a later
/// offset `end` is the one that a walk from where it stands predicts. Where
/// the code up to `end` is that of a declaration compiled at the top level,
/// that is the depth with which the machine began it.
pub proof fn lemma_step_walk(m: VMView, end: int)
    requires
        m.wf(),
        m.phase == Phase::Running,
        m.ip < end,
        walk(m.chunk, m.ip, m.depth(), end) is Some,
    ensures
        step(m).0.phase != Phase::Idle ==> {
            &&& decode(m.chunk.code[m.ip]) matches Some(op)
            &&& step(m).0.depth() == m.depth() + pushes(op) - pops(op)
            &&& walk(m.chunk, step(m).0.ip, step(m).0.depth(), end) == walk(
                m.chunk,
                m.ip,
                m.depth(),
                end,
            )
        },
{
    let op = decode(m.chunk.code[m.ip]).unwrap();
    assert(admits(m.chunk.constants, op, operand_at(m.chunk.code, m.ip), m.depth()));
}

/// `Not` after `Not` leaves the truthiness of the value: in place of a value
/// `v` on top of the stack stands `true` if `v` is truthy and `false` if it
/// is falsey.
pub proof fn lemma_not_twice(m: VMView)
    requires
        m.stack.len() >= 1,
    ensures
        unary(m, OpCode::Not).1 is None,
        unary(unary(m, OpCode::Not).0, OpCode::Not) == (
            m.replace(m.ip, 1, ValueView::Bool(!falsey(m.stack.last()))),
            None::<ActionView>,
        ),
{
    let once = unary(m, OpCode::Not).0;
    let twice = unary(once, OpCode::Not).0;
    assert(twice.stack =~= m.stack.take(m.stack.len() - 1).push(
        ValueView::Bool(!falsey(m.stack.last())),
    ));
}

/// `Equal` and then `Not`, which is what `!=` is compiled to, leave the
/// negation of what `Equal` alone leaves, for every two values.
pub proof fn lemma_not_equal(m: VMView)
    requires
        m.stack.len() >= 2,
    ensures
        ({
            let a = m.stack[m.stack.len() - 2];
            let b = m.stack[m.stack.len() - 1];
            &&& binary(m, OpCode::Equal) == (
                m.replace(m.ip, 2, ValueView::Bool(values_equal(a, b))),
                None::<ActionView>,
            )
            &&& unary(binary(m, OpCode::Equal).0, OpCode::Not) == (
                m.replace(m.ip, 2, ValueView::Bool(!values_equal(a, b))),
                None::<ActionView>,
            )
        }),
{
    let a = m.stack[m.stack.len() - 2];
    let b = m.stack[m.stack.len() - 1];
    let equal = binary(m, OpCode::Equal).0;
    let negated = unary(equal, OpCode::Not).0;
    assert(negated.stack =~= m.stack.take(m.stack.len() - 2).push(
        ValueView::Bool(!values_equal(a, b)),
    ));
}

/// The machine about to run `chunk` from its first instruction.
pub open spec fn loaded(m: VMView, chunk: ChunkView) -> VMView {
    VMView { chunk, ip: 0, phase: Phase::Running, ..m }
}

impl VM {
    /// The globals hold no name twice, and the machine's value is well
    /// formed.
    pub open spec fn wf(&self) -> bool {
        &&& self.globals.wf()
        &&& self@.wf()
    }

    /// A machine with no program, an empty stack and no globals.
    pub fn new() -> (vm: VM)
        ensures
            vm.wf(),
            vm@ == (VMView {
                chunk: empty_chunk(),
                ip: 0,
                stack: Seq::empty(),
                globals: Map::empty(),
                phase: Phase::Idle,
                errors: Seq::empty(),
            }),
    {
        let vm = VM {
            chunk: Chunk::new(),
            ip: 0,
            stack: Vec::new(),
            globals: Globals::new(),
            phase: Phase::Idle,
            errors: Vec::new(),
        };
        assert(vm@.stack =~= Seq::empty());
        assert(vm@.errors =~= Seq::empty());
        assert(vm@.chunk.code =~= Seq::empty());
        assert(vm@.chunk.constants =~= Seq::empty());
        assert(vm@.chunk.lines =~= Seq::empty());
        vm
    }

    fn push(&mut self, value: Value)
        ensures
            final(self)@ == (VMView { stack: old(self)@.stack.push(value@), ..old(self)@ }),
            final(self).globals == old(self).globals,
    {
        self.stack.push(value);
        assert(self@.stack =~= old(self)@.stack.push(value@));
    }

    fn pop(&mut self) -> (value: Value)
        requires
            old(self)@.stack.len() > 0,
        ensures
            final(self)@ == (VMView { stack: old(self)@.stack.drop_last(), ..old(self)@ }),
            value@ == old(self)@.stack.last(),
            final(self).globals == old(self).globals,
    {
        let value = self.stack.pop().unwrap();
        assert(self@.stack =~= old(self)@.stack.drop_last());
        value
    }

    /// The value `distance` places below the top of the stack.
    fn peek(&self, distance: usize) -> (value: &Value)
        requires
            distance < self@.stack.len(),
        ensures
            value@ == self@.stack[self@.stack.len() - 1 - distance],
    {
        &self.stack[self.stack.len() - 1 - distance]
    }

    fn read_byte(&mut self) -> (byte: u8)
        requires
            old(self).ip < old(self).chunk.code.len(),
        ensures
            final(self)@ == (VMView { ip: old(self).ip + 1, ..old(self)@ }),
            byte == old(self)@.chunk.code[old(self).ip as int],
            final(self).globals == old(self).globals,
    {
        let byte = self.chunk.code[self.ip];
        assert(self.ip < self.chunk.code.len());
        self.ip += 1;
        byte
    }

    /// Reads the operand at `ip` and returns the constant it names.
    fn read_constant(&mut self) -> (constant: Constant)
        requires
            old(self).ip < old(self).chunk.code.len(),
            old(self)@.chunk.code[old(self).ip as int] < old(self)@.chunk.constants.len(),
        ensures
            final(self)@ == (VMView { ip: old(self).ip + 1, ..old(self)@ }),
            constant@ == old(self)@.chunk.constants[old(self)@.chunk.code[old(
                self,
            ).ip as int] as int],
            final(self).globals == old(self).globals,
    {
        let offset = self.read_byte() as usize;
        self.chunk.constants[offset].clone()
    }

    /// Replaces the two strings on top of the stack by the string that
    /// holds the lower one's bytes and then the upper one's.
    fn concatenate(&mut self)
        requires
            old(self)@.stack.len() >= 2,
            old(self)@.stack[old(self)@.stack.len() - 1] is String,
            old(self)@.stack[old(self)@.stack.len() - 2] is String,
        ensures
            final(self)@ == old(self)@.replace(
                old(self)@.ip,
                2,
                ValueView::String(
                    old(self)@.stack[old(self)@.stack.len() - 2]->String_0 + old(
                        self,
                    )@.stack[old(self)@.stack.len() - 1]->String_0,
                ),
            ),
            final(self).globals == old(self).globals,
    {
        let b = self.pop().into_obj().into_string();
        let a = self.pop().into_obj().into_string();
        let mut result = a;
        append_bytes(&mut result, b.as_slice());
        self.push(Value::Obj(Box::new(crate::value::Obj::String(result))));
        assert(self@.stack =~= old(self)@.stack.take(old(self)@.stack.len() - 2).push(
            ValueView::String(result@),
        ));
    }

    /// Reports a run-time error in the instruction just read, and stops the
    /// program.
    fn runtime_error(&mut self, message: &[u8]) -> (action: Action)
        requires
            0 < old(self).ip <= old(self)@.chunk.lines.len(),
        ensures
            final(self)@ == old(self)@.fault(old(self)@.ip, message@),
            action@ == ActionView::Done(InterpretResult::RuntimeError),
            final(self).globals == old(self).globals,
    {
        self.errors.push(copy_bytes(message));
        let line = self.chunk.lines[self.ip - 1];
        let mut trace = copy_bytes("[line ".as_bytes());
        append_decimal(&mut trace, line);
        append_bytes(&mut trace, "] in script".as_bytes());
        self.errors.push(trace);
        self.phase = Phase::Idle;
        assert(self@.errors =~= old(self)@.errors.push(message@).push(trace_line(line)));
        Action::Done(InterpretResult::RuntimeError)
    }

    /// Reports that the global variable `name` is not defined.
    fn undefined(&mut self, name: &[u8]) -> (action: Action)
        requires
            0 < old(self).ip <= old(self)@.chunk.lines.len(),
        ensures
            final(self)@ == old(self)@.fault(old(self)@.ip, undefined_variable(name@)),
            action@ == ActionView::Done(InterpretResult::RuntimeError),
            final(self).globals == old(self).globals,
    {
        let mut message = copy_bytes("Undefined variable '".as_bytes());
        append_bytes(&mut message, name);
        append_bytes(&mut message, "'.".as_bytes());
        self.runtime_error(message.as_slice())
    }

    /// `Constant`: pushes a string, or hands a number literal to the host.
    fn constant(&mut self) -> (action: Option<Action>)
        requires
            old(self).ip < old(self).chunk.code.len(),
            old(self)@.chunk.code[old(self).ip as int] < old(self)@.chunk.constants.len(),
        ensures
            final(self)@ == load(old(self)@).0,
            view_of(action) == load(old(self)@).1,
            final(self).globals == old(self).globals,
    {
        let ghost m = self@;
        match self.read_constant() {
            Constant::Number(text) => {
                self.phase = Phase::Awaiting;
                assert(self@.stack =~= m.stack.take(m.stack.len() - 0));
                Some(Action::Literal(text))
            },
            Constant::String(bytes) => {
                self.push(Value::Obj(Box::new(crate::value::Obj::String(bytes))));
                None
            },
        }
    }

    /// `GetLocal` and `SetLocal`.
    fn local(&mut self, op: OpCode) -> (action: Option<Action>)
        requires
            op == OpCode::GetLocal || op == OpCode::SetLocal,
            old(self).ip < old(self).chunk.code.len(),
            old(self)@.chunk.code[old(self).ip as int] < old(self)@.stack.len(),
        ensures
            final(self)@ == local(old(self)@, op).0,
            view_of(action) == local(old(self)@, op).1,
            final(self).globals == old(self).globals,
    {
        let ghost m = self@;
        let slot = self.read_byte() as usize;
        match op {
            OpCode::GetLocal => {
                let value = self.stack[slot].clone();
                self.push(value);
            },
            _ => {
                let value = self.peek(0).clone();
                self.stack.set(slot, value);
                assert(self@.stack =~= m.stack.update(slot as int, m.stack.last()));
            },
        }
        None
    }

    /// `GetGlobal`, `DefineGlobal` and `SetGlobal`.
    fn global(&mut self, op: OpCode) -> (action: Option<Action>)
        requires
            op == OpCode::GetGlobal || op == OpCode::DefineGlobal || op == OpCode::SetGlobal,
            old(self).globals.wf(),
            old(self).ip < old(self).chunk.code.len(),
            old(self).ip < old(self)@.chunk.lines.len(),
            old(self)@.chunk.code[old(self).ip as int] < old(self)@.chunk.constants.len(),
            old(self)@.chunk.constants[old(self)@.chunk.code[old(self).ip as int] as int] is String,
            op != OpCode::GetGlobal ==> old(self)@.stack.len() > 0,
        ensures
            final(self)@ == global(old(self)@, op).0,
            view_of(action) == global(old(self)@, op).1,
            final(self).globals.wf(),
    {
        let name = match self.read_constant() {
            Constant::String(name) => name,
            Constant::Number(text) => text,
        };
        match op {
            OpCode::DefineGlobal => {
                let value = self.pop();
                self.globals.define(name.as_slice(), value);
                None
            },
            OpCode::GetGlobal => match self.globals.get(name.as_slice()) {
                Some(value) => {
                    self.push(value);
                    None
                },
                None => Some(self.undefined(name.as_slice())),
            },
            _ => {
                let value = self.peek(0).clone();
                if self.globals.assign(name.as_slice(), value) {
                    None
                } else {
                    Some(self.undefined(name.as_slice()))
                }
            },
        }
    }

    /// The instructions that take two values.
    fn binary(&mut self, op: OpCode) -> (action: Option<Action>)
        requires
            pops(op) == 2,
            old(self)@.stack.len() >= 2,
            0 < old(self).ip <= old(self)@.chunk.lines.len(),
        ensures
            final(self)@ == binary(old(self)@, op).0,
            view_of(action) == binary(old(self)@, op).1,
            final(self).globals == old(self).globals,
    {
        let ghost m = self@;
        match op {
            OpCode::Equal => {
                let b = self.pop();
                let a = self.pop();
                self.push(Value::Bool(a.equals(&b)));
                assert(self@.stack =~= m.stack.take(m.stack.len() - 2).push(
                    ValueView::Bool(values_equal(a@, b@)),
                ));
                return None;
            },
            OpCode::Add => {
                if self.peek(0).is_string() && self.peek(1).is_string() {
                    self.concatenate();
                    return None;
                }
            },
            _ => {},
        }
        if !self.peek(0).is_number() || !self.peek(1).is_number() {
            let message = match op {
                OpCode::Add => "Operands must be two numbers or two strings.",
                _ => "Operands must be numbers.",
            };
            return Some(self.runtime_error(message.as_bytes()));
        }
        let b = self.pop();
        let a = self.pop();
        assert(self@.stack =~= m.stack.take(m.stack.len() - 2));
        match op {
            OpCode::Greater => {
                self.push(Value::Bool(a.greater(&b)));
                None
            },
            OpCode::Less => {
                self.push(Value::Bool(a.less(&b)));
                None
            },
            _ => {
                self.phase = Phase::Awaiting;
                let arith = match op {
                    OpCode::Add => ArithOp::Add,
                    OpCode::Sub => ArithOp::Sub,
                    OpCode::Mul => ArithOp::Mul,
                    _ => ArithOp::Div,
                };
                Some(Action::Arith(arith, a.as_number(), b.as_number()))
            },
        }
    }

    /// `Not` and `Negate`.
    fn unary(&mut self, op: OpCode) -> (action: Option<Action>)
        requires
            op == OpCode::Not || op == OpCode::Negate,
            old(self)@.stack.len() >= 1,
            0 < old(self).ip <= old(self)@.chunk.lines.len(),
        ensures
            final(self)@ == unary(old(self)@, op).0,
            view_of(action) == unary(old(self)@, op).1,
            final(self).globals == old(self).globals,
    {
        let ghost m = self@;
        match op {
            OpCode::Not => {
                let value = self.pop();
                self.push(Value::Bool(value.is_falsey()));
                assert(self@.stack =~= m.stack.take(m.stack.len() - 1).push(
                    ValueView::Bool(falsey(value@)),
                ));
                None
            },
            _ => {
                if self.peek(0).is_number() {
                    let value = self.pop();
                    let negated = value.neg();
                    self.push(negated);
                    assert(self@.stack =~= m.stack.take(m.stack.len() - 1).push(negated@));
                    None
                } else {
                    Some(self.runtime_error("Operand must be a number.".as_bytes()))
                }
            },
        }
    }

    /// Runs one instruction. The result is what the machine asks of its host,
    /// or `None` where it can go on by itself.
    pub fn step(&mut self) -> (action: Option<Action>)
        requires
            old(self).wf(),
            old(self)@.phase == Phase::Running,
        ensures
            final(self).wf(),
            final(self)@ == step(old(self)@).0,
            view_of(action) == step(old(self)@).1,
    {
        proof {
            lemma_step_wf(self@);
        }
        let ghost m = self@;
        let ghost end = m.chunk.code.len() - 1;
        assert(m.ip < end ==> admits(
            m.chunk.constants,
            decode(m.chunk.code[m.ip]).unwrap(),
            operand_at(m.chunk.code, m.ip),
            m.depth(),
        ));
        let byte = self.read_byte();
        let op = match OpCode::from_byte(byte) {
            Some(op) => op,
            None => {
                return None;
            },
        };
        match op {
            OpCode::Constant => self.constant(),
            OpCode::Nil => {
                self.push(Value::Nil);
                None
            },
            OpCode::True => {
                self.push(Value::Bool(true));
                None
            },
            OpCode::False => {
                self.push(Value::Bool(false));
                None
            },
            OpCode::Pop => {
                self.pop();
                None
            },
            OpCode::GetLocal | OpCode::SetLocal => self.local(op),
            OpCode::GetGlobal | OpCode::DefineGlobal | OpCode::SetGlobal => self.global(op),
            OpCode::Equal
            | OpCode::Greater
            | OpCode::Less
            | OpCode::Add
            | OpCode::Sub
            | OpCode::Mul
            | OpCode::Div => self.binary(op),
            OpCode::Not | OpCode::Negate => self.unary(op),
            OpCode::Print => {
                let value = self.pop();
                Some(Action::Print(value))
            },
            OpCode::Return => {
                self.phase = Phase::Idle;
                Some(Action::Done(InterpretResult::Success))
            },
        }
    }

    /// Runs the program until it asks something of the host.
    pub fn run(&mut self) -> (action: Action)
        requires
            old(self).wf(),
            old(self)@.phase == Phase::Running,
        ensures
            final(self).wf(),
            (final(self)@, action@) == run_from(old(self)@),
    {
        loop
            invariant
                self.wf(),
                self@.phase == Phase::Running,
                run_from(self@) == run_from(old(self)@),
            decreases self@.chunk.code.len() - self@.ip,
        {
            proof {
                lemma_step_wf(self@);
            }
            match self.step() {
                Some(action) => {
                    return action;
                },
                None => {},
            }
        }
    }

    /// Takes the number that the host worked out and runs on.
    pub fn resume(&mut self, number: u64) -> (action: Action)
        requires
            old(self).wf(),
            old(self)@.phase == Phase::Awaiting,
        ensures
            final(self).wf(),
            (final(self)@, action@) == run_from(supplied(old(self)@, number)),
    {
        self.phase = Phase::Running;
        self.push(Value::Number(number));
        self.run()
    }

    /// Makes `chunk` the program and sets the machine to run it from its
    /// first instruction. The stack and the globals stay as they are.
    pub fn load(&mut self, chunk: Chunk)
        requires
            old(self).globals.wf(),
            runnable(chunk@),
        ensures
            final(self).wf(),
            final(self)@ == loaded(old(self)@, chunk@),
    {
        self.chunk = chunk;
        self.ip = 0;
        self.phase = Phase::Running;
        proof {
            let end = self.chunk.code@.len() - 1;
            lemma_walk_deeper(self@.chunk, 0, 0, end, self@.stack.len() as int);
        }
    }

    /// Compiles `source` and, if it is free of errors, runs it until it asks
    /// something of the host. A source with errors is not run: the
    /// diagnostics are added to `errors`, the result is `CompileError`, and
    /// nothing else changes. The globals outlive the program, and so does
    /// what an earlier program left on the stack.
    pub fn interpret(&mut self, source: &[u8]) -> (action: Action)
        requires
            old(self).wf(),
            source@.len() <= isize::MAX,
        ensures
            final(self).wf(),
            (final(self)@, action@) == interpreted(old(self)@, source@),
            old(self)@.errors.is_prefix_of(final(self)@.errors),
            action@ != ActionView::Done(InterpretResult::CompileError) ==> runnable(
                final(self)@.chunk,
            ),
    {
        let mut chunk = Chunk::new();
        assert(chunk@ == empty_chunk()) by {
            assert(chunk@.code =~= Seq::empty());
            assert(chunk@.constants =~= Seq::empty());
            assert(chunk@.lines =~= Seq::empty());
        }
        if !compile(source, &mut chunk, &mut self.errors) {
            return Action::Done(InterpretResult::CompileError);
        }
        assert(self@.errors =~= old(self)@.errors);
        self.load(chunk);
        proof {
            lemma_run_wf(self@);
        }
        self.run()
    }
}

/// A chunk that holds nothing.
pub open spec fn empty_chunk() -> ChunkView {
    ChunkView { code: Seq::empty(), constants: Seq::empty(), lines: Seq::empty() }
}

/// What interpreting `source` on the machine `m` gives: the machine after,
/// and what it asks of its host. The source is compiled into an empty
/// chunk. If it has errors, the diagnostics are added to the machine's
/// errors and nothing is run; otherwise the chunk is loaded and run.
pub open spec fn interpreted(m: VMView, source: Seq<u8>) -> (VMView, ActionView) {
    let (chunk, errors, ok) = compilation(source, empty_chunk(), m.errors);
    if ok {
        run_from(loaded(m, chunk))
    } else {
        (VMView { errors, ..m }, ActionView::Done(InterpretResult::CompileError))
    }
}

} // verus!
