//! What the machine does, as mathematics: a program, a state, and the state
//! that follows a state. The executable machine is held to this model.

use crate::bytecode::{entry_label, entry_name, values_equal, LabelView, OpView, ValueView};
use crate::number::number_lt;
use vstd::prelude::*;

verus! {

/// Largest number of calls that may be under way at once, the call of the
/// entry function included.
pub const MAX_CALL_DEPTH: usize = 1024;

/// Whether instruction `at` of `program` is the label `label`.
pub open spec fn defines(program: Seq<OpView>, label: LabelView, at: int) -> bool {
    0 <= at < program.len() && program[at] == OpView::Label(label)
}

/// Whether `program` holds the label `label`.
pub open spec fn is_defined(program: Seq<OpView>, label: LabelView) -> bool {
    exists|at: int| defines(program, label, at)
}

/// Where `label` stands in `program`, if the program holds it.
pub open spec fn label_offset(program: Seq<OpView>, label: LabelView) -> int {
    choose|at: int| defines(program, label, at)
}

/// Whether instruction `at` is a label that an earlier instruction is too.
pub open spec fn repeats(program: Seq<OpView>, at: int) -> bool {
    &&& 0 <= at < program.len()
    &&& program[at] is Label
    &&& exists|before: int| 0 <= before < at && program[before] == program[at]
}

/// Whether no label stands at two places of `program`.
pub open spec fn labels_unique(program: Seq<OpView>) -> bool {
    forall|at: int| !repeats(program, at)
}

/// The label that a jump goes to.
pub open spec fn jump_target(op: OpView) -> Option<LabelView> {
    match op {
        OpView::Jump(label) => Some(label),
        OpView::JumpTrue(label) => Some(label),
        OpView::JumpFalse(label) => Some(label),
        _ => None,
    }
}

/// Whether instruction `at` is a jump to a label that `program` lacks.
pub open spec fn dangles(program: Seq<OpView>, at: int) -> bool {
    &&& 0 <= at < program.len()
    &&& jump_target(program[at]) is Some
    &&& !is_defined(program, jump_target(program[at])->0)
}

/// Whether every jump of `program` goes to a label that it holds.
pub open spec fn jumps_resolve(program: Seq<OpView>) -> bool {
    forall|at: int| !dangles(program, at)
}

/// The label at which execution starts.
pub open spec fn start_label() -> LabelView {
    entry_label(entry_name())
}

/// What the machine asks of a program before it runs it: each label stands
/// at one place, and each jump has its label.
pub open spec fn well_linked(program: Seq<OpView>) -> bool {
    &&& labels_unique(program)
    &&& jumps_resolve(program)
}

/// Where execution starts: at the entry label of `main`, and at the first
/// instruction of a program that has none.
pub open spec fn start_offset(program: Seq<OpView>) -> int {
    if is_defined(program, start_label()) {
        label_offset(program, start_label())
    } else {
        0
    }
}

/// The place of the first `End` from `from` on, and the place behind the
/// program if there is none.
pub open spec fn first_end(program: Seq<OpView>, from: int) -> int
    decreases program.len() - from,
{
    if from < 0 || from >= program.len() {
        program.len() as int
    } else if program[from] == OpView::End {
        from
    } else {
        first_end(program, from + 1)
    }
}

/// In a program whose labels are unique, a label stands where it is found.
pub proof fn lemma_label_offset(program: Seq<OpView>, label: LabelView, at: int)
    requires
        labels_unique(program),
        defines(program, label, at),
    ensures
        label_offset(program, label) == at,
{
    let found = label_offset(program, label);
    assert(defines(program, label, found));
    if found < at {
        assert(repeats(program, at));
    } else if at < found {
        assert(repeats(program, found));
    }
}

/// The state of the machine.
pub struct MachineState {
    /// The place of the instruction that runs next.
    pub pc: nat,
    /// The operand stack, its top last.
    pub values: Seq<ValueView>,
    /// The return addresses of the calls under way, the innermost last.
    pub calls: Seq<nat>,
    /// The local variables of the calls under way, the innermost last.
    pub frames: Seq<Map<nat, ValueView>>,
}

/// Why an instruction could not run.
#[derive(Debug, Clone, Copy, PartialEq, Eq, Structural)]
pub enum Fault {
    /// The instruction needs more operands than the stack holds.
    ValueStackUnderflow,
    /// `Return` without a call under way.
    CallStackUnderflow,
    /// A local variable is used, or a call left, without a frame.
    FrameStackUnderflow,
    /// An operand is not of the type that the instruction works on.
    TypeMismatch,
    /// A local variable is read that was never written.
    UnboundLocal,
    /// The function that is called does not exist.
    UnknownFunction,
    /// The instruction is one that the machine does not implement.
    UnsupportedOperation,
    /// More calls would be under way than `MAX_CALL_DEPTH`.
    StackOverflow,
    /// The host hands in the result of an arithmetic instruction where none
    /// waits for it.
    NothingPending,
    /// The machine stands behind the last instruction: it ran off the end
    /// of the program without meeting `End`.
    EndOfProgram,
}

/// The arithmetic that the machine leaves to its host.
#[derive(Debug, Clone, Copy, PartialEq, Eq, Structural)]
pub enum ArithmeticOp {
    Add,
    Sub,
    Mul,
    Div,
}

/// What follows a state.
pub enum Transition {
    /// The instruction ran; this is the state after it.
    Continue(MachineState),
    /// `Print` ran: the state after it, and the value to write.
    Output(MachineState, ValueView),
    /// The instruction is arithmetic on two numbers, left and right: the
    /// machine waits until the host hands in the result.
    Arithmetic(ArithmeticOp, u64, u64),
    /// The instruction is `End`.
    Halt,
    /// The instruction cannot run.
    Fault(Fault),
}

/// The two numbers on top of `values`, the one below the top first; or the
/// fault of an instruction that needs them. The top is looked at first.
pub open spec fn operands(values: Seq<ValueView>) -> Result<(u64, u64), Fault> {
    if values.len() == 0 {
        Err(Fault::ValueStackUnderflow)
    } else {
        match values.last() {
            ValueView::Number(right) => if values.len() == 1 {
                Err(Fault::ValueStackUnderflow)
            } else {
                match values[values.len() - 2] {
                    ValueView::Number(left) => Ok((left, right)),
                    _ => Err(Fault::TypeMismatch),
                }
            },
            _ => Err(Fault::TypeMismatch),
        }
    }
}

/// The place of the topmost sentinel of `values`, if it holds one.
pub open spec fn last_sentinel(values: Seq<ValueView>) -> Option<int>
    decreases values.len(),
{
    if values.len() == 0 {
        None
    } else if values.last() is Return {
        Some(values.len() - 1)
    } else {
        last_sentinel(values.drop_last())
    }
}

/// The frame of a call with the arguments `args`: argument `i` in slot `i`.
pub open spec fn frame_of(args: Seq<ValueView>) -> Map<nat, ValueView> {
    Map::new(|slot: nat| slot < args.len(), |slot: nat| args[slot as int])
}

/// `s` at the next instruction.
pub open spec fn advance(s: MachineState) -> MachineState {
    MachineState { pc: s.pc + 1, ..s }
}

/// `s` at the next instruction, with `value` pushed.
pub open spec fn push_next(s: MachineState, value: ValueView) -> MachineState {
    MachineState { pc: s.pc + 1, values: s.values.push(value), ..s }
}

/// `s` at the next instruction, with its two top operands replaced by
/// `value`.
pub open spec fn replace_two(s: MachineState, value: ValueView) -> MachineState {
    MachineState { pc: s.pc + 1, values: s.values.take(s.values.len() - 2).push(value), ..s }
}

/// `s` with its top operand taken off, at `pc`.
pub open spec fn pop_to(s: MachineState, pc: nat) -> MachineState {
    MachineState { pc, values: s.values.drop_last(), ..s }
}

/// What a conditional jump to `target` does in `s`: it takes a boolean off
/// the stack and jumps if that is `polarity`.
pub open spec fn branch(s: MachineState, target: nat, polarity: bool) -> Transition {
    if s.values.len() == 0 {
        Transition::Fault(Fault::ValueStackUnderflow)
    } else {
        match s.values.last() {
            ValueView::Boolean(b) => Transition::Continue(
                pop_to(
                    s,
                    if b == polarity {
                        target
                    } else {
                        s.pc + 1
                    },
                ),
            ),
            _ => Transition::Fault(Fault::TypeMismatch),
        }
    }
}

/// What a call of `name` with `arity` arguments does in `s`: the arguments
/// leave the operand stack for the slots of a new frame, the sentinel takes
/// their place, and execution goes on at the entry of `name`, to come back
/// behind the call.
pub open spec fn call(program: Seq<OpView>, s: MachineState, name: Seq<char>, arity: nat) -> Transition {
    if s.values.len() < arity {
        Transition::Fault(Fault::ValueStackUnderflow)
    } else if !is_defined(program, entry_label(name)) {
        Transition::Fault(Fault::UnknownFunction)
    } else if s.calls.len() >= MAX_CALL_DEPTH {
        Transition::Fault(Fault::StackOverflow)
    } else {
        let kept = s.values.len() - arity;
        Transition::Continue(
            MachineState {
                pc: label_offset(program, entry_label(name)) as nat,
                values: s.values.take(kept).push(ValueView::Return),
                calls: s.calls.push(s.pc + 1),
                frames: s.frames.push(frame_of(s.values.skip(kept))),
            },
        )
    }
}

/// What `Return` does in `s`: the top operand is the result; what lies
/// between it and the topmost sentinel goes, and so does that sentinel; the
/// result takes their place. The innermost frame goes, and execution goes on
/// at the innermost return address.
pub open spec fn ret(s: MachineState) -> Transition {
    if s.calls.len() == 0 {
        Transition::Fault(Fault::CallStackUnderflow)
    } else if s.frames.len() == 0 {
        Transition::Fault(Fault::FrameStackUnderflow)
    } else if s.values.len() == 0 {
        Transition::Fault(Fault::ValueStackUnderflow)
    } else {
        match last_sentinel(s.values.drop_last()) {
            None => Transition::Fault(Fault::ValueStackUnderflow),
            Some(at) => Transition::Continue(
                MachineState {
                    pc: s.calls.last(),
                    values: s.values.take(at).push(s.values.last()),
                    calls: s.calls.drop_last(),
                    frames: s.frames.drop_last(),
                },
            ),
        }
    }
}

/// What `LocalGet` of `slot` does in `s`: it pushes what the innermost
/// frame holds in the slot.
pub open spec fn local_get(s: MachineState, slot: nat) -> Transition {
    if s.frames.len() == 0 {
        Transition::Fault(Fault::FrameStackUnderflow)
    } else if !s.frames.last().contains_key(slot) {
        Transition::Fault(Fault::UnboundLocal)
    } else {
        Transition::Continue(push_next(s, s.frames.last()[slot]))
    }
}

/// What `LocalSet` of `slot` does in `s`: it takes the top operand off and
/// writes it into the slot of the innermost frame.
pub open spec fn local_set(s: MachineState, slot: nat) -> Transition {
    if s.values.len() == 0 {
        Transition::Fault(Fault::ValueStackUnderflow)
    } else if s.frames.len() == 0 {
        Transition::Fault(Fault::FrameStackUnderflow)
    } else {
        Transition::Continue(
            MachineState {
                pc: s.pc + 1,
                values: s.values.drop_last(),
                calls: s.calls,
                frames: s.frames.drop_last().push(s.frames.last().insert(slot, s.values.last())),
            },
        )
    }
}

/// What a comparison of two numbers does in `s`: `left < right` takes the
/// place of the two, or `left > right` where `greater` is set.
pub open spec fn compare(s: MachineState, greater: bool) -> Transition {
    match operands(s.values) {
        Err(fault) => Transition::Fault(fault),
        Ok((left, right)) => Transition::Continue(
            replace_two(
                s,
                ValueView::Boolean(
                    if greater {
                        number_lt(right, left)
                    } else {
                        number_lt(left, right)
                    },
                ),
            ),
        ),
    }
}

/// What `Equal` does in `s`, and `NotEq` where `negate` is set: whether the
/// two top operands are equal takes their place. Operands of any kind are
/// accepted.
pub open spec fn equality(s: MachineState, negate: bool) -> Transition {
    if s.values.len() < 2 {
        Transition::Fault(Fault::ValueStackUnderflow)
    } else {
        Transition::Continue(
            replace_two(
                s,
                ValueView::Boolean(
                    values_equal(s.values[s.values.len() - 2], s.values.last()) != negate,
                ),
            ),
        )
    }
}

/// What `Print` does in `s`: it takes the top operand off, for the host to
/// write.
pub open spec fn print(s: MachineState) -> Transition {
    if s.values.len() == 0 {
        Transition::Fault(Fault::ValueStackUnderflow)
    } else {
        Transition::Output(pop_to(s, s.pc + 1), s.values.last())
    }
}

/// What follows `s` in `program`.
pub open spec fn step(program: Seq<OpView>, s: MachineState) -> Transition {
    if s.pc >= program.len() {
        Transition::Fault(Fault::EndOfProgram)
    } else {
        run_op(program, s)
    }
}

/// What the instruction at which `s` stands does.
pub open spec fn run_op(program: Seq<OpView>, s: MachineState) -> Transition
    recommends
        s.pc < program.len(),
{
    match program[s.pc as int] {
        OpView::Const(value) => Transition::Continue(push_next(s, value)),
        OpView::LocalGet(slot) => local_get(s, slot),
        OpView::LocalSet(slot) => local_set(s, slot),
        OpView::Add => arithmetic(s, ArithmeticOp::Add),
        OpView::Sub => arithmetic(s, ArithmeticOp::Sub),
        OpView::Mul => arithmetic(s, ArithmeticOp::Mul),
        OpView::Div => arithmetic(s, ArithmeticOp::Div),
        OpView::LowerT => compare(s, false),
        OpView::GreaterT => compare(s, true),
        OpView::Equal => equality(s, false),
        OpView::NotEq => equality(s, true),
        OpView::ListAt => Transition::Fault(Fault::UnsupportedOperation),
        OpView::Call(name, arity) => call(program, s, name, arity),
        OpView::Return => ret(s),
        OpView::Print => print(s),
        OpView::Jump(label) => Transition::Continue(
            MachineState { pc: label_offset(program, label) as nat, ..s },
        ),
        OpView::JumpTrue(label) => branch(s, label_offset(program, label) as nat, true),
        OpView::JumpFalse(label) => branch(s, label_offset(program, label) as nat, false),
        OpView::Label(_) => Transition::Continue(advance(s)),
        OpView::End => Transition::Halt,
    }
}

/// What an arithmetic instruction does in `s`: with two numbers on top of
/// the stack it waits for the host, and the state stays as it is.
pub open spec fn arithmetic(s: MachineState, op: ArithmeticOp) -> Transition {
    match operands(s.values) {
        Err(fault) => Transition::Fault(fault),
        Ok((left, right)) => Transition::Arithmetic(op, left, right),
    }
}

/// The arithmetic that `op` asks of the host, if it is an arithmetic
/// instruction.
pub open spec fn arithmetic_op(op: OpView) -> Option<ArithmeticOp> {
    match op {
        OpView::Add => Some(ArithmeticOp::Add),
        OpView::Sub => Some(ArithmeticOp::Sub),
        OpView::Mul => Some(ArithmeticOp::Mul),
        OpView::Div => Some(ArithmeticOp::Div),
        _ => None,
    }
}

/// The state that follows `s` once the host has handed in `result` for the
/// arithmetic instruction that waits in `s`: the result takes the place of
/// the two operands. Where no arithmetic instruction waits, or its operands
/// are not two numbers, nothing follows.
pub open spec fn supply(program: Seq<OpView>, s: MachineState, result: u64) -> Result<
    MachineState,
    Fault,
>
{
    if s.pc >= program.len() || arithmetic_op(program[s.pc as int]) is None {
        Err(Fault::NothingPending)
    } else {
        match operands(s.values) {
            Err(fault) => Err(fault),
            Ok(_) => Ok(replace_two(s, ValueView::Number(result))),
        }
    }
}

/// How a run of the machine ends.
pub enum Pause {
    /// The machine reached `End`.
    Halt,
    /// `Print` ran: the host writes the value.
    Output(ValueView),
    /// An arithmetic instruction waits for the host.
    Arithmetic(ArithmeticOp, u64, u64),
    /// The machine ran as many instructions as it was allowed.
    OutOfFuel,
    /// An instruction could not run.
    Fault(Fault),
}

/// The state in which a run from `s` of at most `fuel` instructions ends, and
/// how: the machine runs until an instruction needs the host, cannot run, or
/// is `End`.
pub open spec fn run(program: Seq<OpView>, s: MachineState, fuel: nat) -> (MachineState, Pause)
    decreases fuel,
{
    if fuel == 0 {
        (s, Pause::OutOfFuel)
    } else {
        match step(program, s) {
            Transition::Continue(next) => run(program, next, (fuel - 1) as nat),
            Transition::Output(next, value) => (next, Pause::Output(value)),
            Transition::Arithmetic(op, left, right) => (s, Pause::Arithmetic(op, left, right)),
            Transition::Halt => (s, Pause::Halt),
            Transition::Fault(fault) => (s, Pause::Fault(fault)),
        }
    }
}

/// The state in which a program starts: at its start, in a call of the
/// entry function that comes back to the `End` that closes that function.
pub open spec fn initial_state(program: Seq<OpView>) -> MachineState {
    MachineState {
        pc: start_offset(program) as nat,
        values: seq![ValueView::Return],
        calls: seq![first_end(program, start_offset(program)) as nat],
        frames: seq![Map::empty()],
    }
}

/// The result of a program that has halted in `s`: what the entry function
/// returned, if it did return.
pub open spec fn result_of(s: MachineState) -> Option<ValueView> {
    if s.calls.len() == 0 && s.values.len() > 0 {
        Some(s.values.last())
    } else {
        None
    }
}

/// `s` once its result is taken.
pub open spec fn without_result(s: MachineState) -> MachineState {
    if result_of(s) is Some {
        MachineState { values: s.values.drop_last(), ..s }
    } else {
        s
    }
}

} // verus!
