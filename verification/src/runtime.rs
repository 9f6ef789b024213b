//! The machine: links the code of the functions into one program and runs it.
//!
//! The machine leaves two things to its host: writing what `Print` prints,
//! and the arithmetic on numbers. It stops where one of them is due and goes
//! on when it is called again.

use crate::bytecode::{
    entry_label, functions_view, ops_view, values_view, ByteCodeFunction, ByteCodeOp,
    ByteCodeValue, FunctionView, Label, LabelView, OpView, ValueView,
};
use crate::machine::{
    arithmetic, branch, compare, dangles, defines, equality, frame_of,
    initial_state, is_defined, jump_target, jumps_resolve, label_offset, labels_unique,
    last_sentinel, lemma_label_offset, local_get, local_set, operands, print, push_next,
    repeats, result_of, ret, run, step, supply, well_linked, without_result, first_end,
    ArithmeticOp, Fault, MachineState, Pause, Transition, MAX_CALL_DEPTH,
};
use crate::number::number_less;
use std::collections::HashMap;
use vstd::prelude::*;

verus! {

/// Mathematical model of a [`LinkError`].
pub enum LinkErrorView {
    DuplicateLabel(LabelView),
    UnresolvedLabel(LabelView),
}

/// Why a program could not be linked.
#[derive(Debug, PartialEq)]
pub enum LinkError {
    /// The label stands at two places.
    DuplicateLabel(Label),
    /// A jump goes to the label, and the program does not hold it.
    UnresolvedLabel(Label),
}

impl View for LinkError {
    type V = LinkErrorView;

    open spec fn view(&self) -> LinkErrorView {
        match self {
            LinkError::DuplicateLabel(label) => LinkErrorView::DuplicateLabel(label@),
            LinkError::UnresolvedLabel(label) => LinkErrorView::UnresolvedLabel(label@),
        }
    }
}

/// The instructions that `ops` holds, in order.
pub open spec fn program_view(ops: Seq<ByteCodeOp>) -> Seq<OpView> {
    Seq::new(ops.len(), |i: int| ops[i]@)
}

/// The instructions of `functions`, one function after the other.
pub open spec fn flatten(functions: Seq<FunctionView>) -> Seq<OpView>
    decreases functions.len(),
{
    if functions.len() == 0 {
        Seq::empty()
    } else {
        flatten(functions.drop_last()) + functions.last().ops
    }
}

/// The instructions of several functions are as many as those of each of
/// them together.
pub open spec fn total_len(functions: Seq<FunctionView>) -> nat
    decreases functions.len(),
{
    if functions.len() == 0 {
        0
    } else {
        total_len(functions.drop_last()) + functions.last().ops.len()
    }
}

/// The program is as long as its functions together.
pub proof fn lemma_flatten_len(functions: Seq<FunctionView>)
    ensures
        flatten(functions).len() == total_len(functions),
    decreases functions.len(),
{
    if functions.len() > 0 {
        lemma_flatten_len(functions.drop_last());
    }
}

/// Lays the functions out in one program.
fn flatten_functions(function_list: &Vec<ByteCodeFunction>) -> (operations: Vec<ByteCodeOp>)
    ensures
        program_view(operations@) == flatten(functions_view(function_list@)),
{
    let mut operations: Vec<ByteCodeOp> = Vec::new();
    let ghost functions = functions_view(function_list@);
    assert(program_view(operations@) =~= flatten(functions.take(0)));
    let mut i: usize = 0;
    while i < function_list.len()
        invariant
            i <= function_list.len(),
            functions == functions_view(function_list@),
            program_view(operations@) == flatten(functions.take(i as int)),
        decreases function_list.len() - i,
    {
        let function = &function_list[i];
        let ghost before = program_view(operations@);
        let mut j: usize = 0;
        assert(before + ops_view(function.ops@).take(0) =~= before);
        while j < function.ops.len()
            invariant
                j <= function.ops.len(),
                program_view(operations@) == before + ops_view(function.ops@).take(j as int),
            decreases function.ops.len() - j,
        {
            let ghost so_far = program_view(operations@);
            operations.push(function.ops[j].bytecode_op.clone());
            assert(program_view(operations@) =~= so_far.push(function.ops@[j as int].bytecode_op@));
            assert(program_view(operations@) =~= before + ops_view(function.ops@).take(j + 1));
            j += 1;
        }
        proof {
            assert(ops_view(function.ops@).take(function.ops.len() as int) =~= ops_view(
                function.ops@,
            ));
            assert(functions.take(i + 1).drop_last() =~= functions.take(i as int));
            assert(functions.take(i + 1).last() == function@);
        }
        i += 1;
    }
    assert(functions.take(function_list.len() as int) =~= functions);
    operations
}

/// Looks for `label` among the first `limit` instructions.
fn find_label(operations: &Vec<ByteCodeOp>, limit: usize, label: &Label) -> (r: Option<usize>)
    requires
        limit <= operations.len(),
    ensures
        match r {
            Some(at) => at < limit && defines(program_view(operations@), label@, at as int),
            None => forall|at: int|
                0 <= at < limit ==> !defines(program_view(operations@), label@, at),
        },
{
    let mut i: usize = 0;
    while i < limit
        invariant
            i <= limit <= operations.len(),
            forall|at: int| 0 <= at < i ==> !defines(program_view(operations@), label@, at),
        decreases limit - i,
    {
        match &operations[i] {
            ByteCodeOp::Label(found) => {
                if found.same(label) {
                    return Some(i);
                }
            },
            _ => {},
        }
        i += 1;
    }
    None
}

/// Whether instruction `at` is the first of `program` that repeats a label.
pub open spec fn first_repeat(program: Seq<OpView>, at: int) -> bool {
    repeats(program, at) && forall|before: int| 0 <= before < at ==> !repeats(program, before)
}

/// Whether instruction `at` is the first jump of `program` without its label.
pub open spec fn first_dangling(program: Seq<OpView>, at: int) -> bool {
    dangles(program, at) && forall|before: int| 0 <= before < at ==> !dangles(program, before)
}

/// Whether `target` is where instruction `at` of `program` goes to, if it is
/// one that goes anywhere.
pub open spec fn target_ok(program: Seq<OpView>, at: int, target: Option<usize>) -> bool {
    match program[at] {
        OpView::Jump(label) => target == Some(label_offset(program, label) as usize),
        OpView::JumpTrue(label) => target == Some(label_offset(program, label) as usize),
        OpView::JumpFalse(label) => target == Some(label_offset(program, label) as usize),
        OpView::Call(name, _) => if is_defined(program, entry_label(name)) {
            target == Some(label_offset(program, entry_label(name)) as usize)
        } else {
            target is None
        },
        _ => true,
    }
}

/// The local variables of a frame.
pub open spec fn frame_view(frame: Map<usize, ByteCodeValue>) -> Map<nat, ValueView> {
    Map::new(
        |slot: nat| slot <= usize::MAX && frame.contains_key(slot as usize),
        |slot: nat| frame[slot as usize]@,
    )
}

/// The local variables of each frame of `frames`, in order.
pub open spec fn frames_view(frames: Seq<HashMap<usize, ByteCodeValue>>) -> Seq<
    Map<nat, ValueView>,
> {
    Seq::new(frames.len(), |i: int| frame_view(frames[i]@))
}

/// The return addresses of `calls`, in order.
pub open spec fn calls_view(calls: Seq<usize>) -> Seq<nat> {
    Seq::new(calls.len(), |i: int| calls[i] as nat)
}

/// The machine, with a linked program in it.
pub struct Runtime {
    operations: Vec<ByteCodeOp>,
    targets: Vec<Option<usize>>,
    pc: usize,
    call_stack: Vec<usize>,
    value_stack: Vec<ByteCodeValue>,
    ftxc_stack: Vec<HashMap<usize, ByteCodeValue>>,
}

impl View for Runtime {
    type V = MachineState;

    /// The state of the machine.
    closed spec fn view(&self) -> MachineState {
        MachineState {
            pc: self.pc as nat,
            values: values_view(self.value_stack@),
            calls: calls_view(self.call_stack@),
            frames: frames_view(self.ftxc_stack@),
        }
    }
}

impl Runtime {
    /// The program in the machine.
    pub closed spec fn program(&self) -> Seq<OpView> {
        program_view(self.operations@)
    }

    /// What holds of the program in the machine: it is well linked, and the
    /// machine knows where each jump and each call goes.
    closed spec fn code_ok(&self) -> bool {
        &&& well_linked(program_view(self.operations@))
        &&& self.targets.len() == self.operations.len()
        &&& forall|at: int|
            0 <= at < self.operations.len() ==> target_ok(
                program_view(self.operations@),
                at,
                #[trigger] self.targets@[at],
            )
    }

    /// What holds of every machine: its program is well linked, it stands
    /// at one of its instructions or behind the last, so does every return
    /// address, and no more calls are under way than `MAX_CALL_DEPTH`.
    pub closed spec fn wf(&self) -> bool {
        &&& self.code_ok()
        &&& self.pc <= self.operations.len()
        &&& self.call_stack.len() <= MAX_CALL_DEPTH
        &&& forall|i: int|
            0 <= i < self.call_stack.len() ==> #[trigger] self.call_stack@[i]
                <= self.operations.len()
    }

    /// Whether `self` holds the program and the calls of `other`.
    closed spec fn same_code(&self, other: &Runtime) -> bool {
        &&& self.operations == other.operations
        &&& self.targets == other.targets
    }

    /// Links `function_list` into one program, the instructions of one
    /// function after those of the other, and puts the machine at its start:
    /// at the entry label of `main` (at the first instruction, if there is
    /// no such label), in a call of `main` that returns to the first `End`
    /// from there on.
    ///
    /// Nothing runs before the whole program is checked. There is a machine
    /// exactly if the program is well linked; if not, the error is the first
    /// that holds of: a label repeated (the first instruction that repeats
    /// one), a jump without its label (the first such jump).
    pub fn new(function_list: Vec<ByteCodeFunction>) -> (r: Result<Runtime, LinkError>)
        ensures
            ({
                let program = flatten(functions_view(function_list@));
                match r {
                    Ok(runtime) => {
                        &&& runtime.wf()
                        &&& well_linked(program)
                        &&& runtime.program() == program
                        &&& runtime.program().len() == total_len(functions_view(function_list@))
                        &&& runtime@ == initial_state(program)
                    },
                    Err(LinkError::DuplicateLabel(label)) => {
                        &&& !labels_unique(program)
                        &&& exists|at: int|
                            first_repeat(program, at) && program[at] == OpView::Label(label@)
                    },
                    Err(LinkError::UnresolvedLabel(label)) => {
                        &&& labels_unique(program)
                        &&& !jumps_resolve(program)
                        &&& exists|at: int|
                            first_dangling(program, at) && jump_target(program[at]) == Some(
                                label@,
                            )
                    },
                }
            }),
    {
        let operations = flatten_functions(&function_list);
        let ghost program = program_view(operations@);
        let n: usize = operations.len();
        // Each label stands at one place.
        let mut j: usize = 0;
        while j < n
            invariant
                j <= n == operations.len(),
                program == program_view(operations@),
                program == flatten(functions_view(function_list@)),
                forall|at: int| 0 <= at < j ==> !repeats(program, at),
            decreases n - j,
        {
            match &operations[j] {
                ByteCodeOp::Label(label) => {
                    match find_label(&operations, j, label) {
                        Some(before) => {
                            assert(repeats(program, j as int));
                            assert(first_repeat(program, j as int));
                            return Err(LinkError::DuplicateLabel(label.clone()));
                        },
                        None => {
                            assert forall|before: int| 0 <= before < j implies program[before]
                                != program[j as int] by {
                                assert(!defines(program, label@, before));
                            }
                        },
                    }
                },
                _ => {},
            }
            j += 1;
        }
        assert(labels_unique(program));
        // Each jump has its label.
        let mut targets: Vec<Option<usize>> = Vec::new();
        let mut i: usize = 0;
        while i < n
            invariant
                i <= n == operations.len(),
                program == program_view(operations@),
                program == flatten(functions_view(function_list@)),
                labels_unique(program),
                targets.len() == i,
                forall|at: int| 0 <= at < i ==> !dangles(program, at),
                forall|at: int| 0 <= at < i ==> target_ok(program, at, #[trigger] targets@[at]),
            decreases n - i,
        {
            let target: Option<usize> = match &operations[i] {
                ByteCodeOp::Jump(label) => resolve(&operations, label),
                ByteCodeOp::JumpTrue(label) => resolve(&operations, label),
                ByteCodeOp::JumpFalse(label) => resolve(&operations, label),
                ByteCodeOp::Call(name, _) => {
                    let entry = Label::entry(name.as_str());
                    resolve(&operations, &entry)
                },
                _ => None,
            };
            match &operations[i] {
                ByteCodeOp::Jump(label) | ByteCodeOp::JumpTrue(label) | ByteCodeOp::JumpFalse(
                    label,
                ) => {
                    if target.is_none() {
                        assert(dangles(program, i as int));
                        assert(first_dangling(program, i as int));
                        return Err(LinkError::UnresolvedLabel(label.clone()));
                    }
                },
                _ => {},
            }
            targets.push(target);
            i += 1;
        }
        assert(jumps_resolve(program));
        // The place to start, and the place to which `main` returns.
        let start = Label::entry("main");
        let pc: usize = match resolve(&operations, &start) {
            None => 0,
            Some(at) => at,
        };
        let back: usize = find_end(&operations, pc);
        let mut call_stack: Vec<usize> = Vec::new();
        call_stack.push(back);
        let mut value_stack: Vec<ByteCodeValue> = Vec::new();
        value_stack.push(ByteCodeValue::Return);
        let mut ftxc_stack: Vec<HashMap<usize, ByteCodeValue>> = Vec::new();
        ftxc_stack.push(HashMap::new());
        let runtime = Runtime { operations, targets, pc, call_stack, value_stack, ftxc_stack };
        proof {
            lemma_flatten_len(functions_view(function_list@));
            assert(runtime@.values =~= seq![ValueView::Return]);
            assert(runtime@.calls =~= seq![back as nat]);
            assert(frame_view(Map::empty()) =~= Map::empty());
            assert(runtime@.frames =~= seq![Map::empty()]);
        }
        Ok(runtime)
    }

    /// Where `label` stands in the program, if the program holds it.
    pub fn label_offset(&self, label: &Label) -> (r: Option<usize>)
        requires
            self.wf(),
        ensures
            match r {
                Some(at) => {
                    &&& is_defined(self.program(), label@)
                    &&& at == label_offset(self.program(), label@)
                    &&& self.program()[at as int] == OpView::Label(label@)
                },
                None => !is_defined(self.program(), label@),
            },
    {
        let r = resolve(&self.operations, label);
        proof {
            if r is Some {
                let at = label_offset(self.program(), label@);
                assert(defines(self.program(), label@, at));
            }
        }
        r
    }
}

/// The place of the first `End` from `from` on, and the place behind the
/// program if there is none.
fn find_end(operations: &Vec<ByteCodeOp>, from: usize) -> (r: usize)
    requires
        from <= operations.len(),
    ensures
        r == first_end(program_view(operations@), from as int),
        from <= r <= operations.len(),
{
    let mut at: usize = from;
    while at < operations.len()
        invariant
            from <= at <= operations.len(),
            first_end(program_view(operations@), from as int) == first_end(
                program_view(operations@),
                at as int,
            ),
        decreases operations.len() - at,
    {
        match &operations[at] {
            ByteCodeOp::End => {
                return at;
            },
            _ => {},
        }
        at += 1;
    }
    at
}

/// Where `label` stands in the program, if it holds it.
fn resolve(operations: &Vec<ByteCodeOp>, label: &Label) -> (r: Option<usize>)
    requires
        labels_unique(program_view(operations@)),
    ensures
        match r {
            Some(at) => {
                &&& is_defined(program_view(operations@), label@)
                &&& at == label_offset(program_view(operations@), label@)
                &&& at < operations.len()
            },
            None => !is_defined(program_view(operations@), label@),
        },
{
    let r = find_label(operations, operations.len(), label);
    proof {
        match r {
            Some(at) => {
                lemma_label_offset(program_view(operations@), label@, at as int);
            },
            None => {},
        }
    }
    r
}

/// Pushes `value`.
fn push(values: &mut Vec<ByteCodeValue>, value: ByteCodeValue)
    ensures
        values_view(final(values)@) == values_view(old(values)@).push(value@),
{
    values.push(value);
    assert(values_view(values@) =~= values_view(old(values)@).push(value@));
}

/// Takes the top value off.
fn pop(values: &mut Vec<ByteCodeValue>) -> (value: ByteCodeValue)
    requires
        old(values).len() > 0,
    ensures
        final(values).len() == old(values).len() - 1,
        values_view(final(values)@) == values_view(old(values)@).drop_last(),
        value@ == values_view(old(values)@).last(),
{
    let value = values.pop().unwrap();
    assert(values_view(values@) =~= values_view(old(values)@).drop_last());
    value
}

/// Takes the two top values off and pushes `value`.
fn replace_top_two(values: &mut Vec<ByteCodeValue>, value: ByteCodeValue)
    requires
        old(values).len() >= 2,
    ensures
        values_view(final(values)@) == values_view(old(values)@).take(old(values).len() - 2).push(
            value@,
        ),
{
    values.pop();
    values.pop();
    values.push(value);
    assert(values_view(values@) =~= values_view(old(values)@).take(old(values).len() - 2).push(
        value@,
    ));
}

/// The two numbers on top of the stack, the one below the top first.
fn number_operands(values: &Vec<ByteCodeValue>) -> (r: Result<(u64, u64), Fault>)
    ensures
        r == operands(values_view(values@)),
{
    let n: usize = values.len();
    if n == 0 {
        return Err(Fault::ValueStackUnderflow);
    }
    match &values[n - 1] {
        ByteCodeValue::Number(right) => {
            if n == 1 {
                return Err(Fault::ValueStackUnderflow);
            }
            match &values[n - 2] {
                ByteCodeValue::Number(left) => Ok((*left, *right)),
                _ => Err(Fault::TypeMismatch),
            }
        },
        _ => Err(Fault::TypeMismatch),
    }
}

/// The value in slot `slot` of the innermost frame.
fn read_local(frames: &Vec<HashMap<usize, ByteCodeValue>>, slot: usize) -> (r: Option<ByteCodeValue>)
    requires
        frames.len() > 0,
    ensures
        match r {
            Some(value) => {
                &&& frames_view(frames@).last().contains_key(slot as nat)
                &&& value@ == frames_view(frames@).last()[slot as nat]
            },
            None => !frames_view(frames@).last().contains_key(slot as nat),
        },
{
    broadcast use vstd::std_specs::hash::group_hash_axioms;

    match frames[frames.len() - 1].get(&slot) {
        Some(value) => Some(value.clone()),
        None => None,
    }
}

/// Writes `value` into slot `slot` of the innermost frame.
fn write_local(frames: &mut Vec<HashMap<usize, ByteCodeValue>>, slot: usize, value: ByteCodeValue)
    requires
        old(frames).len() > 0,
    ensures
        frames_view(final(frames)@) == frames_view(old(frames)@).drop_last().push(
            frames_view(old(frames)@).last().insert(slot as nat, value@),
        ),
{
    broadcast use vstd::std_specs::hash::group_hash_axioms;

    let mut frame = frames.pop().unwrap();
    let ghost before = frame@;
    frame.insert(slot, value);
    assert(frame_view(frame@) =~= frame_view(before).insert(slot as nat, value@));
    frames.push(frame);
    assert(frames_view(frames@) =~= frames_view(old(frames)@).drop_last().push(
        frames_view(old(frames)@).last().insert(slot as nat, value@),
    ));
}

/// Takes the `arity` top values off and puts them in the slots of a new
/// frame, the lowest of them in slot 0.
fn take_arguments(values: &mut Vec<ByteCodeValue>, arity: usize) -> (frame: HashMap<
    usize,
    ByteCodeValue,
>)
    requires
        old(values).len() >= arity,
    ensures
        values_view(final(values)@) == values_view(old(values)@).take(old(values).len() - arity),
        frame_view(frame@) == frame_of(values_view(old(values)@).skip(old(values).len() - arity)),
{
    broadcast use vstd::std_specs::hash::group_hash_axioms;

    let mut frame: HashMap<usize, ByteCodeValue> = HashMap::new();
    let ghost all = values_view(values@);
    let ghost kept = values.len() - arity;
    let mut i: usize = arity;
    assert(all.take(kept + arity) =~= all);
    while i > 0
        invariant
            i <= arity,
            0 <= kept,
            kept + arity == all.len(),
            values.len() == kept + i,
            values_view(values@) == all.take(kept + i),
            forall|slot: usize| frame@.contains_key(slot) <==> i <= slot < arity,
            forall|slot: usize| i <= slot < arity ==> (#[trigger] frame@[slot])@ == all[kept + slot],
        decreases i,
    {
        i -= 1;
        let value = pop(values);
        assert(all.take(kept + i + 1).drop_last() =~= all.take(kept + i));
        assert(value@ == all[kept + i]);
        frame.insert(i, value);
    }
    assert(frame_view(frame@) =~= frame_of(all.skip(kept)));
    frame
}

/// The place of the topmost sentinel among the first `limit` values.
fn find_sentinel(values: &Vec<ByteCodeValue>, limit: usize) -> (r: Option<usize>)
    requires
        limit <= values.len(),
    ensures
        match r {
            Some(at) => last_sentinel(values_view(values@).take(limit as int)) == Some(at as int)
                && at < limit,
            None => last_sentinel(values_view(values@).take(limit as int)) is None,
        },
{
    let ghost all = values_view(values@);
    let mut i: usize = limit;
    while i > 0
        invariant
            i <= limit <= values.len(),
            all == values_view(values@),
            last_sentinel(all.take(limit as int)) == last_sentinel(all.take(i as int)),
        decreases i,
    {
        assert(all.take(i as int).drop_last() =~= all.take(i - 1));
        if values[i - 1].is_sentinel() {
            return Some(i - 1);
        }
        i -= 1;
    }
    None
}

/// What `step` reports: what the instruction that ran asks of the host.
#[derive(Debug, PartialEq)]
pub enum Step {
    /// The instruction ran, and nothing is asked.
    Continue,
    /// `Print` ran: the host is to write the value.
    Output(ByteCodeValue),
    /// An arithmetic instruction waits: the host is to compute `lhs op rhs`
    /// and hand the result to [`Runtime::resume`].
    Arithmetic { op: ArithmeticOp, lhs: u64, rhs: u64 },
    /// The machine has reached `End`.
    Halt,
}

/// Why the machine could not go on, where it stood, and the instruction
/// that stands there: none where the machine stood behind the program.
#[derive(Debug, PartialEq)]
pub struct RuntimeError {
    pub kind: Fault,
    pub pc: usize,
    pub op: Option<ByteCodeOp>,
}

/// The instruction at place `pc` of `program`, if there is one.
pub open spec fn instruction_at(program: Seq<OpView>, pc: nat) -> Option<OpView> {
    if pc < program.len() {
        Some(program[pc as int])
    } else {
        None
    }
}

/// The model of an instruction that may be absent.
pub open spec fn option_op_view(op: Option<ByteCodeOp>) -> Option<OpView> {
    match op {
        Some(op) => Some(op@),
        None => None,
    }
}

/// Whether `error` tells of the fault `fault` of the instruction at which
/// `program` stands in `s`.
pub open spec fn tells_of(
    error: RuntimeError,
    program: Seq<OpView>,
    s: MachineState,
    fault: Fault,
) -> bool {
    &&& error.kind == fault
    &&& error.pc == s.pc
    &&& option_op_view(error.op) == instruction_at(program, s.pc)
}

/// Whether `r` and `after` are what the machine hands back and is left in
/// when `transition` is what follows `before`.
pub open spec fn reported(
    program: Seq<OpView>,
    before: MachineState,
    transition: Transition,
    r: Result<Step, RuntimeError>,
    after: MachineState,
) -> bool {
    match transition {
        Transition::Continue(next) => r matches Ok(Step::Continue) && after == next,
        Transition::Output(next, value) => {
            &&& r matches Ok(Step::Output(written))
            &&& written@ == value
            &&& after == next
        },
        Transition::Arithmetic(op, left, right) => {
            &&& r == Ok::<Step, RuntimeError>(Step::Arithmetic { op, lhs: left, rhs: right })
            &&& after == before
        },
        Transition::Halt => r matches Ok(Step::Halt) && after == before,
        Transition::Fault(fault) => {
            &&& r matches Err(error)
            &&& tells_of(error, program, before, fault)
            &&& after == before
        },
    }
}

/// Whether `r` and `after` are what a step from `before` hands back and
/// leaves behind.
pub open spec fn step_done(
    program: Seq<OpView>,
    before: MachineState,
    r: Result<Step, RuntimeError>,
    after: MachineState,
) -> bool {
    reported(program, before, step(program, before), r, after)
}

impl Runtime {
    /// The error of the instruction at which the machine stands.
    fn fault(&self, kind: Fault) -> (error: RuntimeError)
        ensures
            tells_of(error, self.program(), self@, kind),
    {
        let op = if self.pc < self.operations.len() {
            Some(self.operations[self.pc].clone())
        } else {
            None
        };
        RuntimeError { kind, pc: self.pc, op }
    }

    /// Whether the machine stands at an instruction.
    closed spec fn has_next(&self) -> bool {
        self.wf() && self.pc < self.operations.len()
    }

    fn run_const(&mut self, value: ByteCodeValue) -> (r: Result<Step, RuntimeError>)
        requires
            old(self).has_next(),
        ensures
            final(self).wf(),
            final(self).same_code(old(self)),
            r matches Ok(Step::Continue),
            final(self)@ == push_next(old(self)@, value@),
    {
        push(&mut self.value_stack, value);
        self.pc = self.pc + 1;
        Ok(Step::Continue)
    }

    fn run_local_get(&mut self, slot: usize) -> (r: Result<Step, RuntimeError>)
        requires
            old(self).has_next(),
        ensures
            final(self).wf(),
            final(self).same_code(old(self)),
            reported(old(self).program(), old(self)@, local_get(old(self)@, slot as nat), r, final(self)@),
    {
        if self.ftxc_stack.len() == 0 {
            return Err(self.fault(Fault::FrameStackUnderflow));
        }
        match read_local(&self.ftxc_stack, slot) {
            None => Err(self.fault(Fault::UnboundLocal)),
            Some(value) => {
                push(&mut self.value_stack, value);
                self.pc = self.pc + 1;
                Ok(Step::Continue)
            },
        }
    }

    fn run_local_set(&mut self, slot: usize) -> (r: Result<Step, RuntimeError>)
        requires
            old(self).has_next(),
        ensures
            final(self).wf(),
            final(self).same_code(old(self)),
            reported(old(self).program(), old(self)@, local_set(old(self)@, slot as nat), r, final(self)@),
    {
        if self.value_stack.len() == 0 {
            return Err(self.fault(Fault::ValueStackUnderflow));
        }
        if self.ftxc_stack.len() == 0 {
            return Err(self.fault(Fault::FrameStackUnderflow));
        }
        let value = pop(&mut self.value_stack);
        write_local(&mut self.ftxc_stack, slot, value);
        self.pc = self.pc + 1;
        Ok(Step::Continue)
    }

    /// Looks at the operands of the arithmetic instruction at which the
    /// machine stands.
    fn run_arithmetic(&self, op: ArithmeticOp) -> (r: Result<Step, RuntimeError>)
        requires
            self.wf(),
        ensures
            reported(self.program(), self@, arithmetic(self@, op), r, self@),
    {
        match number_operands(&self.value_stack) {
            Err(kind) => Err(self.fault(kind)),
            Ok((left, right)) => Ok(Step::Arithmetic { op, lhs: left, rhs: right }),
        }
    }

    fn run_compare(&mut self, greater: bool) -> (r: Result<Step, RuntimeError>)
        requires
            old(self).has_next(),
        ensures
            final(self).wf(),
            final(self).same_code(old(self)),
            reported(old(self).program(), old(self)@, compare(old(self)@, greater), r, final(self)@),
    {
        match number_operands(&self.value_stack) {
            Err(kind) => Err(self.fault(kind)),
            Ok((left, right)) => {
                let holds: bool = if greater {
                    number_less(right, left)
                } else {
                    number_less(left, right)
                };
                replace_top_two(&mut self.value_stack, ByteCodeValue::Boolean(holds));
                self.pc = self.pc + 1;
                Ok(Step::Continue)
            },
        }
    }

    fn run_equality(&mut self, negate: bool) -> (r: Result<Step, RuntimeError>)
        requires
            old(self).has_next(),
        ensures
            final(self).wf(),
            final(self).same_code(old(self)),
            reported(old(self).program(), old(self)@, equality(old(self)@, negate), r, final(self)@),
    {
        let n: usize = self.value_stack.len();
        if n < 2 {
            return Err(self.fault(Fault::ValueStackUnderflow));
        }
        let equal: bool = self.value_stack[n - 2].equals(&self.value_stack[n - 1]);
        replace_top_two(&mut self.value_stack, ByteCodeValue::Boolean(equal != negate));
        self.pc = self.pc + 1;
        Ok(Step::Continue)
    }

    fn run_print(&mut self) -> (r: Result<Step, RuntimeError>)
        requires
            old(self).has_next(),
        ensures
            final(self).wf(),
            final(self).same_code(old(self)),
            reported(old(self).program(), old(self)@, print(old(self)@), r, final(self)@),
    {
        if self.value_stack.len() == 0 {
            return Err(self.fault(Fault::ValueStackUnderflow));
        }
        let value = pop(&mut self.value_stack);
        self.pc = self.pc + 1;
        Ok(Step::Output(value))
    }

    /// Runs a conditional jump to `target`.
    fn run_branch(&mut self, target: usize, polarity: bool) -> (r: Result<Step, RuntimeError>)
        requires
            old(self).has_next(),
            target < old(self).operations.len(),
        ensures
            final(self).wf(),
            final(self).same_code(old(self)),
            reported(
                old(self).program(),
                old(self)@,
                branch(old(self)@, target as nat, polarity),
                r,
                final(self)@,
            ),
    {
        let n: usize = self.value_stack.len();
        if n == 0 {
            return Err(self.fault(Fault::ValueStackUnderflow));
        }
        let jump: bool = match &self.value_stack[n - 1] {
            ByteCodeValue::Boolean(b) => *b == polarity,
            _ => {
                return Err(self.fault(Fault::TypeMismatch));
            },
        };
        pop(&mut self.value_stack);
        if jump {
            self.pc = target;
        } else {
            self.pc = self.pc + 1;
        }
        Ok(Step::Continue)
    }

    /// Runs a call with `arity` arguments that goes to `target`, if the
    /// function exists.
    fn run_call(&mut self, arity: usize, target: Option<usize>) -> (r: Result<Step, RuntimeError>)
        requires
            old(self).has_next(),
            old(self).program()[old(self).pc as int] matches OpView::Call(name, n) && n == arity
                && target_ok(old(self).program(), old(self).pc as int, target),
            target matches Some(t) ==> t < old(self).operations.len(),
        ensures
            final(self).wf(),
            final(self).same_code(old(self)),
            reported(
                old(self).program(),
                old(self)@,
                step(old(self).program(), old(self)@),
                r,
                final(self)@,
            ),
    {
        let pc: usize = self.pc;
        if self.value_stack.len() < arity {
            return Err(self.fault(Fault::ValueStackUnderflow));
        }
        let target: usize = match target {
            None => {
                return Err(self.fault(Fault::UnknownFunction));
            },
            Some(target) => target,
        };
        if self.call_stack.len() >= MAX_CALL_DEPTH {
            return Err(self.fault(Fault::StackOverflow));
        }
        let frame = take_arguments(&mut self.value_stack, arity);
        push(&mut self.value_stack, ByteCodeValue::Return);
        let ghost frames = frames_view(self.ftxc_stack@);
        let ghost new_frame = frame_view(frame@);
        self.ftxc_stack.push(frame);
        assert(frames_view(self.ftxc_stack@) =~= frames.push(new_frame));
        let ghost calls = calls_view(self.call_stack@);
        self.call_stack.push(pc + 1);
        assert(calls_view(self.call_stack@) =~= calls.push((pc + 1) as nat));
        self.pc = target;
        Ok(Step::Continue)
    }

    fn run_return(&mut self) -> (r: Result<Step, RuntimeError>)
        requires
            old(self).wf(),
        ensures
            final(self).wf(),
            final(self).same_code(old(self)),
            reported(old(self).program(), old(self)@, ret(old(self)@), r, final(self)@),
    {
        let ghost before = self@;
        if self.call_stack.len() == 0 {
            return Err(self.fault(Fault::CallStackUnderflow));
        }
        if self.ftxc_stack.len() == 0 {
            return Err(self.fault(Fault::FrameStackUnderflow));
        }
        let n: usize = self.value_stack.len();
        if n == 0 {
            return Err(self.fault(Fault::ValueStackUnderflow));
        }
        assert(values_view(self.value_stack@).take(n - 1) =~= values_view(
            self.value_stack@,
        ).drop_last());
        let at: usize = match find_sentinel(&self.value_stack, n - 1) {
            None => {
                return Err(self.fault(Fault::ValueStackUnderflow));
            },
            Some(at) => at,
        };
        let result = pop(&mut self.value_stack);
        self.value_stack.truncate(at);
        assert(values_view(self.value_stack@) =~= before.values.take(at as int));
        push(&mut self.value_stack, result);
        let ghost frames = frames_view(self.ftxc_stack@);
        self.ftxc_stack.pop();
        assert(frames_view(self.ftxc_stack@) =~= frames.drop_last());
        let ghost calls = calls_view(self.call_stack@);
        let back: usize = self.call_stack.pop().unwrap();
        assert(calls_view(self.call_stack@) =~= calls.drop_last());
        assert(back == calls.last());
        self.pc = back;
        Ok(Step::Continue)
    }

    /// Runs one instruction.
    ///
    /// An instruction that cannot run leaves the machine as it was. So does
    /// an arithmetic instruction: it runs when the host calls
    /// [`Runtime::resume`] with its result.
    pub fn step(&mut self) -> (r: Result<Step, RuntimeError>)
        requires
            old(self).wf(),
        ensures
            final(self).wf(),
            final(self).program() == old(self).program(),
            step_done(old(self).program(), old(self)@, r, final(self)@),
    {
        let pc: usize = self.pc;
        let ghost program = self.program();
        if pc >= self.operations.len() {
            return Err(self.fault(Fault::EndOfProgram));
        }
        assert(program[pc as int] == self.operations@[pc as int]@);
        assert(!dangles(program, pc as int));
        assert(target_ok(program, pc as int, self.targets@[pc as int]));
        let target: Option<usize> = self.targets[pc];
        match &self.operations[pc] {
            ByteCodeOp::Const(value) => {
                let value = value.clone();
                self.run_const(value)
            },
            ByteCodeOp::LocalGet(slot) => {
                let slot: usize = *slot;
                self.run_local_get(slot)
            },
            ByteCodeOp::LocalSet(slot) => {
                let slot: usize = *slot;
                self.run_local_set(slot)
            },
            ByteCodeOp::Add => self.run_arithmetic(ArithmeticOp::Add),
            ByteCodeOp::Sub => self.run_arithmetic(ArithmeticOp::Sub),
            ByteCodeOp::Mul => self.run_arithmetic(ArithmeticOp::Mul),
            ByteCodeOp::Div => self.run_arithmetic(ArithmeticOp::Div),
            ByteCodeOp::LowerT => self.run_compare(false),
            ByteCodeOp::GreaterT => self.run_compare(true),
            ByteCodeOp::Equal => self.run_equality(false),
            ByteCodeOp::NotEq => self.run_equality(true),
            ByteCodeOp::ListAt => Err(self.fault(Fault::UnsupportedOperation)),
            ByteCodeOp::Call(_, arity) => {
                let arity: usize = *arity;
                self.run_call(arity, target)
            },
            ByteCodeOp::Return => self.run_return(),
            ByteCodeOp::Print => self.run_print(),
            ByteCodeOp::Jump(_) => {
                self.pc = target.unwrap();
                Ok(Step::Continue)
            },
            ByteCodeOp::JumpTrue(_) => self.run_branch(target.unwrap(), true),
            ByteCodeOp::JumpFalse(_) => self.run_branch(target.unwrap(), false),
            ByteCodeOp::Label(_) => {
                self.pc = pc + 1;
                Ok(Step::Continue)
            },
            ByteCodeOp::End => Ok(Step::Halt),
        }
    }

    /// The place of the instruction that runs next.
    pub fn pc(&self) -> (r: usize)
        ensures
            r == self@.pc,
    {
        self.pc
    }

    /// The program in the machine.
    pub fn operations(&self) -> (r: &Vec<ByteCodeOp>)
        ensures
            program_view(r@) == self.program(),
    {
        &self.operations
    }

    /// The operand stack, its top last.
    pub fn value_stack(&self) -> (r: &Vec<ByteCodeValue>)
        ensures
            values_view(r@) == self@.values,
    {
        &self.value_stack
    }

    /// The return addresses of the calls under way, the innermost last.
    pub fn call_stack(&self) -> (r: &Vec<usize>)
        ensures
            calls_view(r@) == self@.calls,
    {
        &self.call_stack
    }

    /// The local variables of the calls under way, the innermost last.
    pub fn frames(&self) -> (r: &Vec<HashMap<usize, ByteCodeValue>>)
        ensures
            frames_view(r@) == self@.frames,
    {
        &self.ftxc_stack
    }

    /// Hands in `result` for the arithmetic instruction at which the machine
    /// waits: the result takes the place of the two operands, and the machine
    /// stands at the next instruction.
    ///
    /// Where the machine does not wait at an arithmetic instruction with two
    /// numbers on top of its stack, it stays as it is.
    pub fn resume(&mut self, result: u64) -> (r: Result<(), RuntimeError>)
        requires
            old(self).wf(),
        ensures
            final(self).wf(),
            final(self).program() == old(self).program(),
            match supply(old(self).program(), old(self)@, result) {
                Ok(next) => r is Ok && final(self)@ == next,
                Err(fault) => {
                    &&& r matches Err(error)
                    &&& tells_of(error, old(self).program(), old(self)@, fault)
                    &&& final(self)@ == old(self)@
                },
            },
    {
        let pc: usize = self.pc;
        if pc >= self.operations.len() {
            return Err(self.fault(Fault::NothingPending));
        }
        assert(self.program()[pc as int] == self.operations@[pc as int]@);
        let waits: bool = match &self.operations[pc] {
            ByteCodeOp::Add => true,
            ByteCodeOp::Sub => true,
            ByteCodeOp::Mul => true,
            ByteCodeOp::Div => true,
            _ => false,
        };
        if !waits {
            return Err(self.fault(Fault::NothingPending));
        }
        match number_operands(&self.value_stack) {
            Err(kind) => Err(self.fault(kind)),
            Ok(_) => {
                replace_top_two(&mut self.value_stack, ByteCodeValue::Number(result));
                self.pc = pc + 1;
                Ok(())
            },
        }
    }

    /// Takes the result of a program that has halted off the stack: what
    /// the entry function returned, if it did return.
    fn take_result(&mut self) -> (r: Option<ByteCodeValue>)
        requires
            old(self).wf(),
        ensures
            final(self).wf(),
            final(self).same_code(old(self)),
            option_view(r) == result_of(old(self)@),
            final(self)@ == without_result(old(self)@),
    {
        if self.call_stack.len() == 0 && self.value_stack.len() > 0 {
            Some(pop(&mut self.value_stack))
        } else {
            None
        }
    }

    /// Runs the program until it halts, prints, waits for the host, cannot
    /// go on, or has run `fuel` instructions.
    ///
    /// `Finished` holds what the entry function returned, which leaves the
    /// stack with it. After `Output` and `OutOfFuel` another call goes on
    /// where this one stopped; after `Arithmetic`, a call that follows
    /// [`Runtime::resume`] does.
    pub fn execute_program(&mut self, fuel: usize) -> (r: Result<Status, RuntimeError>)
        requires
            old(self).wf(),
        ensures
            final(self).wf(),
            final(self).program() == old(self).program(),
            run_done(
                old(self).program(),
                run(old(self).program(), old(self)@, fuel as nat),
                r,
                final(self)@,
            ),
    {
        let ghost program = self.program();
        let ghost start = self@;
        let mut left: usize = fuel;
        while left > 0
            invariant
                self.wf(),
                self.program() == program,
                program == old(self).program(),
                start == old(self)@,
                run(program, start, fuel as nat) == run(program, self@, left as nat),
            decreases left,
        {
            match self.step() {
                Err(error) => {
                    return Err(error);
                },
                Ok(Step::Continue) => {
                    left -= 1;
                },
                Ok(Step::Output(value)) => {
                    return Ok(Status::Output(value));
                },
                Ok(Step::Arithmetic { op, lhs, rhs }) => {
                    return Ok(Status::Arithmetic { op, lhs, rhs });
                },
                Ok(Step::Halt) => {
                    let result = self.take_result();
                    return Ok(Status::Finished(result));
                },
            }
        }
        Ok(Status::OutOfFuel)
    }
}

/// The model of a value that may be absent.
pub open spec fn option_view(value: Option<ByteCodeValue>) -> Option<ValueView> {
    match value {
        Some(value) => Some(value@),
        None => None,
    }
}

/// How a run of the machine ended.
#[derive(Debug, PartialEq)]
pub enum Status {
    /// The machine reached `End`. This is what the entry function returned,
    /// if it did return.
    Finished(Option<ByteCodeValue>),
    /// `Print` ran: the host is to write the value.
    Output(ByteCodeValue),
    /// An arithmetic instruction waits: the host is to compute `lhs op rhs`
    /// and hand the result to [`Runtime::resume`].
    Arithmetic { op: ArithmeticOp, lhs: u64, rhs: u64 },
    /// The machine ran as many instructions as it was allowed.
    OutOfFuel,
}

/// Whether `r` and `after` are what a run hands back and leaves behind that
/// ends as `end` says.
pub open spec fn run_done(
    program: Seq<OpView>,
    end: (MachineState, Pause),
    r: Result<Status, RuntimeError>,
    after: MachineState,
) -> bool {
    match end.1 {
        Pause::Halt => {
            &&& r matches Ok(Status::Finished(result))
            &&& option_view(result) == result_of(end.0)
            &&& after == without_result(end.0)
        },
        Pause::Output(value) => {
            &&& r matches Ok(Status::Output(written))
            &&& written@ == value
            &&& after == end.0
        },
        Pause::Arithmetic(op, left, right) => {
            &&& r == Ok::<Status, RuntimeError>(Status::Arithmetic { op, lhs: left, rhs: right })
            &&& after == end.0
        },
        Pause::OutOfFuel => r matches Ok(Status::OutOfFuel) && after == end.0,
        Pause::Fault(fault) => {
            &&& r matches Err(error)
            &&& tells_of(error, program, end.0, fault)
            &&& after == end.0
        },
    }
}

/// A program with a jump to a label that it lacks is not well linked: no
/// machine is made for it, so none of its instructions ever runs.
pub proof fn lemma_dangling_jump_never_links(functions: Seq<FunctionView>, at: int)
    requires
        dangles(flatten(functions), at),
    ensures
        !well_linked(flatten(functions)),
{
}

} // verus!
