//! The operand stack across a call.
//!
//! A call takes its arguments off the stack and, once it has returned, leaves
//! one value in their place, whatever the function did on the stack in the
//! meantime and however many calls it made itself. This holds of every run in
//! which no instruction takes a sentinel for an operand and no constant is
//! one: the sentinel that the call pushed is then still where it was when
//! the matching `Return` looks for it.

use crate::bytecode::{OpView, ValueView};
use crate::machine::{last_sentinel, replace_two, step, MachineState, Transition};
use vstd::prelude::*;

verus! {

/// Whether `next` may follow `s`: it is the state after the instruction, or,
/// where the instruction is arithmetic, the state after the host has handed
/// in some number.
pub open spec fn follows(program: Seq<OpView>, s: MachineState, next: MachineState) -> bool {
    match step(program, s) {
        Transition::Continue(after) => next == after,
        Transition::Output(after, _) => next == after,
        Transition::Arithmetic(_, _, _) => exists|result: u64|
            next == #[trigger] replace_two(s, ValueView::Number(result)),
        Transition::Halt => false,
        Transition::Fault(_) => false,
    }
}

/// How many values the instruction takes off the stack as its operands.
pub open spec fn operand_count(op: OpView) -> nat {
    match op {
        OpView::LocalSet(_) => 1,
        OpView::Add => 2,
        OpView::Sub => 2,
        OpView::Mul => 2,
        OpView::Div => 2,
        OpView::LowerT => 2,
        OpView::GreaterT => 2,
        OpView::Equal => 2,
        OpView::NotEq => 2,
        OpView::Call(_, arity) => arity,
        OpView::Return => 1,
        OpView::Print => 1,
        OpView::JumpTrue(_) => 1,
        OpView::JumpFalse(_) => 1,
        _ => 0,
    }
}

/// Whether none of the `count` top values is a sentinel.
pub open spec fn top_is_clean(values: Seq<ValueView>, count: nat) -> bool {
    forall|i: int| 0 <= i < values.len() && values.len() - count <= i ==> !(values[i] is Return)
}

/// Whether the instruction at which `s` stands keeps to the values of its
/// own call: none of its operands is a sentinel, and it is no constant that
/// is one.
pub open spec fn well_typed(program: Seq<OpView>, s: MachineState) -> bool {
    &&& top_is_clean(s.values, operand_count(program[s.pc as int]))
    &&& program[s.pc as int] != OpView::Const(ValueView::Return)
}

/// Whether `trace` is a run of `program`: each state but the last is
/// followed by the next.
pub open spec fn is_run(program: Seq<OpView>, trace: Seq<MachineState>) -> bool {
    forall|i: int| 0 <= i < trace.len() - 1 ==> follows(program, #[trigger] trace[i], trace[i + 1])
}

/// Whether every instruction that runs in `trace` is well typed.
pub open spec fn is_well_typed(program: Seq<OpView>, trace: Seq<MachineState>) -> bool {
    forall|i: int| 0 <= i < trace.len() - 1 ==> well_typed(program, #[trigger] trace[i])
}

/// Whether `trace` starts at a call and ends when that call has returned:
/// in between more calls are under way than at the start, at the end as
/// many.
pub open spec fn is_one_call(program: Seq<OpView>, trace: Seq<MachineState>) -> bool {
    &&& trace.len() >= 2
    &&& program[trace[0].pc as int] is Call
    &&& forall|i: int|
        0 < i < trace.len() - 1 ==> (#[trigger] trace[i]).calls.len() > trace[0].calls.len()
    &&& trace.last().calls.len() == trace[0].calls.len()
}

/// How many sentinels `values` holds.
pub open spec fn sentinels(values: Seq<ValueView>) -> nat
    decreases values.len(),
{
    if values.len() == 0 {
        0
    } else {
        sentinels(values.drop_last()) + if values.last() is Return {
            1nat
        } else {
            0nat
        }
    }
}

/// Whether no value of the frame is a sentinel.
pub open spec fn frame_is_clean(frame: Map<nat, ValueView>) -> bool {
    forall|slot: nat| frame.contains_key(slot) ==> !(#[trigger] frame[slot] is Return)
}

/// Whether `values` is `base`, the sentinel of a call above it, and above
/// that values of which `count` are sentinels.
spec fn region(values: Seq<ValueView>, base: Seq<ValueView>, count: nat) -> bool {
    &&& values.len() > base.len()
    &&& values.take(base.len() as int) == base
    &&& values[base.len() as int] is Return
    &&& sentinels(values.skip(base.len() as int + 1)) == count
}

proof fn lemma_sentinels_push(values: Seq<ValueView>, value: ValueView)
    ensures
        sentinels(values.push(value)) == sentinels(values) + if value is Return {
            1nat
        } else {
            0nat
        },
{
    assert(values.push(value).drop_last() =~= values);
}

proof fn lemma_sentinels_none(values: Seq<ValueView>)
    ensures
        sentinels(values) == 0 <==> forall|i: int|
            0 <= i < values.len() ==> !(#[trigger] values[i] is Return),
    decreases values.len(),
{
    if values.len() > 0 {
        lemma_sentinels_none(values.drop_last());
        if sentinels(values) == 0 {
            assert forall|i: int| 0 <= i < values.len() implies !(#[trigger] values[i] is Return) by {
                if i < values.len() - 1 {
                    assert(values.drop_last()[i] == values[i]);
                }
            }
        } else if forall|i: int| 0 <= i < values.len() ==> !(#[trigger] values[i] is Return) {
            assert forall|i: int| 0 <= i < values.drop_last().len() implies !(
            #[trigger] values.drop_last()[i] is Return) by {
                assert(values.drop_last()[i] == values[i]);
            }
            assert(!(values.last() is Return));
        }
    }
}

/// Taking clean values off the top leaves the number of sentinels as it is.
proof fn lemma_sentinels_drop(values: Seq<ValueView>, count: nat)
    requires
        count <= values.len(),
        top_is_clean(values, count),
    ensures
        sentinels(values.take(values.len() - count)) == sentinels(values),
    decreases count,
{
    if count == 0 {
        assert(values.take(values.len() as int) =~= values);
    } else {
        let shorter = values.drop_last();
        assert(!(values[values.len() - 1] is Return));
        assert forall|i: int|
            0 <= i < shorter.len() && shorter.len() - (count - 1) <= i implies !(shorter[i] is Return) by {
            assert(shorter[i] == values[i]);
        }
        lemma_sentinels_drop(shorter, (count - 1) as nat);
        assert(shorter.take(shorter.len() - (count - 1)) =~= values.take(values.len() - count));
    }
}

/// Where the topmost sentinel stands, a sentinel stands, and none above it.
proof fn lemma_last_sentinel(values: Seq<ValueView>)
    ensures
        match last_sentinel(values) {
            Some(at) => {
                &&& 0 <= at < values.len()
                &&& values[at] is Return
                &&& forall|i: int| at < i < values.len() ==> !(#[trigger] values[i] is Return)
            },
            None => forall|i: int| 0 <= i < values.len() ==> !(#[trigger] values[i] is Return),
        },
    decreases values.len(),
{
    if values.len() > 0 && !(values.last() is Return) {
        lemma_last_sentinel(values.drop_last());
        match last_sentinel(values) {
            Some(at) => {
                assert(values.drop_last()[at] == values[at]);
                assert forall|i: int| at < i < values.len() implies !(#[trigger] values[i] is Return) by {
                    if i < values.len() - 1 {
                        assert(values.drop_last()[i] == values[i]);
                    }
                }
            },
            None => {
                assert forall|i: int| 0 <= i < values.len() implies !(#[trigger] values[i] is Return) by {
                    if i < values.len() - 1 {
                        assert(values.drop_last()[i] == values[i]);
                    }
                }
            },
        }
    }
}

/// Cutting a stack at its topmost sentinel takes one sentinel away.
proof fn lemma_sentinels_cut(values: Seq<ValueView>, at: int)
    requires
        0 <= at < values.len(),
        values[at] is Return,
        forall|i: int| at < i < values.len() ==> !(#[trigger] values[i] is Return),
    ensures
        sentinels(values) == sentinels(values.take(at)) + 1,
    decreases values.len(),
{
    if at == values.len() - 1 {
        assert(values.drop_last() =~= values.take(at));
    } else {
        let shorter = values.drop_last();
        assert(!(values[values.len() - 1] is Return));
        assert(shorter[at] == values[at]);
        assert forall|i: int| at < i < shorter.len() implies !(#[trigger] shorter[i] is Return) by {
            assert(shorter[i] == values[i]);
        }
        lemma_sentinels_cut(shorter, at);
        assert(shorter.take(at) =~= values.take(at));
    }
}

/// Taking clean operands off stays above the sentinel of the call.
proof fn lemma_region_take(values: Seq<ValueView>, base: Seq<ValueView>, count: nat, taken: nat)
    requires
        region(values, base, count),
        taken <= values.len(),
        top_is_clean(values, taken),
    ensures
        taken <= values.len() - base.len() - 1,
        region(values.take(values.len() - taken), base, count),
{
    let upper = values.skip(base.len() as int + 1);
    if taken > values.len() - base.len() - 1 {
        assert(!(values[base.len() as int] is Return));
    }
    let rest = values.take(values.len() - taken);
    assert(rest.take(base.len() as int) =~= values.take(base.len() as int));
    assert forall|i: int| 0 <= i < upper.len() && upper.len() - taken <= i implies !(upper[i] is Return) by {
        assert(upper[i] == values[base.len() + 1 + i]);
    }
    lemma_sentinels_drop(upper, taken);
    assert(rest.skip(base.len() as int + 1) =~= upper.take(upper.len() - taken));
}

/// Pushing a value stays above the sentinel of the call.
proof fn lemma_region_push(values: Seq<ValueView>, base: Seq<ValueView>, count: nat, value: ValueView)
    requires
        region(values, base, count),
    ensures
        region(
            values.push(value),
            base,
            count + if value is Return {
                1nat
            } else {
                0nat
            },
        ),
{
    assert(values.push(value).take(base.len() as int) =~= values.take(base.len() as int));
    assert(values.push(value).skip(base.len() as int + 1) =~= values.skip(base.len() as int + 1).push(value));
    lemma_sentinels_push(values.skip(base.len() as int + 1), value);
}

/// What `Return` leaves of a stack: with further sentinels above that of the
/// call, the topmost of them goes; with none, that of the call goes, and
/// the result lies on the base.
proof fn lemma_region_unwind(values: Seq<ValueView>, base: Seq<ValueView>, count: nat)
    requires
        region(values, base, count),
        values.len() > 0,
        !(values.last() is Return),
    ensures
        last_sentinel(values.drop_last()) is Some,
        ({
            let at = last_sentinel(values.drop_last())->0;
            let after = values.take(at).push(values.last());
            if count == 0 {
                after == base.push(values.last())
            } else {
                region(after, base, (count - 1) as nat)
            }
        }),
{
    let below = values.drop_last();
    assert(top_is_clean(values, 1));
    lemma_region_take(values, base, count, 1);
    assert(below =~= values.take(values.len() - 1));
    let upper = below.skip(base.len() as int + 1);
    lemma_last_sentinel(below);
    assert(below[base.len() as int] is Return);
    let at = last_sentinel(below)->0;
    assert(at >= base.len());
    lemma_sentinels_none(upper);
    if count == 0 {
        if at > base.len() {
            assert(upper[at - base.len() - 1] == below[at]);
        }
        assert(values.take(at) =~= base);
    } else {
        let inner = choose|i: int| 0 <= i < upper.len() && upper[i] is Return;
        assert(upper[inner] == below[base.len() + 1 + inner]);
        assert(at > base.len());
        let cut = at - base.len() - 1;
        assert(upper[cut] == below[at]);
        assert forall|i: int| cut < i < upper.len() implies !(#[trigger] upper[i] is Return) by {
            assert(upper[i] == below[base.len() + 1 + i]);
        }
        lemma_sentinels_cut(upper, cut);
        let kept = values.take(at);
        assert(kept.take(base.len() as int) =~= base);
        assert(kept[base.len() as int] == values[base.len() as int]);
        assert(kept.skip(base.len() as int + 1) =~= upper.take(cut));
        lemma_region_push(kept, base, (count - 1) as nat, values.last());
    }
}

/// What holds of a state inside the call that started in `first`: the stack
/// below the arguments of the call is as it was, the sentinel of the call
/// lies on it, above that lie as many sentinels as further calls are under
/// way, and the frames and return addresses from before the call are as
/// they were.
spec fn inside(program: Seq<OpView>, first: MachineState, s: MachineState) -> bool {
    let arity = program[first.pc as int]->Call_1;
    let base = first.values.take(first.values.len() - arity);
    let depth = s.calls.len() - first.calls.len();
    &&& arity <= first.values.len()
    &&& depth >= 1
    &&& region(s.values, base, (depth - 1) as nat)
    &&& s.frames.len() == first.frames.len() + depth
    &&& s.frames.take(first.frames.len() as int) == first.frames
    &&& forall|i: int| first.frames.len() <= i < s.frames.len() ==> frame_is_clean(#[trigger] s.frames[i])
    &&& s.calls.take(first.calls.len() as int) == first.calls
    &&& s.calls[first.calls.len() as int] == first.pc + 1
}

/// What holds of the state in which the call that started in `first` has
/// returned.
pub open spec fn returned(program: Seq<OpView>, first: MachineState, last: MachineState) -> bool {
    let arity = program[first.pc as int]->Call_1;
    let kept = first.values.len() - arity;
    &&& arity <= first.values.len()
    &&& last.values.len() == kept + 1
    &&& last.values.take(kept) == first.values.take(kept)
    &&& !(last.values.last() is Return)
    &&& last.pc == first.pc + 1
    &&& last.calls == first.calls
    &&& last.frames == first.frames
}

/// The state after a call lies inside the call.
proof fn lemma_enter(program: Seq<OpView>, first: MachineState, next: MachineState)
    requires
        program[first.pc as int] is Call,
        follows(program, first, next),
        well_typed(program, first),
    ensures
        inside(program, first, next),
{
    let arity = program[first.pc as int]->Call_1;
    let kept = first.values.len() - arity;
    let base = first.values.take(kept);
    assert(next.values.take(base.len() as int) =~= base);
    assert(next.values.skip(base.len() as int + 1) =~= Seq::<ValueView>::empty());
    assert(next.frames.take(first.frames.len() as int) =~= first.frames);
    assert(next.calls.take(first.calls.len() as int) =~= first.calls);
    let args = first.values.skip(kept);
    assert forall|slot: nat| next.frames.last().contains_key(slot) implies !(
    #[trigger] next.frames.last()[slot] is Return) by {
        assert(args[slot as int] == first.values[kept + slot]);
    }
}

/// The stack effect of every instruction but `Return`: it takes its
/// operands off and pushes at most one value.
proof fn lemma_stack_effect(
    program: Seq<OpView>,
    s: MachineState,
    next: MachineState,
    base: Seq<ValueView>,
    count: nat,
)
    requires
        follows(program, s, next),
        well_typed(program, s),
        region(s.values, base, count),
        !(program[s.pc as int] is Return),
        s.frames.len() > 0 ==> frame_is_clean(s.frames.last()),
    ensures
        region(
            next.values,
            base,
            count + if program[s.pc as int] is Call {
                1nat
            } else {
                0nat
            },
        ),
{
    let op = program[s.pc as int];
    let taken = operand_count(op);
    let n = s.values.len();
    match op {
        OpView::Const(value) => {
            lemma_region_push(s.values, base, count, value);
        },
        OpView::LocalGet(slot) => {
            lemma_region_push(s.values, base, count, s.frames.last()[slot]);
        },
        OpView::Jump(_) => {},
        OpView::Label(_) => {},
        OpView::End => {},
        OpView::ListAt => {},
        OpView::Return => {},
        OpView::Call(_, _) => {
            lemma_region_take(s.values, base, count, taken);
            lemma_region_push(s.values.take(n - taken), base, count, ValueView::Return);
        },
        OpView::LocalSet(_) => {
            lemma_region_take(s.values, base, count, 1);
            assert(s.values.drop_last() =~= s.values.take(n - 1));
        },
        OpView::Print => {
            lemma_region_take(s.values, base, count, 1);
            assert(s.values.drop_last() =~= s.values.take(n - 1));
        },
        OpView::JumpTrue(_) => {
            lemma_region_take(s.values, base, count, 1);
            assert(s.values.drop_last() =~= s.values.take(n - 1));
        },
        OpView::JumpFalse(_) => {
            lemma_region_take(s.values, base, count, 1);
            assert(s.values.drop_last() =~= s.values.take(n - 1));
        },
        _ => {
            // The instructions on two operands.
            assert(n >= 2);
            lemma_region_take(s.values, base, count, 2);
            lemma_region_push(s.values.take(n - 2), base, count, next.values.last());
            assert(next.values =~= s.values.take(n - 2).push(next.values.last()));
        },
    }
}

/// A step inside the call that does not leave it stays inside.
proof fn lemma_stay(program: Seq<OpView>, first: MachineState, s: MachineState, next: MachineState)
    requires
        inside(program, first, s),
        follows(program, s, next),
        well_typed(program, s),
        next.calls.len() > first.calls.len(),
    ensures
        inside(program, first, next),
{
    let arity = program[first.pc as int]->Call_1;
    let base = first.values.take(first.values.len() - arity);
    let depth = s.calls.len() - first.calls.len();
    let old_frames = first.frames.len() as int;
    let old_calls = first.calls.len() as int;
    let op = program[s.pc as int];
    assert(frame_is_clean(s.frames[s.frames.len() - 1]));
    if op is Return {
        lemma_region_unwind(s.values, base, (depth - 1) as nat);
        assert(next.frames.take(old_frames) =~= s.frames.take(old_frames));
        assert(next.calls.take(old_calls) =~= s.calls.take(old_calls));
        assert(next.calls[old_calls] == s.calls[old_calls]);
        assert forall|i: int| old_frames <= i < next.frames.len() implies frame_is_clean(
            #[trigger] next.frames[i],
        ) by {
            assert(next.frames[i] == s.frames[i]);
        }
    } else {
        lemma_stack_effect(program, s, next, base, (depth - 1) as nat);
        match op {
            OpView::Call(_, taken) => {
                let kept = s.values.len() - taken;
                let args = s.values.skip(kept);
                assert(next.frames.take(old_frames) =~= s.frames.take(old_frames));
                assert(next.calls.take(old_calls) =~= s.calls.take(old_calls));
                assert(next.calls[old_calls] == s.calls[old_calls]);
                assert forall|i: int| old_frames <= i < next.frames.len() implies frame_is_clean(
                    #[trigger] next.frames[i],
                ) by {
                    if i < s.frames.len() {
                        assert(next.frames[i] == s.frames[i]);
                    } else {
                        assert forall|slot: nat| next.frames[i].contains_key(slot) implies !(
                        #[trigger] next.frames[i][slot] is Return) by {
                            assert(args[slot as int] == s.values[kept + slot]);
                        }
                    }
                }
            },
            OpView::LocalSet(slot) => {
                assert(next.frames.take(old_frames) =~= s.frames.take(old_frames));
                assert forall|i: int| old_frames <= i < next.frames.len() implies frame_is_clean(
                    #[trigger] next.frames[i],
                ) by {
                    if i < s.frames.len() - 1 {
                        assert(next.frames[i] == s.frames[i]);
                    } else {
                        assert(!(s.values[s.values.len() - 1] is Return));
                    }
                }
            },
            _ => {},
        }
    }
}

/// The step inside the call that leaves it is the `Return` of the call.
proof fn lemma_leave(program: Seq<OpView>, first: MachineState, s: MachineState, next: MachineState)
    requires
        inside(program, first, s),
        follows(program, s, next),
        well_typed(program, s),
        next.calls.len() == first.calls.len(),
    ensures
        returned(program, first, next),
{
    let arity = program[first.pc as int]->Call_1;
    let kept = first.values.len() - arity;
    let base = first.values.take(kept);
    let old_frames = first.frames.len() as int;
    let old_calls = first.calls.len() as int;
    let op = program[s.pc as int];
    assert(op is Return);
    lemma_region_unwind(s.values, base, 0);
    assert(next.values.take(kept) =~= base);
    assert(next.frames =~= s.frames.take(old_frames));
    assert(next.calls =~= s.calls.take(old_calls));
}

/// The states of a call up to `upto`, all well inside it, lie inside it.
proof fn lemma_inside(program: Seq<OpView>, trace: Seq<MachineState>, upto: int)
    requires
        is_run(program, trace),
        is_well_typed(program, trace),
        is_one_call(program, trace),
        0 < upto < trace.len() - 1,
    ensures
        inside(program, trace[0], trace[upto]),
    decreases upto,
{
    if upto == 1 {
        assert(follows(program, trace[0], trace[1]));
        assert(well_typed(program, trace[0]));
        lemma_enter(program, trace[0], trace[1]);
    } else {
        lemma_inside(program, trace, upto - 1);
        assert(follows(program, trace[upto - 1], trace[upto]));
        assert(well_typed(program, trace[upto - 1]));
        assert(trace[upto].calls.len() > trace[0].calls.len());
        lemma_stay(program, trace[0], trace[upto - 1], trace[upto]);
    }
}

/// A call leaves the stack balanced.
///
/// Let a run start at a `Call` and end when as many calls are under way as
/// at its start, with more under way in between: the run of one call, with
/// whatever calls it makes itself. If every instruction in it is well typed,
/// then at the end the stack holds what it held below the arguments of the
/// call, and one value more, which is no sentinel; the machine stands
/// behind the call; and the frames and return addresses are those from
/// before the call.
pub proof fn lemma_call_is_balanced(program: Seq<OpView>, trace: Seq<MachineState>)
    requires
        is_run(program, trace),
        is_well_typed(program, trace),
        is_one_call(program, trace),
    ensures
        returned(program, trace[0], trace.last()),
{
    let last = trace.len() - 1;
    assert(follows(program, trace[0], trace[1]));
    assert(well_typed(program, trace[0]));
    lemma_enter(program, trace[0], trace[1]);
    if last == 1 {
        assert(false);
    } else {
        lemma_inside(program, trace, last - 1);
        assert(follows(program, trace[last - 1], trace[last]));
        assert(well_typed(program, trace[last - 1]));
        lemma_leave(program, trace[0], trace[last - 1], trace[last]);
    }
}

/// The depth of the stack across a call: behind the call it is the depth
/// before it, less the arguments, plus the result.
pub proof fn lemma_depth_after_call(program: Seq<OpView>, trace: Seq<MachineState>)
    requires
        is_run(program, trace),
        is_well_typed(program, trace),
        is_one_call(program, trace),
    ensures
        trace.last().values.len() == trace[0].values.len() - program[trace[0].pc as int]->Call_1
            + 1,
{
    lemma_call_is_balanced(program, trace);
}

/// Across a call of one argument the stack is as deep behind the call as it
/// was before it.
pub proof fn lemma_depth_is_kept(program: Seq<OpView>, trace: Seq<MachineState>)
    requires
        is_run(program, trace),
        is_well_typed(program, trace),
        is_one_call(program, trace),
        program[trace[0].pc as int]->Call_1 == 1,
    ensures
        trace.last().values.len() == trace[0].values.len(),
{
    lemma_call_is_balanced(program, trace);
}

} // verus!
