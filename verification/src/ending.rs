//! What a plan as a whole does: how far its instructions get, what is done with the top of the stack,
//! and what the guard restores.

use vstd::prelude::*;

use crate::machine::{
    depth_after, in_frame, lemma_done, lemma_next, lemma_single, lemma_step_keeps_frame,
    outcome_needs, pops, pushes, Machine, Op, Outcome, PlanView, Val,
};
use crate::refs::{law_growth, PopStep, RefSlots};
use crate::stack::{
    given_slot, law_pinned_value_is_kept, lemma_growth_is_met, pinned, request_end, slots_match,
};
use crate::value::RefKind;

verus! {

/// The answers of Lua to questions for room in the reference thread, while one value is pinned.
pub type Room = spec_fn(int) -> bool;

/// Room that Lua grants never takes the thread beyond what can be counted.
pub open spec fn room_fits(slots: RefSlots, has_room: Room) -> bool {
    forall|inc: int| #[trigger] has_room(inc) ==> slots.size + inc <= i32::MAX
}

/// What a plan gives.
pub enum Given {
    /// Nothing: an instruction failed.
    Failed,
    /// Nothing: there was no slot for the value that was to be pinned.
    Exhausted,
    /// Nothing more than what the instructions did.
    Unit,
    /// A handle to the slot in which a value was pinned.
    Handle(i32),
    /// A value that is kept without a handle.
    Value(Val),
    /// A registry integer.
    RegistryId(i32),
    /// No text: the value could not be converted to one.
    NoText,
    /// The integer or the number that Lua converts a value to, if it can.
    Converted(Val),
}

/// The end of a plan: the machine, the slots of the reference thread, and what was given.
pub struct Ended {
    pub machine: Machine,
    pub slots: RefSlots,
    pub given: Given,
}

/// The machine at which the instructions from position `i` on stop, which is before the first one
/// that cannot be carried out, and whether all of them were carried out. What that one may have done
/// before it failed is not counted.
pub open spec fn halted(m: Machine, code: Seq<Op>, i: int) -> (Machine, bool)
    decreases code.len() - i,
{
    if i >= code.len() {
        (m, true)
    } else {
        match m.step(code[i]) {
            Some(next) => halted(next, code, i + 1),
            None => (m, false),
        }
    }
}

/// The top of the stack is moved to a slot of the reference thread, if there is one to be had; Lua
/// answers questions for room by `has_room`.
pub open spec fn pin_top(m: Machine, slots: RefSlots, has_room: Room) -> Ended {
    let (after, step) = request_end(slots, has_room);
    Ended {
        machine: match pinned(m, step) {
            Some(end) => end,
            None => m.pop(1),
        },
        slots: after,
        given: match given_slot(step) {
            Some(index) => Given::Handle(index),
            None => Given::Exhausted,
        },
    }
}

/// What is done with the top of the stack once all instructions have been carried out.
pub open spec fn concluded(
    m: Machine,
    slots: RefSlots,
    outcome: Outcome,
    has_room: Room,
) -> Ended {
    match outcome {
        Outcome::Unit => Ended { machine: m, slots, given: Given::Unit },
        Outcome::Reference(_) => pin_top(m, slots, has_room),
        Outcome::Value => if m.top().kind() is Some {
            pin_top(m, slots, has_room)
        } else {
            Ended { machine: m.pop(1), slots, given: Given::Value(m.top()) }
        },
        Outcome::RegistryId => Ended { machine: m, slots, given: Given::RegistryId(m.made) },
        Outcome::Text => if m.top().kind() == Some(RefKind::String) {
            pin_top(m, slots, has_room)
        } else {
            Ended { machine: m, slots, given: Given::NoText }
        },
        Outcome::Integer | Outcome::Number => Ended {
            machine: m,
            slots,
            given: Given::Converted(m.top()),
        },
    }
}

/// What a guard leaves of a stack that had the height `base` before.
pub open spec fn cut(m: Machine, base: int, guard: Option<usize>) -> Machine {
    match guard {
        Some(extra) => if m.height() > base + extra {
            Machine { stack: m.stack.take(base + extra), ..m }
        } else {
            m
        },
        None => m,
    }
}

impl PlanView {
    /// The end of the plan on a machine.
    pub open spec fn end(
        self,
        m: Machine,
        slots: RefSlots,
        has_room: Room,
    ) -> Ended {
        let (stop, complete) = halted(m, self.steps, 0);
        let ended = if complete {
            concluded(stop, slots, self.outcome, has_room)
        } else {
            Ended { machine: stop, slots, given: Given::Failed }
        };
        Ended { machine: cut(ended.machine, m.height(), self.guard), ..ended }
    }
}

/// An instruction that can be carried out is not the one to stop at.
pub proof fn lemma_not_halted(m: Machine, code: Seq<Op>, i: int, next: Machine)
    requires
        0 <= i < code.len(),
        m.step(code[i]) == Some(next),
    ensures
        halted(m, code, i) == halted(next, code, i + 1),
{
}

/// An instruction that cannot be carried out is the one to stop at.
pub proof fn lemma_halted_here(m: Machine, code: Seq<Op>, i: int)
    requires
        0 <= i < code.len(),
        m.step(code[i]) is None,
    ensures
        halted(m, code, i) == (m, false),
{
}

/// Instructions that can all be carried out stop at their end.
pub proof fn lemma_halted_at_the_end(m: Machine, code: Seq<Op>, i: int)
    requires
        0 <= i <= code.len(),
        m.run_from(code, i) is Some,
    ensures
        halted(m, code, i) == (m.run_from(code, i)->0, true),
    decreases code.len() - i,
{
    reveal(Machine::run_from);
    if i < code.len() {
        lemma_halted_at_the_end(m.step(code[i])->0, code, i + 1);
    }
}

proof fn lemma_halted(m: Machine, base: Seq<Val>, code: Seq<Op>, i: int, depth: int)
    requires
        0 <= i <= code.len(),
        in_frame(code, i, depth),
        0 <= depth,
        m.height() == base.len() + depth,
        m.stack.take(base.len() as int) == base,
    ensures
        ({
            let (stop, complete) = halted(m, code, i);
            &&& stop.height() >= base.len()
            &&& stop.stack.take(base.len() as int) == base
            &&& complete == (m.run_from(code, i) is Some)
            &&& complete ==> stop.height() == base.len() + depth_after(code, i, depth)
        }),
    decreases code.len() - i,
{
    reveal(Machine::run_from);
    if i < code.len() {
        let op = code[i];
        if m.step(op) is Some {
            let next = m.step(op)->0;
            lemma_step_keeps_frame(m, op, depth);
            assert(next.stack.take(base.len() as int) =~= base);
            lemma_halted(next, base, code, i + 1, depth - pops(op) + pushes(op));
        }
    }
}

proof fn lemma_settled_by(m: Machine, last: Op)
    requires
        m.height() > 0,
        last is RefReplace || last is RefPop,
    ensures
        m.run(seq![Op::StateToRef] + seq![last]) matches Some(after) ==> after == (Machine {
            stack: m.stack.drop_last(),
            refs: after.refs,
            ..m
        }),
{
    let code = seq![Op::StateToRef] + seq![last];
    let moved = Machine { refs: m.refs.push(m.top()), ..m.pop(1) };
    assert(m.pop(1).stack =~= m.stack.drop_last());
    lemma_next(m, code, 0, moved);
    assert(code[1] == last);
    if moved.step(last) is Some {
        lemma_next(moved, code, 1, moved.step(last)->0);
        lemma_done(moved.step(last)->0, code, 2);
    } else {
        reveal(Machine::run_from);
    }
}

proof fn lemma_pinned_machine(m: Machine, slots: RefSlots, has_room: Room)
    requires
        m.height() > 0,
    ensures
        ({
            let after = pin_top(m, slots, has_room).machine;
            after == (Machine { stack: m.stack.drop_last(), refs: after.refs, ..m })
        }),
{
    let (after, step) = request_end(slots, has_room);
    assert(m.pop(1).stack =~= m.stack.drop_last());
    match step {
        PopStep::Replace { index } => lemma_settled_by(m, Op::RefReplace(index)),
        PopStep::Exhausted { .. } => lemma_settled_by(m, Op::RefPop(1)),
        PopStep::Fresh { .. } => {
            let code = seq![Op::StateToRef] + Seq::<Op>::empty();
            assert(code =~= seq![Op::StateToRef]);
            let moved = Machine { refs: m.refs.push(m.top()), ..m.pop(1) };
            lemma_single(m, Op::StateToRef, moved);
        },
        PopStep::Grow { .. } => {},
    }
}

/// A guarded plan that works in its own frame leaves the stack of before with at most so many values
/// on it as its guard says, whether it fails or not and whatever becomes of the top of the stack.
pub proof fn law_guarded_plan_restores_the_stack(
    m: Machine,
    plan: PlanView,
    slots: RefSlots,
    has_room: Room,
)
    requires
        in_frame(plan.steps, 0, 0),
        plan.guard is Some,
        m.run(plan.steps) is Some ==> depth_after(plan.steps, 0, 0) >= outcome_needs(plan.outcome),
    ensures
        ({
            let after = plan.end(m, slots, has_room).machine;
            &&& m.height() <= after.height() <= m.height() + plan.guard->0
            &&& after.stack.take(m.height()) == m.stack
            &&& plan.guard == Some(0usize) ==> after.stack == m.stack
        }),
{
    assert(m.stack.take(m.height()) =~= m.stack);
    lemma_halted(m, m.stack, plan.steps, 0, 0);
    let (stop, complete) = halted(m, plan.steps, 0);
    let ended = if complete {
        concluded(stop, slots, plan.outcome, has_room)
    } else {
        Ended { machine: stop, slots, given: Given::Failed }
    };
    if complete && outcome_needs(plan.outcome) > 0 {
        lemma_pinned_machine(stop, slots, has_room);
        assert(stop.pop(1).stack =~= stop.stack.drop_last());
        assert(stop.stack.drop_last().take(m.height()) =~= m.stack);
    }
    let after = plan.end(m, slots, has_room).machine;
    assert(ended.machine.stack.take(m.height()) == m.stack);
    assert(after.stack.take(m.height()) =~= m.stack);
    if plan.guard == Some(0usize) {
        assert(after.stack =~= after.stack.take(m.height()));
    }
}

proof fn lemma_request_keeps(slots: RefSlots, has_room: Room)
    requires
        slots.wf(),
        room_fits(slots, has_room),
    ensures
        ({
            let (after, step) = request_end(slots, has_room);
            &&& after.wf()
            &&& given_slot(step) matches Some(index) ==> !slots.live(index) && after.live(index)
            &&& forall|i: i32| #[trigger] slots.live(i) ==> after.live(i)
        }),
{
    let (after, step) = request_end(slots, has_room);
    if slots.free.len() > 0 {
        let last = slots.free.last();
        let rest = slots.free.drop_last();
        assert(slots.free[slots.free.len() - 1] == last);
        assert(slots.free.contains(last));
        assert forall|k: int| 0 <= k < rest.len() implies 1 <= #[trigger] rest[k] <= slots.top by {
            assert(rest[k] == slots.free[k]);
        }
        assert(!rest.contains(last)) by {
            if rest.contains(last) {
                assert(slots.free[rest.index_of(last)] == last);
            }
        }
        assert forall|i: i32| #[trigger] slots.live(i) implies after.live(i) by {
            if rest.contains(i) {
                assert(slots.free[rest.index_of(i)] == i);
            }
        }
    } else if slots.top >= slots.size {
        law_growth(slots, has_room);
        lemma_growth_is_met(slots.size, has_room);
    }
}

/// A plan that asks for room first does nothing where there is none, and fails.
pub proof fn law_no_room(m: Machine, plan: PlanView, slots: RefSlots, has_room: Room, n: i32)
    requires
        plan.steps.len() > 0,
        plan.steps[0] == Op::CheckStack(n),
        !(m.world.room)(m.height(), n),
    ensures
        plan.end(m, slots, has_room) == (Ended { machine: m, slots, given: Given::Failed }),
{
    lemma_halted_here(m, plan.steps, 0);
}

/// A plan without a failing instruction whose result is a handle gives one, if there is a slot to be
/// had: the slot then holds what was on top of the stack. The values behind all other handles stay,
/// and but for the stack and the reference thread the machine is that of the last instruction.
pub proof fn law_handle_is_given(
    m: Machine,
    plan: PlanView,
    slots: RefSlots,
    has_room: Room,
)
    requires
        m.run(plan.steps) is Some,
        plan.outcome is Reference,
        plan.guard is Some,
        (m.run(plan.steps)->0).height() > 0,
        slots.wf(),
        slots_match(m.run(plan.steps)->0, slots),
        room_fits(slots, has_room),
    ensures
        ({
            let run = m.run(plan.steps)->0;
            let ended = plan.end(m, slots, has_room);
            &&& ended.machine == (Machine {
                stack: ended.machine.stack,
                refs: ended.machine.refs,
                ..run
            })
            &&& ended.slots.wf()
            &&& slots_match(ended.machine, ended.slots)
            &&& ended.given is Handle || ended.given is Exhausted
            &&& ended.given matches Given::Handle(index) ==> {
                &&& !slots.live(index)
                &&& ended.slots.live(index)
                &&& ended.machine.refs[index - 1] == run.top()
            }
            &&& forall|i: i32| #[trigger]
                slots.live(i) ==> ended.slots.live(i) && ended.machine.refs[i - 1] == run.refs[i
                    - 1]
        }),
{
    let run = m.run(plan.steps)->0;
    lemma_halted_at_the_end(m, plan.steps, 0);
    law_pinned_value_is_kept(run, slots, has_room);
    lemma_pinned_machine(run, slots, has_room);
    lemma_request_keeps(slots, has_room);
}

/// A plan whose instructions can all be carried out and leave the reference thread as it
/// was gives a handle to what they leave on top, and the stack is that of before.
pub proof fn lemma_made(
    m: Machine,
    plan: PlanView,
    slots: RefSlots,
    has_room: Room,
    run: Machine,
)
    requires
        m.run(plan.steps) == Some(run),
        plan.sound(),
        plan.outcome is Reference,
        plan.guard == Some(0usize),
        run.height() > 0,
        run.refs == m.refs,
        slots.wf(),
        slots_match(m, slots),
        room_fits(slots, has_room),
    ensures
        ({
            let ended = plan.end(m, slots, has_room);
            &&& ended.machine == (Machine { stack: m.stack, refs: ended.machine.refs, ..run })
            &&& ended.slots.wf()
            &&& slots_match(ended.machine, ended.slots)
            &&& ended.given is Handle || ended.given is Exhausted
            &&& ended.given matches Given::Handle(index) ==> {
                &&& ended.slots.live(index)
                &&& 0 < index <= ended.machine.refs.len()
                &&& ended.machine.refs[index - 1] == run.top()
            }
            &&& forall|i: i32| #[trigger]
                slots.live(i) ==> ended.slots.live(i) && ended.machine.refs[i - 1] == m.refs[i - 1]
        }),
{
    law_handle_is_given(m, plan, slots, has_room);
    law_guarded_plan_restores_the_stack(m, plan, slots, has_room);
}

/// A plan of a given outcome whose instructions lead to a machine gives a handle to what is on top of
/// its stack, of the kind that this value has, unless there is no slot for it. In every other respect
/// the machine is then that of the last instruction, with the stack of before, and the values behind
/// all handles are those of before.
pub open spec fn hands_out(
    plan: PlanView,
    outcome: Outcome,
    m: Machine,
    slots: RefSlots,
    has_room: Room,
    run: Machine,
) -> bool {
    let ended = plan.end(m, slots, has_room);
    &&& plan.outcome == outcome
    &&& outcome matches Outcome::Reference(kind) ==> run.top().kind() == Some(kind)
    &&& ended.given is Handle || ended.given is Exhausted
    &&& ended.given matches Given::Handle(index) ==> ended.slots.live(index)
        && ended.machine.refs[index - 1] == run.top()
    &&& ended.machine == (Machine { stack: m.stack, refs: ended.machine.refs, ..run })
    &&& ended.slots.wf()
    &&& slots_match(ended.machine, ended.slots)
    &&& forall|i: i32| #[trigger]
        slots.live(i) ==> ended.slots.live(i) && ended.machine.refs[i - 1] == m.refs[i - 1]
}

/// A sound plan hands out the value that its instructions leave on top of the stack, if that is of
/// the kind that the plan says.
pub proof fn lemma_hands_out(
    m: Machine,
    plan: PlanView,
    slots: RefSlots,
    has_room: Room,
    run: Machine,
)
    requires
        m.run(plan.steps) == Some(run),
        plan.sound(),
        run.top().kind() matches Some(kind) && (plan.outcome == Outcome::Reference(kind)
            || plan.outcome is Value || plan.outcome == Outcome::Text && kind == RefKind::String),
        plan.guard == Some(0usize),
        run.height() > 0,
        run.refs == m.refs,
        slots.wf(),
        slots_match(m, slots),
        room_fits(slots, has_room),
    ensures
        hands_out(plan, plan.outcome, m, slots, has_room, run),
{
    let kind = run.top().kind()->0;
    let referring = PlanView { outcome: Outcome::Reference(kind), ..plan };
    lemma_made(m, referring, slots, has_room, run);
    lemma_halted_at_the_end(m, plan.steps, 0);
    assert(referring.end(m, slots, has_room) == plan.end(m, slots, has_room));
}

/// The end of a plan that pins nothing.
pub proof fn lemma_ends(m: Machine, plan: PlanView, slots: RefSlots, has_room: Room, run: Machine)
    requires
        m.run(plan.steps) == Some(run),
    ensures
        plan.end(m, slots, has_room) == ({
            let ended = concluded(run, slots, plan.outcome, has_room);
            Ended { machine: cut(ended.machine, m.height(), plan.guard), ..ended }
        }),
{
    lemma_halted_at_the_end(m, plan.steps, 0);
}

} // verus!
