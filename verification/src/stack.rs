use vstd::prelude::*;

use crate::lua::{ExtraData, ExtraView, Lua};
use crate::machine::{
    emit, lemma_pair, lemma_single, ops, Instr, InstrOf, Machine, Op, Val,
};
use crate::refs::{largest_growth, law_growth, PopStep, RefSlots};
use crate::value::{LuaRef, RefKind, Value};

verus! {

/// What the embedder reads off the top of the stack.
#[derive(Clone, Copy, Debug, PartialEq, Eq, Structural)]
pub enum Top {
    Nil,
    /// Its truth, nonzero for true.
    Boolean(i32),
    LightUserData(u64),
    /// Whether it is an integer (nonzero), its integer value, and the bits of its number value.
    Number { is_integer: i32, integer: i64, number: u64 },
    String,
    Table,
    Function,
    /// The number under which the embedder keeps the error that is wrapped in it, if one is; and
    /// whether a panic is wrapped in it, and if so whether it is still to be resumed.
    UserData { wrapped_error: Option<u64>, wrapped_panic: Option<bool> },
    Thread,
}

/// How the top of the stack is taken off as a value.
#[derive(Clone, Copy, Debug, PartialEq, Eq, Structural)]
pub enum PopAction {
    /// Take it off; this is the value.
    Take(Value),
    /// Move it to a slot of the reference thread; the value is a handle of this kind.
    Pin(RefKind),
    /// Take it off and resume the panic in it.
    Resume,
}

/// Instructions that push the value in a slot of the reference thread.
pub open spec fn push_ref_ops(index: i32) -> Seq<Op> {
    seq![InstrOf::RefPushValue(index), InstrOf::RefToState]
}

/// Instructions that push a value.
pub open spec fn push_ops(value: Value) -> Seq<Op> {
    match value {
        Value::Nil => seq![InstrOf::PushNil],
        Value::Boolean(b) => seq![InstrOf::PushBoolean(if b { 1 } else { 0 })],
        Value::LightUserData(p) => seq![InstrOf::PushLightUserData(p)],
        Value::Integer(i) => seq![InstrOf::PushInteger(i)],
        Value::Number(n) => seq![InstrOf::PushNumber(n)],
        Value::String(r) => push_ref_ops(r.index),
        Value::Table(r) => push_ref_ops(r.index),
        Value::Function(r) => push_ref_ops(r.index),
        Value::Thread(r) => push_ref_ops(r.index),
        Value::UserData(r) => push_ref_ops(r.index),
        Value::Error(e) => seq![InstrOf::PushError(e)],
    }
}

impl Top {
    /// How this top is taken off.
    pub open spec fn popped(self) -> PopAction {
        match self {
            Top::Nil => PopAction::Take(Value::Nil),
            Top::Boolean(b) => PopAction::Take(Value::Boolean(b != 0)),
            Top::LightUserData(p) => PopAction::Take(Value::LightUserData(p)),
            Top::Number { is_integer, integer, number } => if is_integer != 0 {
                PopAction::Take(Value::Integer(integer))
            } else {
                PopAction::Take(Value::Number(number))
            },
            Top::String => PopAction::Pin(RefKind::String),
            Top::Table => PopAction::Pin(RefKind::Table),
            Top::Function => PopAction::Pin(RefKind::Function),
            Top::Thread => PopAction::Pin(RefKind::Thread),
            Top::UserData { wrapped_error: Some(e), .. } => PopAction::Take(Value::Error(e)),
            Top::UserData { wrapped_error: None, wrapped_panic: Some(true) } => PopAction::Resume,
            Top::UserData { wrapped_error: None, wrapped_panic: Some(false) } => PopAction::Take(
                Value::Nil,
            ),
            Top::UserData { wrapped_error: None, wrapped_panic: None } => PopAction::Pin(
                RefKind::UserData,
            ),
        }
    }
}

impl Lua {
    /// Adds the instructions that push the value behind a handle of this main state.
    pub fn push_ref(&self, steps: &mut Vec<Instr>, lref: &LuaRef)
        requires
            lref.extra == self.extra,
        ensures
            ops(final(steps)@) == ops(old(steps)@) + push_ref_ops(lref.index),
    {
        let ghost before = ops(steps@);
        emit(steps, InstrOf::RefPushValue(lref.index));
        emit(steps, InstrOf::RefToState);
        assert(ops(steps@) =~= before + push_ref_ops(lref.index));
    }

    /// Adds the instructions that push a value whose handle, if it has one, is of this main state.
    pub fn push_value(&self, steps: &mut Vec<Instr>, value: Value)
        requires
            value.owned_by(self.extra),
        ensures
            ops(final(steps)@) == ops(old(steps)@) + push_ops(value),
    {
        let ghost before = ops(steps@);
        match value {
            Value::Nil => {
                emit(steps, InstrOf::PushNil);
            },
            Value::Boolean(b) => {
                emit(steps, InstrOf::PushBoolean(if b { 1 } else { 0 }));
            },
            Value::LightUserData(ud) => {
                emit(steps, InstrOf::PushLightUserData(ud));
            },
            Value::Integer(i) => {
                emit(steps, InstrOf::PushInteger(i));
            },
            Value::Number(n) => {
                emit(steps, InstrOf::PushNumber(n));
            },
            Value::String(s) => {
                self.push_ref(steps, &s);
            },
            Value::Table(t) => {
                self.push_ref(steps, &t);
            },
            Value::Function(f) => {
                self.push_ref(steps, &f);
            },
            Value::Thread(t) => {
                self.push_ref(steps, &t);
            },
            Value::UserData(ud) => {
                self.push_ref(steps, &ud);
            },
            Value::Error(e) => {
                emit(steps, InstrOf::PushError(e));
            },
        }
        assert(ops(steps@) =~= before + push_ops(value));
    }

    /// Moves the top of the stack to the reference thread and asks for a slot for it: what to do
    /// first, and the first step on the way to the slot.
    pub fn pop_ref(&self, extra: &mut ExtraData) -> (r: (Vec<Instr>, PopStep))
        requires
            old(extra)@.refs.wf(),
        ensures
            ops(r.0@) == seq![Op::StateToRef],
            r.1 == old(extra)@.refs.asked_step(),
            final(extra)@ == (ExtraView { refs: old(extra)@.refs.asked(), ..old(extra)@ }),
            final(extra)@.refs.wf(),
    {
        let mut code: Vec<Instr> = Vec::new();
        emit(&mut code, InstrOf::StateToRef);
        assert(ops(code@) =~= seq![Op::StateToRef]);
        let step = extra.refs.ref_stack_pop();
        (code, step)
    }

    /// Copies the value behind a handle to the top of the reference thread and asks for a slot for
    /// the copy: what to do first, and the first step on the way to the slot.
    pub fn clone_ref(&self, extra: &mut ExtraData, lref: &LuaRef) -> (r: (Vec<Instr>, PopStep))
        requires
            old(extra)@.refs.wf(),
            old(extra)@.refs.live(lref.index),
        ensures
            ops(r.0@) == clone_ref_ops(lref.index),
            r.1 == old(extra)@.refs.asked_step(),
            final(extra)@ == (ExtraView { refs: old(extra)@.refs.asked(), ..old(extra)@ }),
            final(extra)@.refs.wf(),
    {
        let mut code: Vec<Instr> = Vec::new();
        emit(&mut code, InstrOf::RefPushValue(lref.index));
        assert(ops(code@) =~= clone_ref_ops(lref.index));
        let step = extra.refs.ref_stack_pop();
        (code, step)
    }

    /// Drops a reference: its slot is free again, and is to be overwritten with nil.
    pub fn drop_ref(&self, extra: &mut ExtraData, lref: &LuaRef) -> (steps: Vec<Instr>)
        requires
            old(extra)@.refs.wf(),
            old(extra)@.refs.live(lref.index),
        ensures
            ops(steps@) == drop_ref_ops(lref.index),
            final(extra)@ == (ExtraView {
                refs: old(extra)@.refs.dropped(lref.index),
                ..old(extra)@
            }),
            final(extra)@.refs.wf(),
    {
        let mut code: Vec<Instr> = Vec::new();
        emit(&mut code, InstrOf::RefPushNil);
        emit(&mut code, InstrOf::RefReplace(lref.index));
        assert(ops(code@) =~= drop_ref_ops(lref.index));
        extra.refs.drop_ref(*lref);
        code
    }

    /// Decides how the top of the stack is taken off as a value. Of userdata, a wrapped error is
    /// unwrapped, a wrapped panic is resumed (once), and everything else is kept behind a handle.
    pub fn pop_value(&self, top: Top) -> (action: PopAction)
        ensures
            action == top.popped(),
    {
        match top {
            Top::Nil => PopAction::Take(Value::Nil),
            Top::Boolean(b) => PopAction::Take(Value::Boolean(b != 0)),
            Top::LightUserData(ud) => PopAction::Take(Value::LightUserData(ud)),
            Top::Number { is_integer, integer, number } => {
                if is_integer != 0 {
                    PopAction::Take(Value::Integer(integer))
                } else {
                    PopAction::Take(Value::Number(number))
                }
            },
            Top::String => PopAction::Pin(RefKind::String),
            Top::Table => PopAction::Pin(RefKind::Table),
            Top::Function => PopAction::Pin(RefKind::Function),
            Top::UserData { wrapped_error, wrapped_panic } => {
                if let Some(err) = wrapped_error {
                    PopAction::Take(Value::Error(err))
                } else if let Some(pending) = wrapped_panic {
                    if pending {
                        PopAction::Resume
                    } else {
                        // Previously resumed panic?
                        PopAction::Take(Value::Nil)
                    }
                } else {
                    PopAction::Pin(RefKind::UserData)
                }
            },
            Top::Thread => PopAction::Pin(RefKind::Thread),
        }
    }
}

/// Whether `top` is what the embedder reads of a value in the model.
pub open spec fn sees(top: Top, val: Val) -> bool {
    match val {
        Val::Nil => top == Top::Nil,
        Val::Boolean(b) => top matches Top::Boolean(t) && b == (t != 0),
        Val::LightUserData(p) => top == Top::LightUserData(p),
        Val::Integer(i) => top matches Top::Number { is_integer, integer, .. } && is_integer != 0
            && integer == i,
        Val::Number(n) => top matches Top::Number { is_integer, number, .. } && is_integer == 0
            && number == n,
        Val::Error(e) => top matches Top::UserData { wrapped_error, .. } && wrapped_error == Some(
            e,
        ),
        _ => match val.kind() {
            Some(RefKind::String) => top == Top::String,
            Some(RefKind::Table) => top == Top::Table,
            Some(RefKind::Function) => top == Top::Function,
            Some(RefKind::Thread) => top == Top::Thread,
            Some(RefKind::UserData) => top == (Top::UserData {
                wrapped_error: None,
                wrapped_panic: None,
            }),
            None => false,
        },
    }
}

/// The value in the model that a value of the embedding stands for.
pub open spec fn denoted(m: Machine, value: Value) -> Val {
    match value {
        Value::Nil => Val::Nil,
        Value::Boolean(b) => Val::Boolean(b),
        Value::LightUserData(p) => Val::LightUserData(p),
        Value::Integer(i) => Val::Integer(i),
        Value::Number(n) => Val::Number(n),
        Value::Error(e) => Val::Error(e),
        Value::String(r) => m.refs[r.index - 1],
        Value::Table(r) => m.refs[r.index - 1],
        Value::Function(r) => m.refs[r.index - 1],
        Value::Thread(r) => m.refs[r.index - 1],
        Value::UserData(r) => m.refs[r.index - 1],
    }
}

/// A value that can be pushed: its handle, if it has one, is to a slot that there is.
pub open spec fn pushable(m: Machine, value: Value) -> bool {
    value.handle() matches Some(r) ==> 0 < r.index <= m.refs.len()
}

/// Pushing a value puts what it stands for on the stack and changes nothing else.
pub proof fn law_push_value(m: Machine, value: Value)
    requires
        pushable(m, value),
    ensures
        m.run(push_ops(value)) == Some(m.push(denoted(m, value))),
{
    let code = push_ops(value);
    let end = m.push(denoted(m, value));
    match value.handle() {
        Some(r) => {
            let pushed = m.refs.push(m.refs[r.index - 1]);
            assert(pushed.drop_last() =~= m.refs);
            assert(code == push_ref_ops(r.index));
            lemma_pair(m, code, Machine { refs: pushed, ..m }, end);
        },
        None => {
            assert(code.len() == 1);
            assert(code =~= seq![code[0]]);
            lemma_single(m, code[0], end);
        },
    }
}

/// What is on the stack once a value was pushed: the value itself if it needs no handle, and else what
/// is in the slot of its handle. Everything else is as it was.
pub proof fn law_pushed_values(m: Machine, b: bool, p: u64, i: i64, n: u64, r: LuaRef)
    requires
        0 < r.index <= m.refs.len(),
    ensures
        m.run(push_ops(Value::Nil)) == Some(m.push(Val::Nil)),
        m.run(push_ops(Value::Boolean(b))) == Some(m.push(Val::Boolean(b))),
        m.run(push_ops(Value::LightUserData(p))) == Some(m.push(Val::LightUserData(p))),
        m.run(push_ops(Value::Integer(i))) == Some(m.push(Val::Integer(i))),
        m.run(push_ops(Value::Number(n))) == Some(m.push(Val::Number(n))),
        m.run(push_ops(Value::Error(p))) == Some(m.push(Val::Error(p))),
        m.run(push_ops(Value::String(r))) == Some(m.push(m.refs[r.index - 1])),
        m.run(push_ops(Value::Table(r))) == Some(m.push(m.refs[r.index - 1])),
        m.run(push_ops(Value::Function(r))) == Some(m.push(m.refs[r.index - 1])),
        m.run(push_ops(Value::Thread(r))) == Some(m.push(m.refs[r.index - 1])),
        m.run(push_ops(Value::UserData(r))) == Some(m.push(m.refs[r.index - 1])),
        m.run(push_ref_ops(r.index)) == Some(m.push(m.refs[r.index - 1])),
{
    law_push_value(m, Value::Nil);
    law_push_value(m, Value::Boolean(b));
    law_push_value(m, Value::LightUserData(p));
    law_push_value(m, Value::Integer(i));
    law_push_value(m, Value::Number(n));
    law_push_value(m, Value::Error(p));
    law_push_value(m, Value::String(r));
    law_push_value(m, Value::Table(r));
    law_push_value(m, Value::Function(r));
    law_push_value(m, Value::Thread(r));
    law_push_value(m, Value::UserData(r));
}

/// Taking off a value that was pushed gives the value back: itself if it is kept by value, else a
/// handle of the same kind.
pub proof fn law_push_pop(m: Machine, value: Value, top: Top)
    requires
        pushable(m, value),
        sees(top, denoted(m, value)),
        forall|kind: RefKind, lref: LuaRef|
            value == #[trigger] Value::of_kind(kind, lref) ==> denoted(m, value).kind() == Some(
                kind,
            ),
    ensures
        value.handle() is None ==> top.popped() == PopAction::Take(value),
        forall|kind: RefKind, lref: LuaRef|
            value == #[trigger] Value::of_kind(kind, lref) ==> top.popped() == PopAction::Pin(kind),
{
    match value {
        Value::String(r) => assert(value == Value::of_kind(RefKind::String, r)),
        Value::Table(r) => assert(value == Value::of_kind(RefKind::Table, r)),
        Value::Function(r) => assert(value == Value::of_kind(RefKind::Function, r)),
        Value::Thread(r) => assert(value == Value::of_kind(RefKind::Thread, r)),
        Value::UserData(r) => assert(value == Value::of_kind(RefKind::UserData, r)),
        _ => {},
    }
}

/// Of userdata on top of the stack, an error that is wrapped in it is taken off as that error, a panic
/// that is still to be resumed is resumed, a panic that was resumed before is nil, and all other
/// userdata are kept behind handles. Values that need no handle are taken off as they are.
pub proof fn law_taken_off(
    error: u64,
    panic: Option<bool>,
    b: i32,
    pointer: u64,
    flag: i32,
    i: i64,
    n: u64,
)
    ensures
        (Top::UserData { wrapped_error: Some(error), wrapped_panic: panic }).popped()
            == PopAction::Take(Value::Error(error)),
        (Top::UserData { wrapped_error: None, wrapped_panic: Some(true) }).popped()
            == PopAction::Resume,
        (Top::UserData { wrapped_error: None, wrapped_panic: Some(false) }).popped()
            == PopAction::Take(Value::Nil),
        (Top::UserData { wrapped_error: None, wrapped_panic: None }).popped() == PopAction::Pin(
            RefKind::UserData,
        ),
        Top::Nil.popped() == PopAction::Take(Value::Nil),
        Top::Boolean(b).popped() == PopAction::Take(Value::Boolean(b != 0)),
        Top::LightUserData(pointer).popped() == PopAction::Take(Value::LightUserData(pointer)),
        flag != 0 ==> (Top::Number { is_integer: flag, integer: i, number: n }).popped()
            == PopAction::Take(Value::Integer(i)),
        (Top::Number { is_integer: 0, integer: i, number: n }).popped() == PopAction::Take(
            Value::Number(n),
        ),
        Top::String.popped() == PopAction::Pin(RefKind::String),
        Top::Table.popped() == PopAction::Pin(RefKind::Table),
        Top::Function.popped() == PopAction::Pin(RefKind::Function),
        Top::Thread.popped() == PopAction::Pin(RefKind::Thread),
{
}

/// The reference thread holds a slot for each slot in the records.
pub open spec fn slots_match(m: Machine, slots: RefSlots) -> bool {
    m.refs.len() == slots.top
}

/// Instructions that put the value that was moved to the top of the reference thread into the slot
/// that a step gives; none while the slot is not settled.
pub open spec fn settle_ops(step: PopStep) -> Option<Seq<Op>> {
    match step {
        PopStep::Replace { index } => Some(seq![InstrOf::RefReplace(index)]),
        PopStep::Fresh { .. } => Some(Seq::empty()),
        PopStep::Exhausted { .. } => Some(seq![InstrOf::RefPop(1)]),
        PopStep::Grow { .. } => None,
    }
}

/// Instructions that overwrite a slot when its reference is dropped.
pub open spec fn drop_ref_ops(index: i32) -> Seq<Op> {
    seq![InstrOf::RefPushNil, InstrOf::RefReplace(index)]
}

/// Instructions that copy the value behind a handle to the top of the reference thread.
pub open spec fn clone_ref_ops(index: i32) -> Seq<Op> {
    seq![InstrOf::RefPushValue(index)]
}

/// Decides what is done on the reference thread for a step; nothing while the slot is not settled.
pub fn settle_steps(step: PopStep) -> (steps: Option<Vec<Instr>>)
    ensures
        match steps {
            Some(code) => settle_ops(step) == Some(ops(code@)),
            None => settle_ops(step) is None,
        },
{
    let mut code: Vec<Instr> = Vec::new();
    match step {
        PopStep::Replace { index } => {
            emit(&mut code, InstrOf::RefReplace(index));
            assert(ops(code@) =~= seq![InstrOf::RefReplace(index)]);
        },
        PopStep::Fresh { .. } => {
            assert(ops(code@) =~= Seq::empty());
        },
        PopStep::Exhausted { .. } => {
            emit(&mut code, InstrOf::RefPop(1));
            assert(ops(code@) =~= seq![InstrOf::RefPop(1)]);
        },
        PopStep::Grow { .. } => {
            return None;
        },
    }
    Some(code)
}

/// Machine after the top of the stack was moved into the slot that `step` gives.
pub open spec fn pinned(m: Machine, step: PopStep) -> Option<Machine> {
    match settle_ops(step) {
        Some(code) => m.run(seq![InstrOf::StateToRef] + code),
        None => None,
    }
}

/// The slot that a step gives.
pub open spec fn given_slot(step: PopStep) -> Option<i32> {
    match step {
        PopStep::Replace { index } => Some(index),
        PopStep::Fresh { index } => Some(index),
        _ => None,
    }
}

/// Slots and step at which a request for a slot ends, if Lua answers questions for room by
/// `has_room`.
pub open spec fn request_end(slots: RefSlots, has_room: spec_fn(int) -> bool) -> (
    RefSlots,
    PopStep,
) {
    slots.asked().settled(slots.asked_step(), has_room)
}

proof fn lemma_request_end(slots: RefSlots, has_room: spec_fn(int) -> bool)
    requires
        slots.wf(),
        forall|inc: int| #[trigger] has_room(inc) ==> slots.size + inc <= i32::MAX,
    ensures
        ({
            let (after, step) = request_end(slots, has_room);
            match step {
                PopStep::Replace { index } => {
                    &&& slots.free.len() > 0
                    &&& index == slots.free.last()
                    &&& after.top == slots.top
                },
                PopStep::Fresh { index } => {
                    &&& index == slots.top + 1
                    &&& after.top == slots.top + 1
                },
                PopStep::Exhausted { .. } => after == slots,
                PopStep::Grow { .. } => false,
            }
        }),
{
    if slots.free.len() == 0 && slots.top >= slots.size {
        law_growth(slots, has_room);
        lemma_growth_is_met(slots.size, has_room);
    }
}

/// Growth is by as much as Lua has room for.
pub proof fn lemma_growth_is_met(inc: int, has_room: spec_fn(int) -> bool)
    ensures
        largest_growth(inc, has_room) matches Some(found) ==> found > 0 && has_room(found),
    decreases inc,
{
    if inc > 0 && !has_room(inc) {
        lemma_growth_is_met(inc / 2, has_room);
    }
}

/// A value that was moved into a slot of the reference thread is what the handle to the slot
/// stands for from then on; the values behind all other handles stay, and the records still match
/// the reference thread. If no slot is to be had the value is gone and nothing else has changed.
pub proof fn law_pinned_value_is_kept(
    m: Machine,
    slots: RefSlots,
    has_room: spec_fn(int) -> bool,
)
    requires
        slots.wf(),
        slots_match(m, slots),
        m.height() > 0,
        forall|inc: int| #[trigger] has_room(inc) ==> slots.size + inc <= i32::MAX,
    ensures
        ({
            let (after, step) = request_end(slots, has_room);
            &&& pinned(m, step) is Some
            &&& (pinned(m, step)->0).stack == m.stack.drop_last()
            &&& slots_match(pinned(m, step)->0, after)
            &&& given_slot(step) matches Some(index) ==> (pinned(m, step)->0).refs[index - 1]
                == m.top()
            &&& given_slot(step) is None ==> (pinned(m, step)->0).refs == m.refs && after == slots
            &&& forall|i: i32| #[trigger]
                slots.live(i) ==> (pinned(m, step)->0).refs[i - 1] == m.refs[i - 1]
        }),
{
    let (after, step) = request_end(slots, has_room);
    lemma_request_end(slots, has_room);
    let code = seq![InstrOf::StateToRef] + (settle_ops(step)->0);
    let moved = Machine { refs: m.refs.push(m.top()), ..m.pop(1) };
    assert(code[0] == Op::StateToRef);
    assert(moved.stack =~= m.stack.drop_last());
    assert(moved.refs.drop_last() =~= m.refs);
    match step {
        PopStep::Replace { index } => {
            assert(slots.free[slots.free.len() - 1] == index);
            assert(slots.free.contains(index));
            assert(code.len() == 2 && code[1] == Op::RefReplace(index));
            lemma_pair(m, code, moved, moved.step(code[1])->0);
        },
        PopStep::Exhausted { .. } => {
            assert(code.len() == 2 && code[1] == Op::RefPop(1));
            lemma_pair(m, code, moved, moved.step(code[1])->0);
            assert(moved.refs.take(moved.refs.len() - 1) =~= m.refs);
        },
        _ => {
            assert(code =~= seq![code[0]]);
            lemma_single(m, code[0], moved);
        },
    }
}

/// The handle that cloning a handle gives stands for the same value, and the values behind all
/// handles stay.
pub proof fn law_cloned_handle(
    m: Machine,
    slots: RefSlots,
    lref: LuaRef,
    has_room: spec_fn(int) -> bool,
)
    requires
        slots.wf(),
        slots_match(m, slots),
        slots.live(lref.index),
        forall|inc: int| #[trigger] has_room(inc) ==> slots.size + inc <= i32::MAX,
    ensures
        ({
            let (after, step) = request_end(slots, has_room);
            let end = m.run(clone_ref_ops(lref.index) + (settle_ops(step)->0));
            &&& settle_ops(step) is Some
            &&& end is Some
            &&& (end->0).stack == m.stack
            &&& slots_match(end->0, after)
            &&& given_slot(step) matches Some(index) ==> (end->0).refs[index - 1]
                == m.refs[lref.index - 1]
            &&& forall|i: i32| #[trigger]
                slots.live(i) ==> (end->0).refs[i - 1] == m.refs[i - 1]
        }),
{
    let (after, step) = request_end(slots, has_room);
    lemma_request_end(slots, has_room);
    let code = clone_ref_ops(lref.index) + (settle_ops(step)->0);
    let copied = Machine { refs: m.refs.push(m.refs[lref.index - 1]), ..m };
    assert(code[0] == Op::RefPushValue(lref.index));
    assert(copied.refs.drop_last() =~= m.refs);
    match step {
        PopStep::Replace { index } => {
            assert(slots.free[slots.free.len() - 1] == index);
            assert(slots.free.contains(index));
            assert(code.len() == 2 && code[1] == Op::RefReplace(index));
            lemma_pair(m, code, copied, copied.step(code[1])->0);
        },
        PopStep::Exhausted { .. } => {
            assert(code.len() == 2 && code[1] == Op::RefPop(1));
            lemma_pair(m, code, copied, copied.step(code[1])->0);
            assert(copied.refs.take(copied.refs.len() - 1) =~= m.refs);
        },
        _ => {
            assert(code =~= seq![code[0]]);
            lemma_single(m, code[0], copied);
        },
    }
}

/// Dropping a reference clears its slot and leaves the values behind all other handles alone.
pub proof fn law_dropped_slot_is_cleared(m: Machine, slots: RefSlots, index: i32)
    requires
        slots.wf(),
        slots_match(m, slots),
        slots.live(index),
    ensures
        ({
            &&& m.run(drop_ref_ops(index)) is Some
            &&& (m.run(drop_ref_ops(index))->0).refs == m.refs.update(index - 1, Val::Nil)
            &&& (m.run(drop_ref_ops(index))->0).stack == m.stack
            &&& slots_match(m.run(drop_ref_ops(index))->0, slots.dropped(index))
        }),
{
    let pushed = Machine { refs: m.refs.push(Val::Nil), ..m };
    assert(pushed.refs.drop_last() =~= m.refs);
    lemma_pair(
        m,
        drop_ref_ops(index),
        pushed,
        Machine { refs: m.refs.update(index - 1, Val::Nil), ..m },
    );
}

} // verus!
