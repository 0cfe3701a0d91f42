use vstd::prelude::*;

use crate::create::making;
use crate::error::{refused, Error, ErrorOf, ErrorView};
use crate::lua::Lua;
use crate::machine::{
    callback_function, emit, lemma_done, lemma_next, lemma_run_concat, lemma_single, ops,
    CFunction, CallKind, Callback, GcValue, Instr, InstrOf, Machine, Op, Outcome, Plan,
    PlanView, Val,
};
use crate::refs::LUA_MINSTACK;
use crate::stack::{denoted, law_push_value, push_ops, pushable};
use crate::value::{MultiValue, RefKind, Value};

verus! {

/// What a function of the embedder answers to Lua: how many values on top of the stack are its
/// results once the instructions have been run.
#[derive(Debug, PartialEq, Eq)]
pub struct Answer {
    pub steps: Vec<Instr>,
    pub count: i32,
}

/// Instructions that make a closure over a value of the embedder and the state.
pub open spec fn closure_ops(value: GcValue, function: CFunction) -> Seq<Op> {
    seq![
        InstrOf::PushGcUserdata(value),
        InstrOf::PushGcUserdata(GcValue::Lua),
        InstrOf::PushRClosure(function, 2),
    ]
}

/// The plan that makes a function out of a callback.
pub open spec fn callback_plan(c: Callback) -> PlanView {
    making(
        seq![Op::CheckStack(5)] + closure_ops(GcValue::Callback(c), CFunction::CallCallback),
        RefKind::Function,
    )
}

/// Instructions that push values in order.
pub open spec fn push_all_ops(values: Seq<Value>) -> Seq<Op>
    decreases values.len(),
{
    if values.len() == 0 {
        Seq::empty()
    } else {
        push_all_ops(values.drop_last()) + push_ops(values.last())
    }
}

/// Instructions that return results.
pub open spec fn return_ops(values: Seq<Value>) -> Seq<Op> {
    seq![Op::CheckStack(values.len() as i32)] + push_all_ops(values)
}

/// Adds the instructions that make a closure over a value of the embedder and the state.
pub fn push_closure(steps: &mut Vec<Instr>, value: GcValue, function: CFunction)
    ensures
        ops(final(steps)@) == ops(old(steps)@) + closure_ops(value, function),
{
    let ghost before = ops(steps@);
    emit(steps, InstrOf::PushGcUserdata(value));
    emit(steps, InstrOf::PushGcUserdata(GcValue::Lua));
    emit(steps, InstrOf::PushRClosure(function, 2));
    assert(ops(steps@) =~= before + closure_ops(value, function));
}

impl Lua {
    /// Creates a function out of a callback.
    pub fn create_callback(&self, c: Callback) -> (plan: Plan)
        ensures
            plan@.steps[0] == Op::CheckStack(5),
            plan.outcome == Outcome::Reference(RefKind::Function),
            plan.guard == Some(0usize),
            plan@ == callback_plan(c),
    {
        let mut steps: Vec<Instr> = Vec::new();
        emit(&mut steps, InstrOf::CheckStack(5));
        push_closure(&mut steps, GcValue::Callback(c), CFunction::CallCallback);
        assert(ops(steps@) =~= callback_plan(c).steps);
        Plan { steps, outcome: Outcome::Reference(RefKind::Function), guard: Some(0) }
    }

    /// Creates a function out of a function that shares nothing mutable.
    pub fn create_function(&self, id: u64) -> (plan: Plan)
        ensures
            plan@ == callback_plan(Callback { kind: CallKind::Function, id }),
    {
        self.create_callback(Callback { kind: CallKind::Function, id })
    }

    /// Creates a function out of a mutable closure.
    pub fn create_function_mut(&self, id: u64) -> (plan: Plan)
        ensures
            plan@ == callback_plan(Callback { kind: CallKind::ClosureMut, id }),
    {
        self.create_callback(Callback { kind: CallKind::ClosureMut, id })
    }

    /// The handle that a callback works with when it is called in a state.
    pub fn entered(self, state: u64) -> (lua: Lua)
        ensures
            lua == (Lua { state, ..self }),
    {
        Lua { state, ..self }
    }

    /// Begins a call of a callback or of a future, given whether the callback and the handle that
    /// the function was made of are gone, and the number of arguments: what to do before the
    /// arguments are taken off the stack.
    pub fn begin_call(value_gone: bool, lua_gone: bool, nargs: i32) -> (r: Result<
        Vec<Instr>,
        Error,
    >)
        requires
            0 <= nargs,
        ensures
            if value_gone || lua_gone {
                refused(r, ErrorView::CallbackDestructed)
            } else {
                r is Ok && ops(r->Ok_0@) == (if nargs < LUA_MINSTACK {
                    seq![Op::CheckStack((LUA_MINSTACK - nargs) as i32)]
                } else {
                    Seq::empty()
                })
            },
            !value_gone && !lua_gone && nargs < 20 ==> ops(r->Ok_0@) == seq![
                Op::CheckStack((20 - nargs) as i32),
            ],
            !value_gone && !lua_gone && nargs >= 20 ==> ops(r->Ok_0@) == Seq::<Op>::empty(),
    {
        if value_gone || lua_gone {
            return Err(ErrorOf::CallbackDestructed);
        }
        let mut steps: Vec<Instr> = Vec::new();
        if nargs < LUA_MINSTACK {
            emit(&mut steps, InstrOf::CheckStack(LUA_MINSTACK - nargs));
            assert(ops(steps@) =~= seq![Op::CheckStack((LUA_MINSTACK - nargs) as i32)]);
        } else {
            assert(ops(steps@) =~= Seq::empty());
        }
        Ok(steps)
    }

    /// The arguments of a call, given the values in the order in which they were taken off the
    /// stack.
    pub fn arguments<T>(popped: Vec<T>) -> (args: Vec<T>)
        ensures
            args@ == popped@.reverse(),
    {
        let ghost all = popped@;
        let mut popped = popped;
        let mut args: Vec<T> = Vec::new();
        assert(args@ =~= all.skip(all.len() as int).reverse());
        while popped.len() > 0
            invariant
                popped@.len() <= all.len(),
                popped@ == all.take(popped@.len() as int),
                args@ == all.skip(popped@.len() as int).reverse(),
            decreases popped@.len(),
        {
            let ghost n = popped@.len() as int;
            if let Some(value) = popped.pop() {
                assert(value == all[n - 1]);
                args.push(value);
                assert(popped@ =~= all.take(n - 1));
                assert(args@ =~= all.skip(n - 1).reverse());
            }
        }
        assert(all.skip(0) =~= all);
        args
    }

    /// Returns the results of a callback to Lua.
    pub fn results(&self, results: &MultiValue) -> (answer: Answer)
        requires
            results@.len() <= i32::MAX,
            forall|i: int|
                0 <= i < results@.len() ==> (#[trigger] results@[i]).owned_by(self.extra),
        ensures
            ops(answer.steps@) == return_ops(results@),
            ops(answer.steps@)[0] == Op::CheckStack(results@.len() as i32),
            answer.count == results@.len(),
    {
        let nresults: i32 = results.len() as i32;
        let mut steps: Vec<Instr> = Vec::new();
        emit(&mut steps, InstrOf::CheckStack(nresults));
        let ghost first = seq![Op::CheckStack(nresults)];
        assert(ops(steps@) =~= first + push_all_ops(results@.take(0)));
        let mut i: usize = 0;
        while i < results.len()
            invariant
                i <= results@.len(),
                forall|i: int|
                    0 <= i < results@.len() ==> (#[trigger] results@[i]).owned_by(self.extra),
                ops(steps@) == first + push_all_ops(results@.take(i as int)),
            decreases results@.len() - i,
        {
            let value = results.get(i);
            self.push_value(&mut steps, value);
            proof {
                let next = results@.take(i + 1);
                assert(next.drop_last() =~= results@.take(i as int));
                assert(next.last() == value);
                assert(ops(steps@) =~= first + push_all_ops(next));
            }
            i = i + 1;
        }
        assert(results@.take(results@.len() as int) =~= results@);
        Answer { steps, count: nresults }
    }
}

/// The values in the model that values stand for.
pub open spec fn all_denoted(m: Machine, values: Seq<Value>) -> Seq<Val> {
    values.map_values(|v: Value| denoted(m, v))
}

proof fn lemma_push_all(m: Machine, values: Seq<Value>)
    requires
        forall|i: int| 0 <= i < values.len() ==> pushable(m, #[trigger] values[i]),
    ensures
        m.run(push_all_ops(values)) == Some(
            Machine { stack: m.stack + all_denoted(m, values), ..m },
        ),
    decreases values.len(),
{
    if values.len() == 0 {
        assert(m.stack + all_denoted(m, values) =~= m.stack);
        lemma_done(m, push_all_ops(values), 0);
    } else {
        let rest = values.drop_last();
        let last = values.last();
        assert(values[values.len() - 1] == last);
        assert forall|i: int| 0 <= i < rest.len() implies pushable(m, #[trigger] rest[i]) by {
            assert(rest[i] == values[i]);
        }
        lemma_push_all(m, rest);
        lemma_run_concat(m, push_all_ops(rest), push_ops(last));
        let mid = Machine { stack: m.stack + all_denoted(m, rest), ..m };
        law_push_value(mid, last);
        assert(mid.push(denoted(m, last)).stack =~= m.stack + all_denoted(m, values));
    }
}

/// Results end up on top of the stack in order, one value for each, and nothing else has changed.
pub proof fn law_results_in_order(m: Machine, values: Seq<Value>)
    requires
        m.roomy(),
        forall|i: int| 0 <= i < values.len() ==> pushable(m, #[trigger] values[i]),
    ensures
        m.run(return_ops(values)) == Some(
            Machine { stack: m.stack + all_denoted(m, values), ..m },
        ),
        ({
            let after = m.run(return_ops(values))->0;
            &&& after.height() == m.height() + values.len()
            &&& after.stack.take(m.height()) == m.stack
            &&& forall|i: int|
                0 <= i < values.len() ==> after.stack[m.height() + i] == denoted(
                    m,
                    #[trigger] values[i],
                )
        }),
{
    assert((m.stack + all_denoted(m, values)).take(m.height()) =~= m.stack);
    let first: Seq<Op> = seq![InstrOf::CheckStack(values.len() as i32)];
    lemma_run_concat(m, first, push_all_ops(values));
    lemma_single(m, first[0], m);
    lemma_push_all(m, values);
}

/// Arguments come in the order in which they were pushed: if `popped` is what was taken off a stack
/// that values were pushed on, the top first, then the arguments stand for the values.
pub proof fn law_arguments_in_order(m: Machine, values: Seq<Value>, popped: Seq<Value>)
    requires
        m.roomy(),
        forall|i: int| 0 <= i < values.len() ==> pushable(m, #[trigger] values[i]),
        popped.len() == values.len(),
        ({
            let stack = (m.run(return_ops(values))->0).stack;
            forall|i: int|
                0 <= i < popped.len() ==> denoted(m, #[trigger] popped[i]) == stack[stack.len() - 1
                    - i]
        }),
    ensures
        all_denoted(m, popped.reverse()) == all_denoted(m, values),
{
    law_results_in_order(m, values);
    let stack = (m.run(return_ops(values))->0).stack;
    assert(stack =~= m.stack + all_denoted(m, values));
    assert forall|i: int| 0 <= i < values.len() implies all_denoted(m, popped.reverse())[i]
        == #[trigger] all_denoted(m, values)[i] by {
        let k = values.len() - 1 - i;
        assert(denoted(m, popped[k]) == stack[stack.len() - 1 - k]);
    }
    assert(all_denoted(m, popped.reverse()) =~= all_denoted(m, values));
}

/// A function made out of a synchronous callback is the closure that pushing the callback pushes.
pub proof fn law_callback_function(m: Machine, c: Callback)
    requires
        m.roomy(),
        !c.kind.asynchronous(),
    ensures
        m.run(callback_plan(c).steps) == Some(m.push(callback_function(c))),
        m.run(seq![Op::PushCallback(c)]) == Some(m.push(callback_function(c))),
{
    let code = callback_plan(c).steps;
    lemma_single(m, Op::PushCallback(c), m.push(callback_function(c)));
    let m1 = m.push(Val::Gc(GcValue::Callback(c)));
    lemma_next(m, code, 0, m);
    lemma_next(m, code, 1, m1);
    let m2 = m1.push(Val::Gc(GcValue::Lua));
    lemma_next(m1, code, 2, m2);
    let m3 = m.push(callback_function(c));
    assert(m2.stack.take(m2.height() - 2) =~= m.stack);
    assert(m2.stack.skip(m2.height() - 2) =~= seq![
        Val::Gc(GcValue::Callback(c)),
        Val::Gc(GcValue::Lua),
    ]);
    lemma_next(m2, code, 3, m3);
    lemma_done(m3, code, 4);
}

} // verus!
