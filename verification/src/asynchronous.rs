use vstd::prelude::*;
use vstd::string::*;

use crate::callback::{callback_plan, closure_ops, push_closure, Answer};
use crate::chunk::{accepted_mode, binary, load_chunk_plan, signature, ChunkView};
use crate::construct::{globals_instr, globals_op, load_plan, LoadPlan};
use crate::create::{holding, law_sequence_from, making, sequence_of, sequence_plan};
use crate::error::{refused, Error};
use crate::lua::{ExtraData, Lua};
use crate::machine::{
    emit, field, globals, lemma_done, lemma_next, lemma_pair, ops, Builtin, CFunction, CallKind,
    Callback, GcValue, Index, Instr, InstrOf, LoadMode, Machine, Op, Outcome, Plan, PlanView, Val,
};
use crate::stack::{denoted, push_ref_ops, pushable};
use crate::startup::{globals_found, lemma_field_pushed, lemma_globals_pushed};
use crate::stdlib::{Library, StdLib};
use crate::value::{LuaRef, MultiValue, RefKind, Value};
use crate::version::Version;

use core::task::Waker;

verus! {

/// The handle by which a future says that it can be polled again.
#[verifier::external_type_specification]
#[verifier::external_body]
pub struct ExWaker(core::task::Waker);

/// `futures_task::noop_waker` makes a waker that does nothing when it is woken. What waking does is
/// not modelled, so nothing is claimed of the result.
#[verifier::external_body]
fn noop_waker() -> (waker: Waker) {
    futures_task::noop_waker()
}

/// Where a future stands after it was polled.
#[derive(Debug)]
pub enum Polled {
    Pending,
    Ready(Result<MultiValue, Error>),
}

/// How a poll is answered.
#[derive(Debug, PartialEq, Eq)]
pub enum PollStep {
    /// By this.
    Answer(Answer),
    /// By a table of the results; see `Lua::poll_answer`.
    MakeTable { table: Plan, nresults: usize },
}

/// Work that makes the first part of an asynchronous function.
#[derive(Debug, PartialEq, Eq)]
pub struct AsyncPlan {
    /// Loads the module `coroutine`, which the function needs.
    pub load: Option<LoadPlan>,
    /// Makes the function that starts the future.
    pub get_poll: Plan,
}

/// Work that makes the function that calls a callback.
#[derive(Debug, PartialEq, Eq)]
pub enum CallbackPlan {
    /// The callback is synchronous.
    Function(Plan),
    /// The callback is asynchronous; this is the first part.
    AsyncFunction(AsyncPlan),
}

/// The plan that makes the function that starts a future.
pub open spec fn get_poll_plan(c: Callback) -> PlanView {
    making(
        seq![Op::CheckStack(5)] + closure_ops(
            GcValue::AsyncCallback(c),
            CFunction::CallAsyncCallback,
        ),
        RefKind::Function,
    )
}

/// The plan that gets `coroutine.yield`.
pub open spec fn yield_plan(version: Version) -> PlanView {
    making(
        seq![
            Op::CheckStack(4),
            globals_op(version),
            Op::GetField(Index::FromTop(1), "coroutine".spec_bytes()),
            Op::Expect(RefKind::Table),
            Op::GetField(Index::FromTop(1), "yield".spec_bytes()),
            Op::Expect(RefKind::Function),
        ],
        RefKind::Function,
    )
}

/// The plan that makes the environment of the driver.
pub open spec fn environment_plan(get_poll: LuaRef, yielding: LuaRef, pending: u64) -> PlanView {
    making(
        seq![Op::CheckStack(4), Op::CreateTable(0, 4)] + push_ref_ops(get_poll.index) + seq![
            Op::SetField(Index::FromTop(2), "get_poll".spec_bytes()),
        ] + push_ref_ops(yielding.index) + seq![
            Op::SetField(Index::FromTop(2), "yield".spec_bytes()),
            Op::PushBuiltin(Builtin::Unpack),
            Op::SetField(Index::FromTop(2), "unpack".spec_bytes()),
            Op::PushLightUserData(pending),
            Op::SetField(Index::FromTop(2), "pending".spec_bytes()),
        ],
        RefKind::Table,
    )
}

/// The text of the driver, which polls until the future is ready and yields in between.
pub open spec fn driver_text() -> &'static str {
    "
            poll = get_poll(...)
            local poll, pending, yield, unpack = poll, pending, yield, unpack
            while true do
                local ready, res, nres = poll()
                if ready then
                    return unpack(res, nres)
                end
                yield(pending)
            end
            "
}

/// The chunk of the driver.
pub open spec fn driver_chunk(lua: Lua, env: LuaRef) -> ChunkView {
    ChunkView {
        lua,
        source: driver_text().spec_bytes(),
        name: Some("_mlua_async_poll".spec_bytes()),
        env: Some(Value::Table(env)),
        mode: None,
    }
}

/// Instructions that answer that a future is pending.
pub open spec fn pending_ops() -> Seq<Op> {
    seq![Op::CheckStack(1), Op::PushBoolean(0)]
}

/// Instructions that answer that a future is ready, with the table and the number of its results.
pub open spec fn ready_ops(table: LuaRef, nresults: i64) -> Seq<Op> {
    seq![Op::CheckStack(3), Op::PushBoolean(1)] + push_ref_ops(table.index) + seq![
        Op::PushInteger(nresults),
    ]
}

proof fn lemma_driver_name()
    ensures
        !"_mlua_async_poll".spec_bytes().contains(0),
{
    reveal_strlit("_mlua_async_poll");
    assert("_mlua_async_poll".is_ascii());
    is_ascii_spec_bytes("_mlua_async_poll");
    let bytes = "_mlua_async_poll".spec_bytes();
    assert forall|i: int| 0 <= i < bytes.len() implies bytes[i] != 0 by {
        assert(bytes[i] == "_mlua_async_poll"@[i] as u8);
    }
}

proof fn lemma_driver_begins_with_newline()
    ensures
        driver_text().spec_bytes().len() > 0,
        driver_text().spec_bytes()[0] == 0x0a,
{
    let text = driver_text();
    reveal_strlit(
        "
            poll = get_poll(...)
            local poll, pending, yield, unpack = poll, pending, yield, unpack
            while true do
                local ready, res, nres = poll()
                if ready then
                    return unpack(res, nres)
                end
                yield(pending)
            end
            ",
    );
    assert(text@[0] == '\n');
    assert(text.is_ascii());
    is_ascii_spec_bytes(text);
}

impl Lua {
    /// Begins an asynchronous function: the module `coroutine` is loaded if the version of Lua has
    /// it as a module of its own and it was not loaded before.
    pub fn create_async_callback(&self, extra: &mut ExtraData, c: Callback) -> (r: Result<
        AsyncPlan,
        Error,
    >)
        ensures
            r is Ok,
            r->Ok_0.get_poll@ == get_poll_plan(c),
            r->Ok_0.get_poll@.steps[0] == Op::CheckStack(5),
            r->Ok_0.get_poll.outcome == Outcome::Reference(RefKind::Function),
            r->Ok_0.get_poll.guard == Some(0usize),
            if self.version.modern() && !old(extra)@.libs.has(Library::Coroutine) {
                &&& r->Ok_0.load matches Some(load)
                &&& load.state == self.home()
                &&& load.load@ == load_plan(
                    self.version,
                    StdLib { bits: Library::Coroutine.mask() },
                )
                &&& load.disable_c_modules is None
                &&& final(extra)@ == old(extra)@.with_libs(
                    StdLib { bits: Library::Coroutine.mask() },
                )
            } else {
                r->Ok_0.load is None && final(extra)@ == old(extra)@
            },
    {
        let mut load: Option<LoadPlan> = None;
        if self.version.is_modern() && !extra.libs.contains_library(Library::Coroutine) {
            let libs = Library::Coroutine.flag();
            proof {
                assert(1u32 & 0x8000_0000u32 == 0) by (bit_vector);
                assert(1u32 & 0x4000_0000u32 == 0) by (bit_vector);
                assert(1u32 & 0x0000_0100u32 == 0) by (bit_vector);
                assert(!libs.has(Library::Debug));
                assert(!libs.has(Library::Ffi));
                assert(!libs.has(Library::Package));
            }
            match self.load_from_std_lib(extra, libs) {
                Ok(loading) => {
                    load = Some(loading);
                },
                Err(e) => {
                    return Err(e);
                },
            }
        }
        let mut steps: Vec<Instr> = Vec::new();
        emit(&mut steps, InstrOf::CheckStack(5));
        push_closure(&mut steps, GcValue::AsyncCallback(c), CFunction::CallAsyncCallback);
        assert(ops(steps@) =~= get_poll_plan(c).steps);
        Ok(
            AsyncPlan {
                load,
                get_poll: Plan {
                    steps,
                    outcome: Outcome::Reference(RefKind::Function),
                    guard: Some(0),
                },
            },
        )
    }

    /// Decides how the function that calls a callback is made.
    pub fn push_callback(&self, extra: &mut ExtraData, c: Callback) -> (r: Result<
        CallbackPlan,
        Error,
    >)
        ensures
            r is Ok,
            if c.kind.asynchronous() {
                &&& r->Ok_0 matches CallbackPlan::AsyncFunction(plan)
                &&& plan.get_poll@ == get_poll_plan(c)
                &&& if self.version.modern() && !old(extra)@.libs.has(Library::Coroutine) {
                    &&& plan.load matches Some(load)
                    &&& load.state == self.home()
                    &&& load.load@ == load_plan(
                        self.version,
                        StdLib { bits: Library::Coroutine.mask() },
                    )
                    &&& load.disable_c_modules is None
                    &&& final(extra)@ == old(extra)@.with_libs(
                        StdLib { bits: Library::Coroutine.mask() },
                    )
                } else {
                    plan.load is None && final(extra)@ == old(extra)@
                }
            } else {
                &&& r->Ok_0 matches CallbackPlan::Function(plan)
                &&& plan@ == callback_plan(c)
                &&& final(extra)@ == old(extra)@
            },
    {
        if c.kind.is_asynchronous() {
            match self.create_async_callback(extra, c) {
                Ok(plan) => Ok(CallbackPlan::AsyncFunction(plan)),
                Err(e) => Err(e),
            }
        } else {
            Ok(CallbackPlan::Function(self.create_callback(c)))
        }
    }

    /// Begins an asynchronous function out of a function that answers with a future.
    pub fn create_async_function(&self, extra: &mut ExtraData, id: u64) -> (r: Result<
        AsyncPlan,
        Error,
    >)
        ensures
            r is Ok,
            r->Ok_0.get_poll@ == get_poll_plan(Callback { kind: CallKind::AsyncFunction, id }),
            if self.version.modern() && !old(extra)@.libs.has(Library::Coroutine) {
                &&& r->Ok_0.load matches Some(load)
                &&& load.state == self.home()
                &&& load.load@ == load_plan(
                    self.version,
                    StdLib { bits: Library::Coroutine.mask() },
                )
                &&& load.disable_c_modules is None
                &&& final(extra)@ == old(extra)@.with_libs(
                    StdLib { bits: Library::Coroutine.mask() },
                )
            } else {
                r->Ok_0.load is None && final(extra)@ == old(extra)@
            },
    {
        self.create_async_callback(extra, Callback { kind: CallKind::AsyncFunction, id })
    }

    /// Makes the plan that gets `coroutine.yield`, with which an asynchronous function waits.
    pub fn async_yield(&self) -> (plan: Plan)
        ensures
            plan@.steps[0] == Op::CheckStack(4),
            plan.outcome == Outcome::Reference(RefKind::Function),
            plan.guard == Some(0usize),
            plan@ == yield_plan(self.version),
            plan@.steps == seq![
                Op::CheckStack(4),
                globals_op(self.version),
                Op::GetField(Index::FromTop(1), "coroutine".spec_bytes()),
                Op::Expect(RefKind::Table),
                Op::GetField(Index::FromTop(1), "yield".spec_bytes()),
                Op::Expect(RefKind::Function),
            ],
    {
        let mut steps: Vec<Instr> = Vec::new();
        emit(&mut steps, InstrOf::CheckStack(4));
        emit(&mut steps, globals_instr(self.version));
        emit(&mut steps, InstrOf::GetField(Index::FromTop(1), "coroutine".as_bytes_vec()));
        emit(&mut steps, InstrOf::Expect(RefKind::Table));
        emit(&mut steps, InstrOf::GetField(Index::FromTop(1), "yield".as_bytes_vec()));
        emit(&mut steps, InstrOf::Expect(RefKind::Function));
        assert(ops(steps@) =~= yield_plan(self.version).steps);
        Plan { steps, outcome: Outcome::Reference(RefKind::Function), guard: Some(0) }
    }

    /// Makes the plan for the environment of the driver: the function that starts the future,
    /// `coroutine.yield`, the function that spreads results, and the mark that is yielded.
    pub fn async_environment(&self, get_poll: &LuaRef, yielding: &LuaRef, pending: u64) -> (plan:
        Plan)
        requires
            get_poll.extra == self.extra,
            yielding.extra == self.extra,
        ensures
            plan@.steps[0] == Op::CheckStack(4),
            plan@ == environment_plan(*get_poll, *yielding, pending),
            plan.outcome == Outcome::Reference(RefKind::Table),
            plan.guard == Some(0usize),
    {
        let mut steps: Vec<Instr> = Vec::new();
        emit(&mut steps, InstrOf::CheckStack(4));
        emit(&mut steps, InstrOf::CreateTable(0, 4));
        self.push_ref(&mut steps, get_poll);
        emit(&mut steps, InstrOf::SetField(Index::FromTop(2), "get_poll".as_bytes_vec()));
        self.push_ref(&mut steps, yielding);
        emit(&mut steps, InstrOf::SetField(Index::FromTop(2), "yield".as_bytes_vec()));
        emit(&mut steps, InstrOf::PushBuiltin(Builtin::Unpack));
        emit(&mut steps, InstrOf::SetField(Index::FromTop(2), "unpack".as_bytes_vec()));
        emit(&mut steps, InstrOf::PushLightUserData(pending));
        emit(&mut steps, InstrOf::SetField(Index::FromTop(2), "pending".as_bytes_vec()));
        assert(ops(steps@) =~= environment_plan(*get_poll, *yielding, pending).steps);
        Plan { steps, outcome: Outcome::Reference(RefKind::Table), guard: Some(0) }
    }

    /// Makes the plan for the driver, which is the asynchronous function. The variable `poll` of the
    /// environment is set by it, so that what the function was made of can be destroyed.
    pub fn async_driver(&self, env: &LuaRef) -> (r: Result<Plan, Error>)
        requires
            env.extra == self.extra,
        ensures
            r is Ok && r->Ok_0@ == load_chunk_plan(driver_chunk(*self, *env)),
            r->Ok_0@ == load_chunk_plan(
                ChunkView {
                    lua: *self,
                    source: driver_text().spec_bytes(),
                    name: Some("_mlua_async_poll".spec_bytes()),
                    env: Some(Value::Table(*env)),
                    mode: None,
                },
            ),
    {
        let source = "
            poll = get_poll(...)
            local poll, pending, yield, unpack = poll, pending, yield, unpack
            while true do
                local ready, res, nres = poll()
                if ready then
                    return unpack(res, nres)
                end
                yield(pending)
            end
            ";
        proof {
            lemma_driver_name();
        }
        let chunk = match self.load(source.as_bytes()).set_name("_mlua_async_poll".as_bytes()) {
            Ok(chunk) => chunk,
            Err(e) => {
                return Err(e);
            },
        };
        let chunk = match chunk.set_environment(Ok(Value::Table(*env))) {
            Ok(chunk) => chunk,
            Err(e) => {
                return Err(e);
            },
        };
        Ok(chunk.into_function())
    }

    /// Answers a call of the function that starts a future: with a function that polls it.
    pub fn return_future(&self) -> (answer: Answer)
        ensures
            ops(answer.steps@) == closure_ops(GcValue::Future, CFunction::PollFuture),
            ops(answer.steps@) == seq![
                Op::PushGcUserdata(GcValue::Future),
                Op::PushGcUserdata(GcValue::Lua),
                Op::PushRClosure(CFunction::PollFuture, 2),
            ],
            answer.count == 1,
    {
        let mut steps: Vec<Instr> = Vec::new();
        push_closure(&mut steps, GcValue::Future, CFunction::PollFuture);
        assert(ops(steps@) =~= closure_ops(GcValue::Future, CFunction::PollFuture));
        Answer { steps, count: 1 }
    }

    /// The waker to poll a future with: the one that the outer executor has left, if there is one,
    /// else one that does nothing.
    pub fn poll_waker(outer: Option<Waker>) -> (waker: Waker)
        ensures
            outer matches Some(w) ==> waker == w,
    {
        match outer {
            Some(waker) => waker,
            None => noop_waker(),
        }
    }

    /// Decides how a poll is answered: a future that failed is an error, a pending one is false, and
    /// a ready one is true with a table of its results and their number.
    pub fn poll_future(&self, polled: Polled) -> (r: Result<PollStep, Error>)
        requires
            polled matches Polled::Ready(Ok(results)) ==> results@.len() <= i64::MAX && forall|
                i: int,
            |
                0 <= i < results@.len() ==> (#[trigger] results@[i]).owned_by(self.extra),
        ensures
            match polled {
                Polled::Pending => {
                    &&& r matches Ok(PollStep::Answer(answer))
                    &&& ops(answer.steps@) == pending_ops()
                    &&& answer.count == 1
                },
                Polled::Ready(Err(e)) => refused(r, e@),
                Polled::Ready(Ok(results)) => {
                    &&& r matches Ok(PollStep::MakeTable { table, nresults })
                    &&& table@ == sequence_plan(results@.len() as usize, results@)
                    &&& nresults == results@.len()
                },
            },
    {
        match polled {
            Polled::Pending => {
                let mut steps: Vec<Instr> = Vec::new();
                emit(&mut steps, InstrOf::CheckStack(1));
                emit(&mut steps, InstrOf::PushBoolean(0));
                assert(ops(steps@) =~= pending_ops());
                Ok(PollStep::Answer(Answer { steps, count: 1 }))
            },
            Polled::Ready(results) => {
                match results {
                    Err(e) => Err(e),
                    Ok(results) => {
                        let nresults: usize = results.len();
                        let values = results.to_vec();
                        let table = self.create_sequence_from(nresults, values.as_slice());
                        Ok(PollStep::MakeTable { table, nresults })
                    },
                }
            },
        }
    }

    /// Answers that a future is ready, given the table and the number of its results.
    pub fn poll_answer(&self, table: &LuaRef, nresults: usize) -> (answer: Answer)
        requires
            table.extra == self.extra,
            nresults <= i64::MAX,
        ensures
            ops(answer.steps@) == ready_ops(*table, nresults as i64),
            answer.count == 3,
    {
        let mut steps: Vec<Instr> = Vec::new();
        emit(&mut steps, InstrOf::CheckStack(3));
        emit(&mut steps, InstrOf::PushBoolean(1));
        self.push_value(&mut steps, Value::Table(*table));
        self.push_value(&mut steps, Value::Integer(nresults as i64));
        assert(ops(steps@) =~= ready_ops(*table, nresults as i64));
        Answer { steps, count: 3 }
    }
}

/// The keys of a table of results are the numbers from one up to the number of results.
pub open spec fn result_keys(nresults: int) -> Seq<i64> {
    Seq::new(
        if nresults >= 1 {
            nresults as nat
        } else {
            0
        },
        |i: int| (i + 1) as i64,
    )
}

/// The keys of a table of results, from one on.
///
/// A table is spread into so many values as are said to be in it, so that nils among them are kept.
#[derive(Clone, Copy, Debug, PartialEq, Eq, Structural)]
pub struct Unpack {
    next: Option<i64>,
    len: i64,
}

impl Unpack {
    /// The keys that are still to come.
    pub closed spec fn keys(self) -> Seq<i64> {
        match self.next {
            Some(next) => Seq::new(
                if next <= self.len {
                    (self.len - next + 1) as nat
                } else {
                    0
                },
                |i: int| (next + i) as i64,
            ),
            None => Seq::empty(),
        }
    }

    /// Spreads so many values.
    pub fn new(len: i64) -> (unpack: Unpack)
        ensures
            unpack.keys() == result_keys(len as int),
            unpack.keys().len() == (if len > 0 {
                len as int
            } else {
                0
            }),
            forall|i: int| 0 <= i < unpack.keys().len() ==> #[trigger] unpack.keys()[i] == i + 1,
    {
        let unpack = Unpack { next: Some(1), len };
        assert(unpack.keys() =~= result_keys(len as int));
        unpack
    }

    /// The next key, if there is one.
    pub fn next_key(&mut self) -> (key: Option<i64>)
        ensures
            if old(self).keys().len() == 0 {
                key is None && final(self).keys().len() == 0
            } else {
                key == Some(old(self).keys()[0]) && final(self).keys() == old(self).keys().skip(1)
            },
    {
        match self.next {
            Some(next) => {
                if next > self.len {
                    None
                } else {
                    let ghost before = self.keys();
                    self.next = if next < self.len {
                        Some(next + 1)
                    } else {
                        None
                    };
                    assert(self.keys() =~= before.skip(1));
                    Some(next)
                }
            },
            None => None,
        }
    }
}

/// What an asynchronous function returns is what its future resolved to, nils among the results
/// included: spreading the table of the results by their number gives the results back, in order.
pub proof fn law_async_results(m: Machine, results: Seq<Value>)
    requires
        m.roomy(),
        results.len() <= i64::MAX,
        forall|i: int| 0 <= i < results.len() ==> pushable(m, #[trigger] results[i]),
    ensures
        ({
            let made = m.run(sequence_plan(results.len() as usize, results).steps);
            let keys = result_keys(results.len() as int);
            &&& made is Some
            &&& (made->0).stack == m.stack.push(Val::Table(m.fresh))
            &&& keys.len() == results.len()
            &&& forall|i: int|
                0 <= i < keys.len() ==> field(
                    (made->0).tables[m.fresh],
                    Val::Integer(#[trigger] keys[i]),
                ) == denoted(m, results[i])
        }),
{
    law_sequence_from(m, results.len() as usize, results);
    let keys = result_keys(results.len() as int);
    assert forall|i: int| 0 <= i < keys.len() implies field(
        sequence_of(m, results),
        Val::Integer(#[trigger] keys[i]),
    ) == denoted(m, results[i]) by {
        let v = results[i];
    }
}

/// The keys of a table of `n` results are the numbers from one up to `n`, in order.
pub proof fn law_result_keys(n: int, i: int)
    requires
        n <= i64::MAX,
    ensures
        result_keys(n).len() == (if n > 0 {
            n
        } else {
            0
        }),
        0 <= i < n ==> result_keys(n)[i] == i + 1,
{
}

/// A pending future is answered with false, and nothing else has changed.
pub proof fn law_pending_answer(m: Machine)
    requires
        m.roomy(),
    ensures
        m.run(pending_ops()) == Some(Machine { stack: m.stack.push(Val::Boolean(false)), ..m }),
{
    lemma_pair(m, pending_ops(), m, m.push(Val::Boolean(false)));
}

/// A started future is answered with the function that polls it, which is over the future and the
/// state, in this order.
pub proof fn law_returned_future(m: Machine)
    ensures
        m.run(closure_ops(GcValue::Future, CFunction::PollFuture)) == Some(
            m.push(
                Val::Closure(
                    CFunction::PollFuture,
                    seq![Val::Gc(GcValue::Future), Val::Gc(GcValue::Lua)],
                ),
            ),
        ),
{
    let code = closure_ops(GcValue::Future, CFunction::PollFuture);
    let held = seq![Val::Gc(GcValue::Future), Val::Gc(GcValue::Lua)];
    let m1 = m.push(Val::Gc(GcValue::Future));
    let m2 = m1.push(Val::Gc(GcValue::Lua));
    let end = m.push(Val::Closure(CFunction::PollFuture, held));
    lemma_next(m, code, 0, m1);
    lemma_next(m1, code, 1, m2);
    assert(m2.stack.take(m2.height() - 2) =~= m.stack);
    assert(m2.stack.skip(m2.height() - 2) =~= held);
    lemma_next(m2, code, 2, end);
    lemma_done(end, code, 3);
}

/// A ready future is answered with true, the table of its results and their number.
pub proof fn law_ready_answer(m: Machine, table: LuaRef, nresults: i64)
    requires
        m.roomy(),
        0 < table.index <= m.refs.len(),
    ensures
        m.run(ready_ops(table, nresults)) == Some(
            Machine {
                stack: m.stack + seq![
                    Val::Boolean(true),
                    m.refs[table.index - 1],
                    Val::Integer(nresults),
                ],
                ..m
            },
        ),
{
    let code = ready_ops(table, nresults);
    let m1 = m.push(Val::Boolean(true));
    lemma_next(m, code, 0, m);
    lemma_next(m, code, 1, m1);
    let m2 = Machine { refs: m.refs.push(m.refs[table.index - 1]), ..m1 };
    lemma_next(m1, code, 2, m2);
    let m3 = m1.push(m.refs[table.index - 1]);
    assert(m2.refs.drop_last() =~= m.refs);
    lemma_next(m2, code, 3, m3);
    let m4 = m3.push(Val::Integer(nresults));
    lemma_next(m3, code, 4, m4);
    lemma_done(m4, code, 5);
    assert(m4.stack =~= m.stack + seq![
        Val::Boolean(true),
        m.refs[table.index - 1],
        Val::Integer(nresults),
    ]);
}

proof fn lemma_expected(m: Machine, code: Seq<Op>, i: int, kind: RefKind)
    requires
        0 <= i < code.len(),
        code[i] == Op::Expect(kind),
        m.height() > 0,
        m.top().kind() == Some(kind),
    ensures
        m.run_from(code, i) == m.run_from(code, i + 1),
{
    lemma_next(m, code, i, m);
}

/// The function that an asynchronous function waits with is the field `yield` of the global table
/// `coroutine`; the stack below it and everything else stay as they were.
pub proof fn law_yield_function(m: Machine, version: Version, coroutine: nat)
    requires
        m.roomy(),
        globals_found(m, version),
        field(m.tables[globals()], Val::String("coroutine".spec_bytes())) == Val::Table(coroutine),
        m.tables.dom().contains(coroutine),
        field(m.tables[coroutine], Val::String("yield".spec_bytes())).kind() == Some(
            RefKind::Function,
        ),
    ensures
        m.run(yield_plan(version).steps) == Some(
            m.push(Val::Table(globals())).push(Val::Table(coroutine)).push(
                field(m.tables[coroutine], Val::String("yield".spec_bytes())),
            ),
        ),
{
    let code = yield_plan(version).steps;
    let m2 = m.push(Val::Table(globals()));
    lemma_next(m, code, 0, m);
    lemma_globals_pushed(m, version, code, 1);
    let m3 = m2.push(Val::Table(coroutine));
    lemma_field_pushed(m2, code, 2, globals(), "coroutine".spec_bytes());
    lemma_expected(m3, code, 3, RefKind::Table);
    let m5 = m3.push(field(m.tables[coroutine], Val::String("yield".spec_bytes())));
    lemma_field_pushed(m3, code, 4, coroutine, "yield".spec_bytes());
    lemma_expected(m5, code, 5, RefKind::Function);
    lemma_done(m5, code, 6);
}

/// The function that starts the future of a callback.
pub open spec fn get_poll_function(c: Callback) -> Val {
    Val::Closure(
        CFunction::CallAsyncCallback,
        seq![Val::Gc(GcValue::AsyncCallback(c)), Val::Gc(GcValue::Lua)],
    )
}

/// The function that starts a future is a closure over the callback and the state.
pub proof fn law_get_poll_function(m: Machine, c: Callback)
    requires
        m.roomy(),
    ensures
        m.run(get_poll_plan(c).steps) == Some(m.push(get_poll_function(c))),
{
    let code = get_poll_plan(c).steps;
    let m1 = m.push(Val::Gc(GcValue::AsyncCallback(c)));
    let m2 = m1.push(Val::Gc(GcValue::Lua));
    let end = m.push(get_poll_function(c));
    lemma_next(m, code, 0, m);
    lemma_next(m, code, 1, m1);
    lemma_next(m1, code, 2, m2);
    assert(m2.stack.take(m2.height() - 2) =~= m.stack);
    assert(m2.stack.skip(m2.height() - 2) =~= seq![
        Val::Gc(GcValue::AsyncCallback(c)),
        Val::Gc(GcValue::Lua),
    ]);
    lemma_next(m2, code, 3, end);
    lemma_done(end, code, 4);
}

/// The fields of the environment of the driver.
pub open spec fn environment_fields(get_poll: Val, yielding: Val, pending: u64) -> Map<Val, Val> {
    Map::<Val, Val>::empty().insert(Val::String("get_poll".spec_bytes()), get_poll).insert(
        Val::String("yield".spec_bytes()),
        yielding,
    ).insert(Val::String("unpack".spec_bytes()), Val::Builtin(Builtin::Unpack)).insert(
        Val::String("pending".spec_bytes()),
        Val::LightUserData(pending),
    )
}

/// The driver finds in its environment the function that starts the future, the functions `yield`
/// and `unpack` and the mark for pending futures, and nothing else; the environment is a new table on
/// top of the stack, and nothing else has changed.
pub proof fn law_async_environment(m: Machine, get_poll: LuaRef, yielding: LuaRef, pending: u64)
    requires
        m.roomy(),
        0 < get_poll.index <= m.refs.len(),
        0 < yielding.index <= m.refs.len(),
        m.refs[get_poll.index - 1] != Val::Nil,
        m.refs[yielding.index - 1] != Val::Nil,
        !m.metatables.dom().contains(m.fresh),
    ensures
        m.run(environment_plan(get_poll, yielding, pending).steps) == Some(
            holding(
                m,
                environment_fields(
                    m.refs[get_poll.index - 1],
                    m.refs[yielding.index - 1],
                    pending,
                ),
            ),
        ),
{
    let code = environment_plan(get_poll, yielding, pending).steps;
    let none = Map::<Val, Val>::empty();
    let f1 = none.insert(Val::String("get_poll".spec_bytes()), m.refs[get_poll.index - 1]);
    let f2 = f1.insert(Val::String("yield".spec_bytes()), m.refs[yielding.index - 1]);
    let f3 = f2.insert(Val::String("unpack".spec_bytes()), Val::Builtin(Builtin::Unpack));
    let f4 = f3.insert(Val::String("pending".spec_bytes()), Val::LightUserData(pending));
    let h0 = holding(m, none);
    lemma_next(m, code, 0, m);
    assert((m.step(code[1])->0).tables =~= h0.tables);
    lemma_next(m, code, 1, h0);
    lemma_push_ref_at(h0, code, 2, get_poll.index);
    lemma_set_field_at(m, none, code, 4, "get_poll".spec_bytes(), m.refs[get_poll.index - 1]);
    lemma_push_ref_at(holding(m, f1), code, 5, yielding.index);
    lemma_set_field_at(m, f1, code, 7, "yield".spec_bytes(), m.refs[yielding.index - 1]);
    let h2 = holding(m, f2);
    lemma_next(h2, code, 8, h2.push(Val::Builtin(Builtin::Unpack)));
    lemma_set_field_at(
        m,
        f2,
        code,
        9,
        "unpack".spec_bytes(),
        Val::Builtin(Builtin::Unpack),
    );
    let h3 = holding(m, f3);
    lemma_next(h3, code, 10, h3.push(Val::LightUserData(pending)));
    lemma_set_field_at(m, f3, code, 11, "pending".spec_bytes(), Val::LightUserData(pending));
    lemma_done(holding(m, f4), code, 12);
}

proof fn lemma_push_ref_at(m: Machine, code: Seq<Op>, i: int, index: i32)
    requires
        0 <= i < code.len() - 1,
        code[i] == Op::RefPushValue(index),
        code[i + 1] == Op::RefToState,
        0 < index <= m.refs.len(),
    ensures
        m.run_from(code, i) == m.push(m.refs[index - 1]).run_from(code, i + 2),
{
    let copied = Machine { refs: m.refs.push(m.refs[index - 1]), ..m };
    lemma_next(m, code, i, copied);
    assert(copied.refs.drop_last() =~= m.refs);
    lemma_next(copied, code, i + 1, m.push(m.refs[index - 1]));
}

proof fn lemma_set_field_at(
    m: Machine,
    fields: Map<Val, Val>,
    code: Seq<Op>,
    i: int,
    name: Seq<u8>,
    value: Val,
)
    requires
        0 <= i < code.len(),
        code[i] == Op::SetField(Index::FromTop(2), name),
        value != Val::Nil,
        !m.metatables.dom().contains(m.fresh),
    ensures
        holding(m, fields).push(value).run_from(code, i) == holding(
            m,
            fields.insert(Val::String(name), value),
        ).run_from(code, i + 1),
{
    let pushed = holding(m, fields).push(value);
    let after = holding(m, fields.insert(Val::String(name), value));
    assert(pushed.stack[pushed.height() - 2] == Val::Table(m.fresh));
    assert(pushed.stack.take(pushed.height() - 1) =~= after.stack);
    assert((pushed.step(code[i])->0).tables =~= after.tables);
    lemma_next(pushed, code, i, after);
}

/// The driver is text: it can be loaded in safe mode too.
pub proof fn law_driver_is_accepted(lua: Lua, env: LuaRef)
    ensures
        accepted_mode(
            lua.safe,
            lua.version,
            driver_chunk(lua, env).source,
            driver_chunk(lua, env).mode,
        ) == Some(LoadMode::Any),
{
    lemma_driver_begins_with_newline();
    let source = driver_chunk(lua, env).source;
    if binary(lua.version, source) {
        assert(signature(lua.version)[0] == source.subrange(
            0,
            signature(lua.version).len() as int,
        )[0]);
    }
}

} // verus!
