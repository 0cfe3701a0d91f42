use std::sync::atomic::{AtomicUsize, Ordering};
use std::sync::Arc;
use std::task::{Wake, Waker};

use mlua_core::asynchronous::{AsyncPlan, CallbackPlan, PollStep, Polled, Unpack};
use mlua_core::error::Error;
use mlua_core::invocation::{Invocation, Stage, Step};
use mlua_core::lua::{ExtraData, Lua};
use mlua_core::machine::{
    Builtin, CFunction, CallKind, Callback, GcValue, Index, Instr, LoadMode, Outcome,
};
use mlua_core::stdlib::Library;
use mlua_core::value::{LuaRef, MultiValue, RefKind, Value};
use mlua_core::version::Version;

fn handle(version: Version) -> Lua {
    Lua { state: 10, main_state: Some(20), extra: 1, ephemeral: true, safe: true, version }
}

fn slot(index: i32) -> LuaRef {
    LuaRef { extra: 1, index }
}

struct CountingWake(AtomicUsize);

impl Wake for CountingWake {
    fn wake(self: Arc<Self>) {
        self.0.fetch_add(1, Ordering::SeqCst);
    }
}

#[test]
fn a_callback_becomes_a_closure() {
    let lua = handle(Version::Lua54);
    let c = Callback { kind: CallKind::Method, id: 3 };
    let plan = lua.create_callback(c);
    assert_eq!(
        plan.steps,
        vec![
            Instr::CheckStack(5),
            Instr::PushGcUserdata(GcValue::Callback(c)),
            Instr::PushGcUserdata(GcValue::Lua),
            Instr::PushRClosure(CFunction::CallCallback, 2),
        ]
    );
    assert_eq!(plan.outcome, Outcome::Reference(RefKind::Function));
    assert_eq!(
        lua.create_function(3),
        lua.create_callback(Callback { kind: CallKind::Function, id: 3 })
    );
    assert_eq!(
        lua.create_function_mut(3),
        lua.create_callback(Callback { kind: CallKind::ClosureMut, id: 3 })
    );
}

#[test]
fn a_destroyed_callback_is_not_called() {
    for (value, lua) in [(true, false), (false, true), (true, true)] {
        assert_eq!(Lua::begin_call(value, lua, 0), Err(Error::CallbackDestructed));
    }
}

#[test]
fn a_call_has_the_room_that_lua_guarantees() {
    assert_eq!(Lua::begin_call(false, false, 0), Ok(vec![Instr::CheckStack(20)]));
    assert_eq!(Lua::begin_call(false, false, 19), Ok(vec![Instr::CheckStack(1)]));
    assert_eq!(Lua::begin_call(false, false, 20), Ok(vec![]));
    assert_eq!(Lua::begin_call(false, false, 300), Ok(vec![]));
}

#[test]
fn arguments_and_results_keep_their_order() {
    let lua = handle(Version::Lua54);
    let args = Lua::arguments(vec![Value::Integer(3), Value::Nil, Value::Integer(1)]);
    assert_eq!(args, vec![Value::Integer(1), Value::Nil, Value::Integer(3)]);
    let answer = lua.results(&MultiValue::from_vec(args));
    assert_eq!(
        answer.steps,
        vec![
            Instr::CheckStack(3),
            Instr::PushInteger(1),
            Instr::PushNil,
            Instr::PushInteger(3),
        ]
    );
    assert_eq!(answer.count, 3);
    assert_eq!(lua.results(&MultiValue::new()).steps, vec![Instr::CheckStack(0)]);
}

#[test]
fn a_callback_works_in_the_calling_state() {
    let lua = handle(Version::Lua54).entered(55);
    assert_eq!((lua.state, lua.main_state), (55, Some(20)));
}

fn stages_of(kind: CallKind, args: Vec<Value>) -> Vec<Step> {
    let mut call = Invocation::start(kind);
    let mut args = MultiValue::from_vec(args);
    let mut running = false;
    let mut seen = Vec::new();
    loop {
        let step = call.proceed(&mut args, &mut running).unwrap();
        if step == Step::Finished {
            break;
        }
        seen.push(step);
    }
    call.finish(&mut running);
    assert!(!running);
    seen
}

#[test]
fn calls_go_through_their_stages() {
    let ud = Value::UserData(slot(4));
    let rest = [Step::Arguments, Step::Call, Step::Results];
    assert_eq!(stages_of(CallKind::Function, vec![]), rest);
    assert_eq!(stages_of(CallKind::FunctionMut, vec![]), rest);
    assert_eq!(stages_of(CallKind::ClosureMut, vec![]), rest);
    assert_eq!(stages_of(CallKind::AsyncFunction, vec![]), rest);
    let method = [Step::Receiver(ud), Step::Borrow, Step::Arguments, Step::Call, Step::Results];
    assert_eq!(stages_of(CallKind::Method, vec![ud]), method);
    assert_eq!(stages_of(CallKind::AsyncMethod, vec![ud, Value::Nil]), method);
    assert_eq!(
        stages_of(CallKind::MethodMut, vec![ud]),
        [Step::Receiver(ud), Step::BorrowMut, Step::Arguments, Step::Call, Step::Results]
    );
}

#[test]
fn a_method_needs_a_receiver() {
    for kind in [CallKind::Method, CallKind::MethodMut, CallKind::AsyncMethod] {
        let mut running = false;
        assert_eq!(
            Invocation::start(kind).proceed(&mut MultiValue::new(), &mut running),
            Err(Error::FromLuaConversionError {
                from: "missing argument".to_string(),
                to: "userdata".to_string(),
                message: None,
            })
        );
    }
}

#[test]
fn the_receiver_is_no_argument() {
    let mut call = Invocation::start(CallKind::Method);
    let mut args = MultiValue::from_vec(vec![Value::Integer(1), Value::Integer(2)]);
    let mut running = false;
    assert_eq!(
        call.proceed(&mut args, &mut running),
        Ok(Step::Receiver(Value::Integer(1)))
    );
    assert_eq!(args.to_vec(), vec![Value::Integer(2)]);
}

#[test]
fn a_mutable_closure_is_not_entered_twice() {
    let mut running = false;
    let mut args = MultiValue::new();
    let mut outer = Invocation::start(CallKind::FunctionMut);
    assert_eq!(outer.proceed(&mut args, &mut running), Ok(Step::Arguments));
    assert!(running);
    let mut inner = Invocation::start(CallKind::FunctionMut);
    assert_eq!(inner.proceed(&mut args, &mut running), Err(Error::RecursiveMutCallback));
    inner.finish(&mut running);
    assert!(running);
    outer.finish(&mut running);
    assert!(!running);
}

#[test]
fn a_registered_closure_is_entered_before_its_arguments_are_converted() {
    assert_eq!(
        Invocation::stages(CallKind::FunctionMut),
        vec![Stage::Enter, Stage::Arguments, Stage::Call, Stage::Results]
    );
    assert_eq!(
        Invocation::stages(CallKind::ClosureMut),
        vec![Stage::Arguments, Stage::Enter, Stage::Call, Stage::Leave, Stage::Results]
    );
    let mut running = true;
    let mut args = MultiValue::new();
    let mut call = Invocation::start(CallKind::ClosureMut);
    assert_eq!(call.proceed(&mut args, &mut running), Ok(Step::Arguments));
    assert_eq!(call.proceed(&mut args, &mut running), Err(Error::RecursiveMutCallback));
}

#[test]
fn a_closure_is_free_while_its_results_are_converted() {
    let mut running = false;
    let mut args = MultiValue::new();
    let mut outer = Invocation::start(CallKind::ClosureMut);
    assert_eq!(outer.proceed(&mut args, &mut running), Ok(Step::Arguments));
    assert_eq!(outer.proceed(&mut args, &mut running), Ok(Step::Call));
    assert!(running);
    assert_eq!(outer.proceed(&mut args, &mut running), Ok(Step::Results));
    assert!(!running);
    let mut inner = Invocation::start(CallKind::ClosureMut);
    assert_eq!(inner.proceed(&mut args, &mut running), Ok(Step::Arguments));
    assert_eq!(inner.proceed(&mut args, &mut running), Ok(Step::Call));
    outer.finish(&mut running);
    assert!(running);
    inner.finish(&mut running);
    assert!(!running);
}

#[test]
fn a_registered_closure_is_held_while_its_results_are_converted() {
    let mut running = false;
    let mut args = MultiValue::new();
    let mut call = Invocation::start(CallKind::FunctionMut);
    for step in [Step::Arguments, Step::Call, Step::Results] {
        assert_eq!(call.proceed(&mut args, &mut running), Ok(step));
        assert!(running);
    }
    call.finish(&mut running);
    assert!(!running);
}

#[test]
fn an_asynchronous_function_needs_coroutines() {
    let c = Callback { kind: CallKind::AsyncFunction, id: 2 };
    let lua = handle(Version::Lua54);
    let mut extra = ExtraData::new();
    let plan = lua.create_async_callback(&mut extra, c).unwrap();
    let load = plan.load.unwrap();
    assert_eq!(load.load.steps, vec![Instr::OpenLibrary(Library::Coroutine), Instr::Pop(1)]);
    assert_eq!(load.disable_c_modules, None);
    assert_eq!(extra.libs, Library::Coroutine.flag());
    let again = lua.create_async_function(&mut extra, 2).unwrap();
    assert_eq!(again.load, None);
    assert_eq!(
        again.get_poll.steps,
        vec![
            Instr::CheckStack(5),
            Instr::PushGcUserdata(GcValue::AsyncCallback(c)),
            Instr::PushGcUserdata(GcValue::Lua),
            Instr::PushRClosure(CFunction::CallAsyncCallback, 2),
        ]
    );
    let mut extra = ExtraData::new();
    let old = handle(Version::Lua51).create_async_callback(&mut extra, c).unwrap();
    assert_eq!(old.load, None);
}

#[test]
fn a_callback_is_made_by_its_kind() {
    let lua = handle(Version::Lua54);
    let mut extra = ExtraData::new();
    for kind in [
        CallKind::Function,
        CallKind::FunctionMut,
        CallKind::ClosureMut,
        CallKind::Method,
        CallKind::MethodMut,
    ] {
        let c = Callback { kind, id: 2 };
        assert!(!kind.is_asynchronous());
        assert_eq!(
            lua.push_callback(&mut extra, c),
            Ok(CallbackPlan::Function(lua.create_callback(c)))
        );
        assert_eq!(extra.libs.bits, 0);
    }
    let c = Callback { kind: CallKind::AsyncMethod, id: 2 };
    assert!(c.kind.is_asynchronous());
    let begun = lua.create_async_callback(&mut ExtraData::new(), c).unwrap();
    assert!(begun.load.is_some());
    let get_poll = lua.create_async_callback(&mut ExtraData::new(), c).unwrap().get_poll;
    assert_eq!(lua.push_callback(&mut extra, c), Ok(CallbackPlan::AsyncFunction(begun)));
    assert_eq!(extra.libs, Library::Coroutine.flag());
    assert_eq!(
        lua.push_callback(&mut extra, c),
        Ok(CallbackPlan::AsyncFunction(AsyncPlan { load: None, get_poll }))
    );
}

#[test]
fn yield_is_looked_up_where_the_globals_are() {
    let get = |name: &str| Instr::GetField(Index::FromTop(1), name.as_bytes().to_vec());
    for (version, globals) in [
        (Version::Lua53, Instr::RawGetI(Index::Registry, 2)),
        (Version::LuaJit, Instr::PushValue(Index::Globals)),
    ] {
        let plan = handle(version).async_yield();
        assert_eq!(
            plan.steps,
            vec![
                Instr::CheckStack(4),
                globals,
                get("coroutine"),
                Instr::Expect(RefKind::Table),
                get("yield"),
                Instr::Expect(RefKind::Function),
            ]
        );
        assert_eq!(plan.outcome, Outcome::Reference(RefKind::Function));
        assert_eq!(plan.guard, Some(0));
    }
}

#[test]
fn the_driver_has_its_environment() {
    let lua = handle(Version::Lua54);
    let plan = lua.async_environment(&slot(1), &slot(2), 99);
    let set = |name: &str| Instr::SetField(Index::FromTop(2), name.as_bytes().to_vec());
    assert_eq!(
        plan.steps,
        vec![
            Instr::CheckStack(4),
            Instr::CreateTable(0, 4),
            Instr::RefPushValue(1),
            Instr::RefToState,
            set("get_poll"),
            Instr::RefPushValue(2),
            Instr::RefToState,
            set("yield"),
            Instr::PushBuiltin(Builtin::Unpack),
            set("unpack"),
            Instr::PushLightUserData(99),
            set("pending"),
        ]
    );
}

#[test]
fn the_driver_is_loaded_in_safe_mode() {
    let lua = handle(Version::Lua54);
    let plan = lua.async_driver(&slot(3)).unwrap();
    match &plan.steps[1] {
        Instr::LoadBuffer { source, name, mode } => {
            let text = std::str::from_utf8(source).unwrap();
            assert!(text.contains("return unpack(res, nres)"));
            assert!(text.contains("yield(pending)"));
            assert_eq!(name.as_deref(), Some(&b"_mlua_async_poll"[..]));
            assert_eq!(*mode, LoadMode::Any);
        }
        other => panic!("{:?}", other),
    }
    assert_eq!(plan.steps[4], Instr::SetUpvalue(Index::FromTop(2), 1));
}

#[test]
fn polls_are_answered() {
    let lua = handle(Version::Lua54);
    match lua.poll_future(Polled::Pending).unwrap() {
        PollStep::Answer(answer) => {
            assert_eq!(answer.steps, vec![Instr::CheckStack(1), Instr::PushBoolean(0)]);
            assert_eq!(answer.count, 1);
        }
        other => panic!("{:?}", other),
    }
    assert_eq!(
        lua.poll_future(Polled::Ready(Err(Error::Foreign(6)))),
        Err(Error::Foreign(6))
    );
    let results = MultiValue::from_vec(vec![Value::Nil, Value::Integer(8)]);
    match lua.poll_future(Polled::Ready(Ok(results))).unwrap() {
        PollStep::MakeTable { table, nresults } => {
            assert_eq!(
                table.steps,
                vec![
                    Instr::CheckStack(6),
                    Instr::CreateTable(2, 0),
                    Instr::PushNil,
                    Instr::RawSetI(Index::FromTop(2), 1),
                    Instr::PushInteger(8),
                    Instr::RawSetI(Index::FromTop(2), 2),
                ]
            );
            assert_eq!(nresults, 2);
        }
        other => panic!("{:?}", other),
    }
    let answer = lua.poll_answer(&slot(5), 2);
    assert_eq!(
        answer.steps,
        vec![
            Instr::CheckStack(3),
            Instr::PushBoolean(1),
            Instr::RefPushValue(5),
            Instr::RefToState,
            Instr::PushInteger(2),
        ]
    );
    assert_eq!(answer.count, 3);
}

#[test]
fn a_future_is_returned_as_a_function() {
    let answer = handle(Version::Lua54).return_future();
    assert_eq!(
        answer.steps,
        vec![
            Instr::PushGcUserdata(GcValue::Future),
            Instr::PushGcUserdata(GcValue::Lua),
            Instr::PushRClosure(CFunction::PollFuture, 2),
        ]
    );
    assert_eq!(answer.count, 1);
}

#[test]
fn results_are_spread_by_their_number() {
    let mut unpack = Unpack::new(3);
    assert_eq!(unpack.next_key(), Some(1));
    assert_eq!(unpack.next_key(), Some(2));
    assert_eq!(unpack.next_key(), Some(3));
    assert_eq!(unpack.next_key(), None);
    assert_eq!(unpack.next_key(), None);
    assert_eq!(Unpack::new(0).next_key(), None);
    assert_eq!(Unpack::new(-5).next_key(), None);
}

#[test]
fn the_outer_waker_is_used() {
    let count = Arc::new(CountingWake(AtomicUsize::new(0)));
    let outer = Waker::from(count.clone());
    let waker = Lua::poll_waker(Some(outer.clone()));
    assert!(waker.will_wake(&outer));
    waker.wake();
    assert_eq!(count.0.load(Ordering::SeqCst), 1);
}

#[test]
fn without_an_outer_waker_waking_does_nothing() {
    let count = Arc::new(CountingWake(AtomicUsize::new(0)));
    let outer = Waker::from(count.clone());
    let waker = Lua::poll_waker(None);
    assert!(!waker.will_wake(&outer));
    assert!(waker.will_wake(&futures_task::noop_waker()));
    waker.wake_by_ref();
    waker.wake();
    assert_eq!(count.0.load(Ordering::SeqCst), 0);
}
