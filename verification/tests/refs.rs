use mlua_core::lua::{ExtraData, Lua};
use mlua_core::machine::Instr;
use mlua_core::refs::{PopStep, RefStack, LUA_MINSTACK};
use mlua_core::stack::{settle_steps, PopAction, Top};
use mlua_core::value::{LuaRef, MultiValue, RefKind, Value};
use mlua_core::version::Version;

fn handle() -> Lua {
    Lua {
        state: 10,
        main_state: Some(10),
        extra: 1,
        ephemeral: true,
        safe: false,
        version: Version::Lua54,
    }
}

fn slot(index: i32) -> LuaRef {
    LuaRef { extra: 1, index }
}

#[test]
fn slots_are_given_from_one_on() {
    let mut refs = RefStack::new();
    for i in 1..LUA_MINSTACK {
        assert_eq!(refs.ref_stack_pop(), PopStep::Fresh { index: i });
    }
    assert_eq!(refs.ref_stack_pop(), PopStep::Grow { inc: LUA_MINSTACK - 1 });
}

#[test]
fn a_freed_slot_comes_back_first() {
    let mut refs = RefStack::new();
    for _ in 0..3 {
        refs.ref_stack_pop();
    }
    refs.drop_ref(slot(2));
    assert_eq!(refs.ref_stack_pop(), PopStep::Replace { index: 2 });
    assert_eq!(refs.ref_stack_pop(), PopStep::Fresh { index: 4 });
}

#[test]
fn the_latest_freed_slot_is_taken() {
    let mut refs = RefStack::new();
    for _ in 0..3 {
        refs.ref_stack_pop();
    }
    refs.drop_ref(slot(1));
    refs.drop_ref(slot(3));
    assert_eq!(refs.ref_stack_pop(), PopStep::Replace { index: 3 });
    assert_eq!(refs.ref_stack_pop(), PopStep::Replace { index: 1 });
}

#[test]
fn growth_is_halved_until_there_is_room() {
    let mut refs = RefStack::new();
    for _ in 1..LUA_MINSTACK {
        refs.ref_stack_pop();
    }
    assert_eq!(refs.ref_stack_pop(), PopStep::Grow { inc: 19 });
    assert_eq!(refs.ref_stack_grow(19, false), PopStep::Grow { inc: 9 });
    assert_eq!(refs.ref_stack_grow(9, false), PopStep::Grow { inc: 4 });
    assert_eq!(refs.ref_stack_grow(4, true), PopStep::Fresh { index: 20 });
    for i in 21..24 {
        assert_eq!(refs.ref_stack_pop(), PopStep::Fresh { index: i });
    }
    assert_eq!(refs.ref_stack_pop(), PopStep::Grow { inc: 23 });
}

#[test]
fn no_room_at_all_gives_no_slot() {
    let mut refs = RefStack::new();
    for _ in 1..LUA_MINSTACK {
        refs.ref_stack_pop();
    }
    assert_eq!(refs.ref_stack_grow(1, false), PopStep::Exhausted { used: 19 });
    assert_eq!(refs.ref_stack_pop(), PopStep::Grow { inc: 19 });
}

#[test]
fn a_leak_is_a_slot_in_use() {
    let mut refs = RefStack::new();
    assert!(refs.no_leak(0));
    refs.ref_stack_pop();
    refs.ref_stack_pop();
    assert!(!refs.no_leak(2));
    refs.drop_ref(slot(1));
    assert!(!refs.no_leak(2));
    refs.drop_ref(slot(2));
    assert!(refs.no_leak(2));
    assert!(!refs.no_leak(3));
}

#[test]
fn steps_on_the_reference_thread() {
    assert_eq!(
        settle_steps(PopStep::Replace { index: 4 }),
        Some(vec![Instr::RefReplace(4)])
    );
    assert_eq!(settle_steps(PopStep::Fresh { index: 4 }), Some(vec![]));
    assert_eq!(settle_steps(PopStep::Exhausted { used: 4 }), Some(vec![Instr::RefPop(1)]));
    assert_eq!(settle_steps(PopStep::Grow { inc: 4 }), None);
}

#[test]
fn references_are_made_copied_and_dropped() {
    let lua = handle();
    let mut extra = ExtraData::new();
    assert_eq!(
        lua.pop_ref(&mut extra),
        (vec![Instr::StateToRef], PopStep::Fresh { index: 1 })
    );
    assert_eq!(
        lua.clone_ref(&mut extra, &slot(1)),
        (vec![Instr::RefPushValue(1)], PopStep::Fresh { index: 2 })
    );
    assert_eq!(
        lua.drop_ref(&mut extra, &slot(1)),
        vec![Instr::RefPushNil, Instr::RefReplace(1)]
    );
    assert_eq!(
        lua.pop_ref(&mut extra),
        (vec![Instr::StateToRef], PopStep::Replace { index: 1 })
    );
}

#[test]
fn values_are_pushed_by_kind() {
    let lua = handle();
    let cases = vec![
        (Value::Nil, vec![Instr::PushNil]),
        (Value::Boolean(true), vec![Instr::PushBoolean(1)]),
        (Value::Boolean(false), vec![Instr::PushBoolean(0)]),
        (Value::LightUserData(9), vec![Instr::PushLightUserData(9)]),
        (Value::Integer(-4), vec![Instr::PushInteger(-4)]),
        (Value::Number(1.5f64.to_bits()), vec![Instr::PushNumber(1.5f64.to_bits())]),
        (Value::String(slot(1)), vec![Instr::RefPushValue(1), Instr::RefToState]),
        (Value::Table(slot(2)), vec![Instr::RefPushValue(2), Instr::RefToState]),
        (Value::Function(slot(3)), vec![Instr::RefPushValue(3), Instr::RefToState]),
        (Value::Thread(slot(4)), vec![Instr::RefPushValue(4), Instr::RefToState]),
        (Value::UserData(slot(5)), vec![Instr::RefPushValue(5), Instr::RefToState]),
        (Value::Error(8), vec![Instr::PushError(8)]),
    ];
    for (value, expected) in cases {
        let mut steps = Vec::new();
        lua.push_value(&mut steps, value);
        assert_eq!(steps, expected);
    }
}

#[test]
fn the_top_is_taken_off_by_kind() {
    let lua = handle();
    let take = |top| lua.pop_value(top);
    assert_eq!(take(Top::Nil), PopAction::Take(Value::Nil));
    assert_eq!(take(Top::Boolean(0)), PopAction::Take(Value::Boolean(false)));
    assert_eq!(take(Top::Boolean(2)), PopAction::Take(Value::Boolean(true)));
    assert_eq!(take(Top::LightUserData(3)), PopAction::Take(Value::LightUserData(3)));
    assert_eq!(
        take(Top::Number { is_integer: 1, integer: 5, number: 0 }),
        PopAction::Take(Value::Integer(5))
    );
    assert_eq!(
        take(Top::Number { is_integer: 0, integer: 5, number: 7 }),
        PopAction::Take(Value::Number(7))
    );
    assert_eq!(take(Top::String), PopAction::Pin(RefKind::String));
    assert_eq!(take(Top::Table), PopAction::Pin(RefKind::Table));
    assert_eq!(take(Top::Function), PopAction::Pin(RefKind::Function));
    assert_eq!(take(Top::Thread), PopAction::Pin(RefKind::Thread));
}

#[test]
fn userdata_is_unwrapped() {
    let lua = handle();
    let top = |wrapped_error, wrapped_panic| Top::UserData { wrapped_error, wrapped_panic };
    assert_eq!(lua.pop_value(top(Some(6), None)), PopAction::Take(Value::Error(6)));
    assert_eq!(lua.pop_value(top(None, Some(true))), PopAction::Resume);
    assert_eq!(lua.pop_value(top(None, Some(false))), PopAction::Take(Value::Nil));
    assert_eq!(lua.pop_value(top(None, None)), PopAction::Pin(RefKind::UserData));
}

#[test]
fn lists_of_values() {
    let mut list = MultiValue::from_vec(vec![Value::Integer(1), Value::Nil, Value::Integer(3)]);
    assert_eq!(list.len(), 3);
    assert_eq!(list.get(2), Value::Integer(3));
    list.push_front(Value::Boolean(true));
    assert_eq!(
        list.to_vec(),
        vec![Value::Boolean(true), Value::Integer(1), Value::Nil, Value::Integer(3)]
    );
    assert_eq!(list.pop_front(), Some(Value::Boolean(true)));
    assert_eq!(list.pop_front(), Some(Value::Integer(1)));
    assert_eq!(list.len(), 2);
    assert_eq!(MultiValue::new().pop_front(), None);
}

#[test]
fn kinds_have_names() {
    assert_eq!(Value::Nil.kind_name(), "nil");
    assert_eq!(Value::LightUserData(0).kind_name(), "light userdata");
    assert_eq!(Value::from_ref(RefKind::Thread, slot(1)).kind_name(), "thread");
    assert_eq!(Value::Error(1).kind_name(), "error");
}
