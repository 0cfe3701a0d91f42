use mlua_core::create::Coerced;
use mlua_core::error::Error;
use mlua_core::lua::{ExtraData, Lua};
use mlua_core::machine::{Index, Instr, Outcome};
use mlua_core::registry::RegistryKey;
use mlua_core::value::{LuaRef, RefKind, Value};
use mlua_core::version::Version;

fn handle(extra: u64) -> Lua {
    Lua {
        state: 10,
        main_state: Some(20),
        extra,
        ephemeral: true,
        safe: false,
        version: Version::Lua54,
    }
}

#[test]
fn named_values_are_set_and_got() {
    let lua = handle(1);
    let plan = lua.set_named_registry_value(b"k", Value::Integer(4));
    assert_eq!(
        plan.steps,
        vec![
            Instr::CheckStack(5),
            Instr::PushInteger(4),
            Instr::RawSetField(Index::Registry, b"k".to_vec()),
        ]
    );
    assert_eq!(plan.outcome, Outcome::Unit);
    let plan = lua.named_registry_value(b"k");
    assert_eq!(
        plan.steps,
        vec![
            Instr::CheckStack(3),
            Instr::PushString(b"k".to_vec()),
            Instr::RawGet(Index::Registry),
        ]
    );
    assert_eq!(plan.outcome, Outcome::Value);
}

#[test]
fn unsetting_is_setting_nil() {
    let lua = handle(1);
    assert_eq!(
        lua.unset_named_registry_value(b"k"),
        lua.set_named_registry_value(b"k", Value::Nil)
    );
}

#[test]
fn values_are_kept_under_keys() {
    let lua = handle(1);
    let plan = lua.create_registry_value(Value::Boolean(true));
    assert_eq!(
        plan.steps,
        vec![Instr::CheckStack(4), Instr::PushBoolean(1), Instr::MakeRef]
    );
    assert_eq!(plan.outcome, Outcome::RegistryId);
    let key = lua.registry_key(12);
    assert!(lua.owns_registry_value(&key));
    let plan = lua.registry_value(&key).unwrap();
    assert_eq!(plan.steps, vec![Instr::CheckStack(1), Instr::RawGetI(Index::Registry, 12)]);
    let plan = lua.remove_registry_value(key).unwrap();
    assert_eq!(plan.steps, vec![Instr::Unref(12)]);
}

#[test]
fn copies_of_a_handle_share_their_keys() {
    let lua = handle(1);
    let key = lua.clone().registry_key(3);
    assert!(lua.owns_registry_value(&key));
}

#[test]
fn keys_of_another_state_are_refused() {
    let lua = handle(1);
    let key = handle(2).registry_key(3);
    assert!(!lua.owns_registry_value(&key));
    assert_eq!(lua.registry_value(&key), Err(Error::MismatchedRegistryKey));
    assert_eq!(lua.remove_registry_value(key), Err(Error::MismatchedRegistryKey));
}

#[test]
fn dropped_keys_expire() {
    let lua = handle(1);
    let mut extra = ExtraData::new();
    extra.drop_registry_key(4);
    extra.drop_registry_key(9);
    assert_eq!(
        lua.expire_registry_values(&mut extra).steps,
        vec![Instr::Unref(4), Instr::Unref(9)]
    );
    assert_eq!(lua.expire_registry_values(&mut extra).steps, vec![]);
    assert_eq!(extra.registry_unref_list, Some(vec![]));
}

#[test]
fn a_closed_state_collects_no_keys() {
    let mut lua = handle(1);
    lua.ephemeral = false;
    let mut extra = ExtraData::new();
    lua.close(&mut extra, 0);
    extra.drop_registry_key(4);
    assert_eq!(extra.registry_unref_list, None);
}

#[test]
fn keys_are_compared_by_list_and_number() {
    let key = RegistryKey { registry_id: 3, unref_list: 1 };
    assert_eq!(handle(1).registry_key(3), key);
    assert_ne!(handle(2).registry_key(3), key);
}

#[test]
fn things_are_made() {
    let lua = handle(1);
    assert_eq!(
        lua.create_string(b"a\0b").steps,
        vec![Instr::CheckStack(3), Instr::PushString(b"a\0b".to_vec())]
    );
    assert_eq!(lua.create_table().steps, vec![Instr::CheckStack(2), Instr::NewTable]);
    assert_eq!(
        lua.create_table_with_capacity(2, 3).steps,
        vec![Instr::CheckStack(4), Instr::CreateTable(2, 3)]
    );
    assert_eq!(
        lua.globals().steps,
        vec![Instr::AssertStack(1), Instr::RawGetI(Index::Registry, 2)]
    );
    assert_eq!(lua.current_thread().steps, vec![Instr::AssertStack(1), Instr::PushThread]);
    let old = Lua { version: Version::LuaJit, ..handle(1) };
    assert_eq!(
        old.globals().steps,
        vec![Instr::AssertStack(1), Instr::PushValue(Index::Globals)]
    );
}

#[test]
fn a_table_is_filled_entry_by_entry() {
    let lua = handle(1);
    let mut steps = lua.begin_table(7);
    lua.table_entry(&mut steps, Value::Integer(1), Value::Nil);
    assert_eq!(
        steps,
        vec![
            Instr::CheckStack(6),
            Instr::CreateTable(0, 7),
            Instr::PushInteger(1),
            Instr::PushNil,
            Instr::RawSet(Index::FromTop(3)),
        ]
    );
    let plan = lua.create_table_from(7, &[(Value::Integer(1), Value::Nil)]);
    assert_eq!(plan.steps, steps);
    assert_eq!(plan.outcome, Outcome::Reference(RefKind::Table));
}

#[test]
fn a_sequence_counts_from_one() {
    let lua = handle(1);
    let mut steps = lua.begin_sequence(0);
    lua.sequence_element(&mut steps, 0, Value::Boolean(true));
    lua.sequence_element(&mut steps, 1, Value::Boolean(false));
    assert_eq!(
        steps,
        vec![
            Instr::CheckStack(6),
            Instr::CreateTable(0, 0),
            Instr::PushBoolean(1),
            Instr::RawSetI(Index::FromTop(2), 1),
            Instr::PushBoolean(0),
            Instr::RawSetI(Index::FromTop(2), 2),
        ]
    );
    let plan = lua.create_sequence_from(0, &[Value::Boolean(true), Value::Boolean(false)]);
    assert_eq!(plan.steps, steps);
}

#[test]
fn hints_are_cut_to_size() {
    let lua = handle(1);
    assert_eq!(lua.begin_table(0x1_0000_0002)[1], Instr::CreateTable(0, 2));
}

#[test]
fn conversions_are_no_work_where_the_type_fits() {
    let lua = handle(1);
    let s = LuaRef { extra: 1, index: 2 };
    assert_eq!(lua.coerce_string(Value::String(s)), Coerced::Known(s));
    assert_eq!(lua.coerce_integer(Value::Integer(5)), Coerced::Known(5));
    assert_eq!(lua.coerce_number(Value::Number(6)), Coerced::Known(6));
}

#[test]
fn conversions_ask_lua() {
    let lua = handle(1);
    match lua.coerce_string(Value::Integer(5)) {
        Coerced::Ask(plan) => {
            assert_eq!(
                plan.steps,
                vec![Instr::CheckStack(5), Instr::PushInteger(5), Instr::ToText]
            );
            assert_eq!(plan.outcome, Outcome::Text);
        }
        other => panic!("{:?}", other),
    }
    match lua.coerce_integer(Value::Nil) {
        Coerced::Ask(plan) => {
            assert_eq!(plan.steps, vec![Instr::CheckStack(2), Instr::PushNil]);
            assert_eq!(plan.outcome, Outcome::Integer);
        }
        other => panic!("{:?}", other),
    }
    match lua.coerce_number(Value::Integer(1)) {
        Coerced::Ask(plan) => assert_eq!(plan.outcome, Outcome::Number),
        other => panic!("{:?}", other),
    }
    assert_eq!(Lua::coerced(1, 5i64), Some(5));
    assert_eq!(Lua::coerced(0, 5i64), None);
}
