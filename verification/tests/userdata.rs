use mlua_core::error::Error;
use mlua_core::lua::{ExtraData, Lua};
use mlua_core::machine::{CallKind, Callback, Index, Instr, Outcome};
use mlua_core::metatable::{MetatablePlan, UserDataCheck};
use mlua_core::userdata::{
    meta_field_value, MetaKind, MetaMethod, StaticUserDataFields, StaticUserDataMethods,
};
use mlua_core::value::{LuaRef, RefKind, Value};
use mlua_core::version::Version;

fn handle() -> Lua {
    Lua {
        state: 10,
        main_state: Some(20),
        extra: 1,
        ephemeral: true,
        safe: false,
        version: Version::Lua54,
    }
}

fn meta(name: &str, kind: MetaKind, restricted: Option<u64>) -> MetaMethod {
    MetaMethod { name: name.as_bytes().to_vec(), kind, restricted }
}

fn cb(kind: CallKind, id: u64) -> Instr {
    Instr::PushCallback(Callback { kind, id })
}

fn set(name: &str) -> Instr {
    Instr::RawSetField(Index::FromTop(2), name.as_bytes().to_vec())
}

fn made(plan: MetatablePlan) -> Vec<Instr> {
    match plan {
        MetatablePlan::Make(p) => {
            assert_eq!(p.outcome, Outcome::RegistryId);
            assert_eq!(p.guard, Some(1));
            p.steps
        }
        MetatablePlan::Registered(_) => panic!("registered"),
    }
}

#[test]
fn an_empty_type_has_a_metatable_of_its_own() {
    let steps = made(handle().push_userdata_metatable(
        &ExtraData::new(),
        1,
        4,
        &StaticUserDataMethods::default(),
        &StaticUserDataFields::default(),
    ));
    assert_eq!(
        steps,
        vec![
            Instr::CheckStack(13),
            Instr::CreateTable(0, 0),
            Instr::InitUserDataMetatable {
                metatable: 5,
                field_getters: None,
                field_setters: None,
                methods: None
            },
            Instr::Pop(0),
            Instr::PushValue(Index::FromTop(1)),
            Instr::MakeRef,
        ]
    );
}

#[test]
fn methods_and_fields_make_a_metatable() {
    let mut methods = StaticUserDataMethods::default();
    methods.add_method(b"get", 1);
    methods.add_method_mut(b"set", 2);
    methods.add_async_method(b"wait", 3);
    methods.add_function(b"make", 4);
    methods.add_function_mut(b"count", 5);
    methods.add_async_function(b"sleep", 6);
    methods.add_meta_method(meta("__add", MetaKind::Other, None), 7);
    methods.add_meta_method_mut(meta("__call", MetaKind::Other, None), 8);
    methods.add_meta_function(meta("__eq", MetaKind::Other, None), 9);
    methods.add_meta_function_mut(meta("__lt", MetaKind::Other, None), 10);
    let mut fields = StaticUserDataFields::default();
    fields.add_field_method_get(b"x", 11);
    fields.add_field_function_get(b"y", 12);
    fields.add_field_method_set(b"x", 13);
    fields.add_field_function_set(b"y", 14);
    fields.add_meta_field_with(meta("__index", MetaKind::Index, None), 15);
    let steps =
        made(handle().push_userdata_metatable(&ExtraData::new(), 1, 0, &methods, &fields));
    assert_eq!(
        steps,
        vec![
            Instr::CheckStack(13),
            Instr::CreateTable(0, 5),
            cb(CallKind::Method, 7),
            set("__add"),
            cb(CallKind::MethodMut, 8),
            set("__call"),
            cb(CallKind::Function, 9),
            set("__eq"),
            cb(CallKind::FunctionMut, 10),
            set("__lt"),
            Instr::PushMetaField(15),
            set("__index"),
            Instr::CreateTable(0, 2),
            cb(CallKind::Method, 11),
            set("x"),
            cb(CallKind::Function, 12),
            set("y"),
            Instr::CreateTable(0, 2),
            cb(CallKind::MethodMut, 13),
            set("x"),
            cb(CallKind::FunctionMut, 14),
            set("y"),
            Instr::CreateTable(0, 6),
            cb(CallKind::Method, 1),
            set("get"),
            cb(CallKind::MethodMut, 2),
            set("set"),
            cb(CallKind::Function, 4),
            set("make"),
            cb(CallKind::FunctionMut, 5),
            set("count"),
            cb(CallKind::AsyncMethod, 3),
            set("wait"),
            cb(CallKind::AsyncFunction, 6),
            set("sleep"),
            Instr::InitUserDataMetatable {
                metatable: 1,
                field_getters: Some(2),
                field_setters: Some(3),
                methods: Some(4)
            },
            Instr::Pop(3),
            Instr::PushValue(Index::FromTop(1)),
            Instr::MakeRef,
        ]
    );
}

#[test]
fn missing_tables_leave_no_gap() {
    let mut methods = StaticUserDataMethods::default();
    methods.add_async_function(b"f", 1);
    let mut fields = StaticUserDataFields::default();
    fields.add_field_method_set(b"x", 2);
    let steps =
        made(handle().push_userdata_metatable(&ExtraData::new(), 1, 7, &methods, &fields));
    let n = steps.len();
    assert_eq!(
        steps[n - 4],
        Instr::InitUserDataMetatable {
            metatable: 8,
            field_getters: None,
            field_setters: Some(9),
            methods: Some(10)
        }
    );
    assert_eq!(steps[n - 3], Instr::Pop(2));
}

#[test]
fn a_restricted_field_fails() {
    let mut methods = StaticUserDataMethods::default();
    methods.add_meta_method(meta("__gc", MetaKind::Other, Some(44)), 7);
    let steps = made(handle().push_userdata_metatable(
        &ExtraData::new(),
        1,
        0,
        &methods,
        &StaticUserDataFields::default(),
    ));
    assert_eq!(steps[2], cb(CallKind::Method, 7));
    assert_eq!(steps[3], Instr::Fail(Error::Foreign(44)));
}

#[test]
fn a_metatable_is_made_once() {
    let lua = handle();
    let mut extra = ExtraData::new();
    let methods = StaticUserDataMethods::default();
    let fields = StaticUserDataFields::default();
    lua.register_userdata(&mut extra, 5, 33, 0x1000);
    match lua.push_userdata_metatable(&extra, 5, 0, &methods, &fields) {
        MetatablePlan::Registered(p) => {
            assert_eq!(p.steps, vec![Instr::RawGetI(Index::Registry, 33)]);
            assert_eq!(p.guard, None);
        }
        MetatablePlan::Make(_) => panic!("made twice"),
    }
    assert!(matches!(
        lua.push_userdata_metatable(&extra, 6, 0, &methods, &fields),
        MetatablePlan::Make(_)
    ));
}

#[test]
fn only_registered_userdata_is_accepted() {
    let lua = handle();
    let mut extra = ExtraData::new();
    assert_eq!(
        lua.push_userdata_ref(&extra, None),
        UserDataCheck::Settled { pops: 0, result: Err(Error::UserDataTypeMismatch) }
    );
    assert_eq!(lua.push_userdata_ref(&extra, Some(8)), UserDataCheck::Compare);
    lua.register_userdata_metatable(&mut extra, 8);
    assert_eq!(
        lua.push_userdata_ref(&extra, Some(8)),
        UserDataCheck::Settled { pops: 1, result: Ok(()) }
    );
    lua.deregister_userdata_metatable(&mut extra, 8);
    assert_eq!(lua.push_userdata_ref(&extra, Some(8)), UserDataCheck::Compare);
    assert_eq!(
        lua.compared_userdata(1),
        UserDataCheck::Settled { pops: 2, result: Err(Error::UserDataDestructed) }
    );
    assert_eq!(
        lua.compared_userdata(0),
        UserDataCheck::Settled { pops: 2, result: Err(Error::UserDataTypeMismatch) }
    );
}

#[test]
fn a_userdata_gets_its_metatable() {
    let plan = handle().create_userdata();
    assert_eq!(plan.push.steps, vec![Instr::CheckStack(2), Instr::PushUserData]);
    assert_eq!(plan.attach.steps, vec![Instr::SetMetatable(Index::FromTop(2))]);
    assert_eq!(plan.attach.outcome, Outcome::Reference(RefKind::UserData));
    assert_eq!(handle().create_ser_userdata(), plan);
}

#[test]
fn index_fields_hold_what_lua_can_look_into() {
    let table = Value::Table(LuaRef { extra: 1, index: 1 });
    let function = Value::Function(LuaRef { extra: 1, index: 1 });
    for kind in [MetaKind::Index, MetaKind::NewIndex, MetaKind::Other] {
        assert_eq!(meta_field_value(kind, Value::Nil), Ok(Value::Nil));
        assert_eq!(meta_field_value(kind, table), Ok(table));
        assert_eq!(meta_field_value(kind, function), Ok(function));
    }
    assert_eq!(meta_field_value(MetaKind::Other, Value::Integer(1)), Ok(Value::Integer(1)));
    assert_eq!(
        meta_field_value(MetaKind::Index, Value::Integer(1)),
        Err(Error::MetaMethodTypeError {
            method: "__index".to_string(),
            kind_name: "integer".to_string(),
            message: Some("expected nil, table or function".to_string()),
        })
    );
    assert_eq!(
        meta_field_value(MetaKind::NewIndex, Value::Boolean(true)),
        Err(Error::MetaMethodTypeError {
            method: "__newindex".to_string(),
            kind_name: "boolean".to_string(),
            message: Some("expected nil, table or function".to_string()),
        })
    );
}
