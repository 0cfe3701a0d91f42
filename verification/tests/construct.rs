use mlua_core::construct::{load_from_std_lib, Features};
use mlua_core::error::Error;
use mlua_core::gc::{LUA_GCRESTART, LUA_GCSTOP};
use mlua_core::lua::{Close, ExtraData, HookCall, Lua};
use mlua_core::machine::{
    Builtin, CFunction, GcType, GcValue, Index, Instr, Outcome, RegistrySlot,
};
use mlua_core::memory::MemoryInfo;
use mlua_core::options::{GCMode, LuaOptions};
use mlua_core::stdlib::{libraries_to_open, Library, StdLib};
use mlua_core::value::RefKind;
use mlua_core::version::Version;

fn handle(version: Version, safe: bool) -> Lua {
    Lua { state: 10, main_state: Some(20), extra: 1, ephemeral: true, safe, version }
}

fn bytes(text: &str) -> Vec<u8> {
    text.as_bytes().to_vec()
}

fn disable_steps(globals: Instr, searchers: &str) -> Vec<Instr> {
    vec![
        Instr::CheckStack(5),
        globals,
        Instr::GetField(Index::FromTop(1), bytes("package")),
        Instr::Expect(RefKind::Table),
        Instr::PushBuiltin(Builtin::RefuseLoadlib),
        Instr::SetField(Index::FromTop(2), bytes("loadlib")),
        Instr::GetField(Index::FromTop(1), bytes(searchers)),
        Instr::Expect(RefKind::Table),
        Instr::PushBuiltin(Builtin::RefuseSearcher),
        Instr::RawSetI(Index::FromTop(2), 3),
        Instr::RawRemove(Index::FromTop(1), 4),
    ]
}

#[test]
fn modules_are_opened_in_order() {
    assert_eq!(
        libraries_to_open(Version::Lua54, StdLib::all()),
        vec![
            Library::Coroutine,
            Library::Table,
            Library::Io,
            Library::Os,
            Library::String,
            Library::Utf8,
            Library::Math,
            Library::Debug,
            Library::Package,
        ]
    );
    assert_eq!(
        libraries_to_open(Version::LuaJit, StdLib::all()),
        vec![
            Library::Table,
            Library::Io,
            Library::Os,
            Library::String,
            Library::Bit,
            Library::Math,
            Library::Debug,
            Library::Package,
            Library::Jit,
            Library::Ffi,
        ]
    );
    assert_eq!(
        libraries_to_open(Version::Lua52, Library::Bit.flag().union(Library::Utf8.flag())),
        vec![Library::Bit]
    );
    assert_eq!(libraries_to_open(Version::Lua51, StdLib::none()), vec![]);
}

#[test]
fn flags_of_modules() {
    assert_eq!(StdLib::all().bits, u32::MAX);
    assert_eq!(StdLib::all_safe().bits, (1 << 30) - 1);
    assert!(!StdLib::all_safe().contains(Library::Debug.flag()));
    assert!(!StdLib::all_safe().contains(Library::Ffi.flag()));
    assert!(StdLib::all_safe().contains(Library::Package.flag()));
    let both = Library::Io.flag().union(Library::Os.flag());
    assert!(both.difference(Library::Io.flag()).contains_library(Library::Os));
    assert!(!both.difference(Library::Io.flag()).contains_library(Library::Io));
}

#[test]
fn the_collector_rests_while_jit_modules_are_loaded() {
    let libs = Library::Math.flag();
    assert_eq!(
        load_from_std_lib(Version::LuaJit, libs).steps,
        vec![
            Instr::Gc(LUA_GCSTOP, 0),
            Instr::OpenLibrary(Library::Math),
            Instr::Pop(1),
            Instr::Gc(LUA_GCRESTART, -1),
        ]
    );
    assert_eq!(
        load_from_std_lib(Version::Lua53, libs).steps,
        vec![Instr::OpenLibrary(Library::Math), Instr::Pop(1)]
    );
}

#[test]
fn a_new_state_is_safe() {
    let c = Lua::new(Version::Lua54);
    assert!(c.safe);
    assert_eq!(c.libs, StdLib::all_safe());
    assert_eq!(c.memory, Some(MemoryInfo::new()));
    assert_eq!(c.options, None);
    assert_eq!(c.base.steps, vec![Instr::OpenBase, Instr::Pop(1)]);
    let plan = c.disable_c_modules.unwrap();
    assert_eq!(
        plan.steps,
        disable_steps(Instr::RawGetI(Index::Registry, 2), "searchers")
    );
    assert_eq!(plan.guard, Some(0));
}

#[test]
fn an_unsafe_state_has_everything() {
    let c = Lua::unsafe_new(Version::LuaJit);
    assert!(!c.safe);
    assert_eq!(c.libs, StdLib::all());
    assert_eq!(c.memory, None);
    assert_eq!(c.disable_c_modules, None);
}

#[test]
fn without_package_there_is_nothing_to_disable() {
    let c = Lua::new_with(Version::Lua53, Library::Math.flag(), LuaOptions::new()).unwrap();
    assert!(c.safe);
    assert_eq!(c.disable_c_modules, None);
}

#[test]
fn a_safe_state_refuses_debug_and_ffi() {
    let debug = Library::Debug.flag();
    let ffi = Library::Ffi.flag();
    assert_eq!(
        Lua::new_with(Version::Lua54, debug, LuaOptions::new()),
        Err(Error::SafetyError(
            "the unsafe `debug` module can't be loaded using safe `new_with`".to_string()
        ))
    );
    assert_eq!(
        Lua::new_with(Version::LuaJit, ffi, LuaOptions::new()),
        Err(Error::SafetyError(
            "the unsafe `ffi` module can't be loaded using safe `new_with`".to_string()
        ))
    );
    assert_eq!(
        Lua::new_with(Version::LuaJit, ffi.union(debug), LuaOptions::new()),
        Err(Error::SafetyError(
            "the unsafe `debug` module can't be loaded using safe `new_with`".to_string()
        ))
    );
    assert!(Lua::new_with(Version::Lua54, ffi, LuaOptions::new()).is_ok());
}

#[test]
fn panics_can_be_resumed() {
    let options = LuaOptions::new().catch_rust_panics(false);
    let c = Lua::unsafe_new_with(Version::Lua51, StdLib::none(), options);
    assert_eq!(
        c.options.unwrap().steps,
        vec![
            Instr::PushValue(Index::Globals),
            Instr::PushCFunction(CFunction::NoPanicPcall),
            Instr::RawSetField(Index::FromTop(2), bytes("pcall")),
            Instr::PushCFunction(CFunction::NoPanicXpcall),
            Instr::RawSetField(Index::FromTop(2), bytes("xpcall")),
        ]
    );
}

#[test]
fn a_state_is_taken_over() {
    let features = Features { asynchronous: true, serialize: true };
    let (lua, extra, init) = Lua::init_from_ptr(Version::Lua54, features, 5, None, 9);
    assert_eq!(
        lua,
        Lua {
            state: 5,
            main_state: None,
            extra: 9,
            ephemeral: true,
            safe: false,
            version: Version::Lua54
        }
    );
    assert_eq!(extra.registry_unref_list, Some(vec![]));
    assert!(!extra.safe);
    assert_eq!(extra.libs, StdLib::none());
    assert_eq!(
        init.prepare.steps,
        vec![
            Instr::InitErrorRegistry,
            Instr::InitGcMetatable(GcType::Callback),
            Instr::InitGcMetatable(GcType::Lua),
            Instr::InitGcMetatable(GcType::ExtraData),
            Instr::InitGcMetatable(GcType::AsyncCallback),
            Instr::InitGcMetatable(GcType::Future),
            Instr::InitGcMetatable(GcType::Waker),
            Instr::PushGcUserdata(GcValue::NoWaker),
            Instr::RawSetP(RegistrySlot::Waker),
            Instr::InitSerdeMetatables,
            Instr::NewThread,
            Instr::MakeRef,
        ]
    );
    assert_eq!(init.prepare.outcome, Outcome::RegistryId);
    assert_eq!(
        init.store.steps,
        vec![
            Instr::PushGcUserdata(GcValue::ExtraData),
            Instr::RawSetP(RegistrySlot::Extra),
            Instr::AssertStack(20),
        ]
    );
    let bare = Features { asynchronous: false, serialize: false };
    let (_, _, init) = Lua::init_from_ptr(Version::Lua51, bare, 5, Some(5), 9);
    assert_eq!(init.prepare.steps.len(), 6);
}

#[test]
fn a_state_that_is_taken_over_has_no_memory_limit() {
    let features = Features { asynchronous: false, serialize: false };
    let (lua, _, init) = Lua::init_from_ptr(Version::Lua54, features, 5, None, 9);
    assert_eq!(init.memory, None);
    let mut memory = init.memory;
    assert_eq!(lua.set_memory_limit(&mut memory, 500), Err(Error::MemoryLimitNotAvailable));
    assert_eq!(Lua::new(Version::Lua54).memory, Some(MemoryInfo::new()));
}

#[test]
fn a_construction_ends_in_safe_mode() {
    let c = Lua::new(Version::Lua54);
    let features = Features { asynchronous: false, serialize: false };
    let (lua, mut extra, _) = Lua::init_from_ptr(Version::Lua54, features, 5, Some(5), 9);
    let lua = c.adopt(lua, &mut extra);
    assert!(!lua.ephemeral && !lua.safe && !extra.safe);
    assert_eq!(extra.libs, StdLib::all_safe());
    let lua = c.secure(lua, &mut extra);
    assert!(lua.safe && extra.safe && !lua.ephemeral);
    let copy = lua.clone();
    assert!(copy.ephemeral && copy.safe);
    let further = Lua::make_from_ptr(Version::Lua54, 6, Some(5), 9, &extra);
    assert!(further.ephemeral && further.safe && further.state == 6 && further.extra == 9);
}

#[test]
fn package_loses_c_modules_once() {
    let lua = handle(Version::Lua51, true);
    let mut extra = ExtraData::new();
    let first = lua.load_from_std_lib(&mut extra, Library::Package.flag()).unwrap();
    assert_eq!(first.state, 20);
    assert_eq!(
        first.disable_c_modules.unwrap().steps,
        disable_steps(Instr::PushValue(Index::Globals), "loaders")
    );
    let second = lua.load_from_std_lib(&mut extra, Library::Package.flag()).unwrap();
    assert_eq!(second.disable_c_modules, None);
    assert_eq!(extra.libs, Library::Package.flag());
}

#[test]
fn package_keeps_c_modules_without_safe_mode() {
    let lua = handle(Version::Lua54, false);
    let mut extra = ExtraData::new();
    let plan = lua.load_from_std_lib(&mut extra, StdLib::all()).unwrap();
    assert_eq!(plan.disable_c_modules, None);
    assert_eq!(extra.libs, StdLib::all());
}

#[test]
fn safe_mode_refuses_to_load_unsafe_modules() {
    let mut extra = ExtraData::new();
    assert_eq!(
        handle(Version::Lua54, true).load_from_std_lib(&mut extra, Library::Debug.flag()),
        Err(Error::SafetyError(
            "the unsafe `debug` module can't be loaded in safe mode".to_string()
        ))
    );
    assert_eq!(
        handle(Version::LuaJit, true).load_from_std_lib(&mut extra, Library::Ffi.flag()),
        Err(Error::SafetyError(
            "the unsafe `ffi` module can't be loaded in safe mode".to_string()
        ))
    );
    assert_eq!(extra.libs, StdLib::none());
}

#[test]
fn stand_ins_refuse() {
    assert_eq!(
        Lua::loadlib_refusal(),
        Error::SafetyError("package.loadlib is disabled in safe mode".to_string())
    );
    assert_eq!(Lua::searcher_refusal(), "\n\tcan't load C modules in safe mode");
}

#[test]
fn closing_is_up_to_the_owner() {
    let mut lua = handle(Version::Lua54, false);
    let mut extra = ExtraData::new();
    assert_eq!(lua.close(&mut extra, 0), None);
    assert_eq!(extra.registry_unref_list, Some(vec![]));
    lua.ephemeral = false;
    assert_eq!(lua.close(&mut extra, 0), Some(Close { main_state: 20, leak: false }));
    assert_eq!(extra.registry_unref_list, None);
    extra.refs.ref_stack_pop();
    assert_eq!(lua.close(&mut extra, 1), Some(Close { main_state: 20, leak: true }));
}

#[test]
fn hooks_need_the_main_state() {
    let mut extra = ExtraData::new();
    let lua = handle(Version::Lua54, false);
    assert_eq!(
        lua.install_hook(&mut extra, 77, 8, 100),
        Ok(HookCall { state: 20, installed: true, mask: 8, count: 100 })
    );
    assert_eq!(lua.hook_callback(&extra), Some(77));
    assert_eq!(
        lua.remove_hook(&mut extra),
        Some(HookCall { state: 20, installed: false, mask: 0, count: 0 })
    );
    assert_eq!(lua.hook_callback(&extra), None);
    let lost = Lua { main_state: None, ..lua };
    assert_eq!(
        lost.install_hook(&mut extra, 77, 8, 100),
        Err(Error::MainThreadNotAvailable)
    );
    assert_eq!(lost.remove_hook(&mut extra), None);
    assert_eq!(extra.hook_callback, None);
}

#[test]
fn the_collector_is_commanded() {
    let lua = handle(Version::Lua53, false);
    assert_eq!(lua.gc_step(), lua.gc_step_kbytes(0));
    let step = lua.gc_step_kbytes(7);
    assert_eq!((step.state, step.what, step.args), (20, 5, vec![7]));
    assert_eq!(lua.gc_stop().what, 0);
    assert_eq!(lua.gc_restart().what, 1);
    assert_eq!(lua.gc_collect().what, 2);
    assert_eq!(lua.gc_is_running().what, 9);
    assert_eq!(lua.gc_set_pause(200).what, 6);
    assert_eq!(lua.gc_set_step_multiplier(300).args, vec![300]);
    assert!(Lua::gc_answer(1));
    assert!(!Lua::gc_answer(0));
}

#[test]
fn incremental_mode_before_its_time() {
    let lua = handle(Version::Lua53, false);
    let change = lua.gc_inc(100, 0, 13);
    assert_eq!(change.previous, Some(GCMode::Incremental));
    assert_eq!(change.calls, vec![lua.gc_set_pause(100)]);
    assert_eq!(lua.gc_inc(0, 0, 13).calls, vec![]);
    assert_eq!(
        lua.gc_inc(1, 2, 3).calls,
        vec![lua.gc_set_pause(1), lua.gc_set_step_multiplier(2)]
    );
    assert_eq!(lua.gc_inc(-1, 2, 3).calls, vec![lua.gc_set_step_multiplier(2)]);
}

#[test]
fn modes_of_the_collector() {
    let lua = handle(Version::Lua54, false);
    let inc = lua.gc_inc(0, 2, 3);
    assert_eq!(inc.previous, None);
    assert_eq!((inc.calls[0].what, inc.calls[0].args.clone()), (11, vec![0, 2, 3]));
    let gen = lua.gc_gen(20, 100);
    assert_eq!((gen.calls[0].what, gen.calls[0].args.clone()), (10, vec![20, 100]));
    assert_eq!(Lua::gc_previous_mode(11), GCMode::Incremental);
    assert_eq!(Lua::gc_previous_mode(10), GCMode::Generational);
}
