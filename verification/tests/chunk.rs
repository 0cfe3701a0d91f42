use mlua_core::chunk::{is_binary, EvalStep};
use mlua_core::error::Error;
use mlua_core::lua::Lua;
use mlua_core::machine::{Index, Instr, LoadMode, Outcome};
use mlua_core::options::ChunkMode;
use mlua_core::text::decimal_text;
use mlua_core::value::{LuaRef, RefKind, Value};
use mlua_core::version::Version;

fn handle(version: Version, safe: bool) -> Lua {
    Lua { state: 10, main_state: Some(20), extra: 1, ephemeral: true, safe, version }
}

fn load(source: &[u8], mode: LoadMode) -> Instr {
    Instr::LoadBuffer { source: source.to_vec(), name: None, mode }
}

fn refusal() -> Instr {
    Instr::Fail(Error::SafetyError("binary chunks are disabled in safe mode".to_string()))
}

#[test]
fn text_is_loaded() {
    let lua = handle(Version::Lua54, true);
    let plan = lua.load(b"return 1").into_function();
    assert_eq!(plan.steps, vec![Instr::CheckStack(1), load(b"return 1", LoadMode::Any)]);
    assert_eq!(plan.outcome, Outcome::Reference(RefKind::Function));
    assert_eq!(plan.guard, Some(0));
}

#[test]
fn safe_mode_loads_no_binary_chunk() {
    let lua = handle(Version::Lua54, true);
    let source = b"\x1bLua\x54";
    assert_eq!(
        lua.load(source).into_function().steps,
        vec![Instr::CheckStack(1), refusal()]
    );
    assert_eq!(
        lua.load(b"x = 1").set_mode(ChunkMode::Binary).into_function().steps,
        vec![Instr::CheckStack(1), refusal()]
    );
    assert_eq!(
        lua.load(source).set_mode(ChunkMode::Text).into_function().steps,
        vec![Instr::CheckStack(1), load(source, LoadMode::Text)]
    );
}

#[test]
fn the_environment_of_a_refused_chunk_is_not_looked_at() {
    let lua = handle(Version::Lua54, true);
    let foreign = Value::Table(LuaRef { extra: 99, index: 1 });
    let chunk = lua.load(b"\x1bLua\x54").set_environment(Ok(foreign)).unwrap();
    assert_eq!(chunk.into_function().steps, vec![Instr::CheckStack(1), refusal()]);
    let chunk = lua.load(b"x = 1").set_environment(Ok(foreign)).unwrap();
    let plan = chunk.set_mode(ChunkMode::Binary).eval();
    assert_eq!(plan.attempt.unwrap().steps, vec![Instr::CheckStack(1), refusal()]);
    assert_eq!(plan.fallback.steps, vec![Instr::CheckStack(1), refusal()]);
}

#[test]
fn a_source_is_taken_for_what_is_allowed() {
    let safe = handle(Version::Lua54, true);
    let unsafe_ = handle(Version::Lua54, false);
    let (text, binary) = (b"x = 1", b"\x1bLua\x54");
    assert_eq!(safe.load_mode(text, None), Some(LoadMode::Any));
    assert_eq!(safe.load_mode(binary, None), None);
    assert_eq!(safe.load_mode(binary, Some(ChunkMode::Text)), Some(LoadMode::Text));
    assert_eq!(safe.load_mode(text, Some(ChunkMode::Binary)), None);
    assert_eq!(unsafe_.load_mode(binary, None), Some(LoadMode::Any));
    assert_eq!(unsafe_.load_mode(text, Some(ChunkMode::Binary)), Some(LoadMode::Binary));
}

#[test]
fn unsafe_mode_loads_binary_chunks() {
    let lua = handle(Version::Lua54, false);
    let source = b"\x1bLua\x54";
    assert_eq!(
        lua.load(source).into_function().steps,
        vec![Instr::CheckStack(1), load(source, LoadMode::Any)]
    );
    assert_eq!(
        lua.load(source).set_mode(ChunkMode::Binary).into_function().steps,
        vec![Instr::CheckStack(1), load(source, LoadMode::Binary)]
    );
}

#[test]
fn binary_chunks_are_recognized() {
    assert!(is_binary(Version::Lua53, b"\x1bLua"));
    assert!(!is_binary(Version::Lua53, b"\x1bLu"));
    assert!(!is_binary(Version::Lua53, b"\x1bLJ\x02"));
    assert!(is_binary(Version::LuaJit, b"\x1bLJ\x02"));
    assert!(!is_binary(Version::LuaJit, b"\x1bLua"));
    assert!(!is_binary(Version::Lua51, b""));
}

#[test]
fn an_environment_is_set() {
    let env = Value::Table(LuaRef { extra: 1, index: 3 });
    let lua = handle(Version::Lua52, true);
    let chunk = lua.load(b"x").set_environment(Ok(env)).unwrap();
    assert_eq!(
        chunk.into_function().steps,
        vec![
            Instr::CheckStack(1),
            load(b"x", LoadMode::Any),
            Instr::RefPushValue(3),
            Instr::RefToState,
            Instr::SetUpvalue(Index::FromTop(2), 1),
        ]
    );
    let old = handle(Version::Lua51, true);
    let chunk = old.load(b"x").set_environment(Ok(Value::Nil)).unwrap();
    assert_eq!(
        chunk.into_function().steps,
        vec![
            Instr::CheckStack(1),
            load(b"x", LoadMode::Any),
            Instr::PushNil,
            Instr::SetFenv(Index::FromTop(2)),
        ]
    );
}

#[test]
fn a_failed_conversion_is_passed_on() {
    let lua = handle(Version::Lua54, true);
    let r = lua.load(b"x").set_environment(Err(Error::Foreign(4)));
    assert!(matches!(r, Err(Error::Foreign(4))));
}

#[test]
fn names_are_kept() {
    let lua = handle(Version::Lua54, true);
    let chunk = lua.load(b"x").set_name(b"script").unwrap();
    assert_eq!(
        chunk.into_function().steps[1],
        Instr::LoadBuffer {
            source: b"x".to_vec(),
            name: Some(b"script".to_vec()),
            mode: LoadMode::Any
        }
    );
}

#[test]
fn names_hold_no_null_byte() {
    let lua = handle(Version::Lua54, true);
    let name: Vec<u8> = [vec![b'a'; 12], vec![0, b'b', 0]].concat();
    let r = lua.load(b"x").set_name(&name);
    assert_eq!(
        r.err(),
        Some(Error::ToLuaConversionError {
            from: "&str".to_string(),
            to: "string".to_string(),
            message: Some("nul byte found in provided data at position: 12".to_string()),
        })
    );
}

#[test]
fn the_name_error_reads_as_the_standard_one() {
    let lua = handle(Version::Lua54, true);
    let expected = std::string::String::from(
        "nul byte found in provided data at position: 0",
    );
    match lua.load(b"x").set_name(b"\0") {
        Err(Error::ToLuaConversionError { message, .. }) => assert_eq!(message, Some(expected)),
        _ => panic!("the name was accepted"),
    }
}

#[test]
fn numbers_in_decimal() {
    for n in [0usize, 7, 10, 99, 100, 12345, usize::MAX] {
        assert_eq!(decimal_text(n), n.to_string());
    }
}

#[test]
fn source_is_first_tried_as_an_expression() {
    let lua = handle(Version::Lua54, true);
    let plan = lua.load(b"1 + 1").set_name(b"n").unwrap().eval();
    let attempt = plan.attempt.as_ref().unwrap();
    assert_eq!(
        attempt.steps[1],
        Instr::LoadBuffer {
            source: b"return 1 + 1".to_vec(),
            name: Some(b"n".to_vec()),
            mode: LoadMode::Any
        }
    );
    assert_eq!(
        plan.fallback.steps[1],
        Instr::LoadBuffer {
            source: b"1 + 1".to_vec(),
            name: Some(b"n".to_vec()),
            mode: LoadMode::Any
        }
    );
    let f = LuaRef { extra: 1, index: 2 };
    assert_eq!(plan.settle(Some(f)), EvalStep::Call(f));
}

#[test]
fn a_block_is_the_fallback() {
    let lua = handle(Version::Lua54, true);
    let plan = lua.load(b"x = 1").eval();
    let expected = lua.load(b"x = 1").exec();
    assert_eq!(plan.settle(None), EvalStep::Load(expected));
    assert_eq!(lua.load(b"x = 1").call(), lua.load(b"x = 1").into_function());
}

#[test]
fn bytecode_is_no_expression() {
    let lua = handle(Version::Lua54, false);
    let plan = lua.load(b"\x1bLua").eval();
    assert_eq!(plan.attempt, None);
    assert_eq!(plan.settle(None), EvalStep::Load(lua.load(b"\x1bLua").call()));
}
