use mlua_core::options::{GCMode, LuaOptions};

#[test]
fn default_options_catch_panics() {
    assert!(LuaOptions::new().catch_rust_panics);
    assert!(LuaOptions::default().catch_rust_panics);
}

#[test]
fn catch_rust_panics_is_set() {
    assert!(!LuaOptions::new().catch_rust_panics(false).catch_rust_panics);
    assert!(LuaOptions::new().catch_rust_panics(false).catch_rust_panics(true).catch_rust_panics);
}

#[test]
fn gc_modes_differ() {
    assert!(GCMode::Incremental != GCMode::Generational);
}
