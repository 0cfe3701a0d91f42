use vstd::prelude::*;

verus! {

/// Mode of the Lua garbage collector (GC).
///
/// In Lua 5.4 the collector works in one of two modes, incremental and generational. Earlier
/// versions are always incremental.
#[derive(Clone, Copy, Debug, PartialEq, Eq, Structural)]
pub enum GCMode {
    Incremental,
    Generational,
}

/// Chunk mode (text or binary).
#[derive(Clone, Copy, Debug, PartialEq, Eq, Structural)]
pub enum ChunkMode {
    Text,
    Binary,
}

/// Controls interpreter behaviour such as the handling of Rust panics.
#[derive(Debug)]
#[non_exhaustive]
pub struct LuaOptions {
    /// Let `pcall` and `xpcall` catch Rust panics.
    ///
    /// If disabled, both functions are replaced by versions that resume a panic they meet.
    /// If enabled, both stay unmodified.
    ///
    /// Default: **true**
    pub catch_rust_panics: bool,
}

impl Clone for LuaOptions {
    fn clone(&self) -> (options: Self)
        ensures
            options == *self,
    {
        LuaOptions { catch_rust_panics: self.catch_rust_panics }
    }
}

impl Default for LuaOptions {
    fn default() -> (options: Self)
        ensures
            options.catch_rust_panics,
    {
        LuaOptions { catch_rust_panics: true }
    }
}

impl LuaOptions {
    /// Returns options with default parameters.
    pub fn new() -> (options: Self)
        ensures
            options.catch_rust_panics,
    {
        Self::default()
    }

    /// Sets the `catch_rust_panics` option.
    pub fn catch_rust_panics(self, enabled: bool) -> (options: Self)
        ensures
            options == (LuaOptions { catch_rust_panics: enabled, ..self }),
    {
        LuaOptions { catch_rust_panics: enabled, ..self }
    }
}

} // verus!
