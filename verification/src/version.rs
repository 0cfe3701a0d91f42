use vstd::prelude::*;

verus! {

/// Language version of the Lua library that the embedder is linked with.
#[derive(Clone, Copy, Debug, PartialEq, Eq, Structural)]
pub enum Version {
    Lua54,
    Lua53,
    Lua52,
    Lua51,
    LuaJit,
}

impl Version {
    /// Lua 5.2 and later: the state takes an allocator of the embedder, the globals table sits in
    /// the registry, and a chunk's environment is its first upvalue.
    pub open spec fn modern(self) -> bool {
        self == Version::Lua54 || self == Version::Lua53 || self == Version::Lua52
    }

    /// Whether this is Lua 5.2 or later.
    pub fn is_modern(self) -> (b: bool)
        ensures
            b == self.modern(),
            b <==> self == Version::Lua54 || self == Version::Lua53 || self == Version::Lua52,
    {
        match self {
            Version::Lua54 | Version::Lua53 | Version::Lua52 => true,
            Version::Lua51 | Version::LuaJit => false,
        }
    }

    /// Whether this is LuaJIT.
    pub fn is_jit(self) -> (b: bool)
        ensures
            b == (self == Version::LuaJit),
    {
        match self {
            Version::LuaJit => true,
            _ => false,
        }
    }
}

} // verus!
