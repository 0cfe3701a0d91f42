use vstd::prelude::*;
use vstd::string::*;

use crate::text::lemma_bytes_tell_texts_apart;
use crate::version::Version;

verus! {

/// A module of the Lua standard library.
#[derive(Clone, Copy, Debug, PartialEq, Eq, Structural)]
pub enum Library {
    Coroutine,
    Table,
    Io,
    Os,
    String,
    Utf8,
    Bit,
    Math,
    Package,
    Jit,
    Ffi,
    Debug,
}

/// Flags that name a subset of the Lua standard library.
#[derive(Clone, Copy, Debug, PartialEq, Eq, Structural)]
pub struct StdLib {
    pub bits: u32,
}

/// Flags of the modules that cannot break the memory safety of a state.
pub const ALL_SAFE_BITS: u32 = 0x3fff_ffff;

impl Library {
    /// The flag of a module.
    pub open spec fn mask(self) -> u32 {
        match self {
            Library::Coroutine => 0x0000_0001,
            Library::Table => 0x0000_0002,
            Library::Io => 0x0000_0004,
            Library::Os => 0x0000_0008,
            Library::String => 0x0000_0010,
            Library::Utf8 => 0x0000_0020,
            Library::Bit => 0x0000_0040,
            Library::Math => 0x0000_0080,
            Library::Package => 0x0000_0100,
            Library::Jit => 0x0000_0200,
            Library::Ffi => 0x4000_0000,
            Library::Debug => 0x8000_0000,
        }
    }

    /// The flag of a module, as flags.
    pub fn flag(self) -> (libs: StdLib)
        ensures
            libs.bits == self.mask(),
    {
        StdLib {
            bits: match self {
                Library::Coroutine => 0x0000_0001,
                Library::Table => 0x0000_0002,
                Library::Io => 0x0000_0004,
                Library::Os => 0x0000_0008,
                Library::String => 0x0000_0010,
                Library::Utf8 => 0x0000_0020,
                Library::Bit => 0x0000_0040,
                Library::Math => 0x0000_0080,
                Library::Package => 0x0000_0100,
                Library::Jit => 0x0000_0200,
                Library::Ffi => 0x4000_0000,
                Library::Debug => 0x8000_0000,
            },
        }
    }
}

impl StdLib {
    /// Whether a module is in the subset.
    pub open spec fn has(self, lib: Library) -> bool {
        self.bits & lib.mask() != 0
    }

    /// No modules.
    pub fn none() -> (libs: StdLib)
        ensures
            libs.bits == 0,
            forall|lib: Library| !#[trigger] libs.has(lib),
    {
        proof {
            lemma_none_has_nothing();
        }
        StdLib { bits: 0 }
    }

    /// All modules.
    pub fn all() -> (libs: StdLib)
        ensures
            libs.bits == u32::MAX,
            forall|lib: Library| #[trigger] libs.has(lib),
    {
        proof {
            lemma_all_has_everything();
        }
        StdLib { bits: 0xffff_ffff }
    }

    /// All modules but `ffi` and `debug`.
    pub fn all_safe() -> (libs: StdLib)
        ensures
            libs.bits == ALL_SAFE_BITS,
            libs.bits == 0x3fff_ffff,
            forall|lib: Library| #[trigger]
                libs.has(lib) <==> lib != Library::Ffi && lib != Library::Debug,
    {
        proof {
            lemma_safe_has_the_safe();
        }
        StdLib { bits: ALL_SAFE_BITS }
    }

    /// Whether the subset has one of the modules of `libs`.
    pub fn contains(self, libs: StdLib) -> (b: bool)
        ensures
            b == (self.bits & libs.bits != 0),
            forall|lib: Library| libs.bits == #[trigger] lib.mask() ==> b == self.has(lib),
    {
        self.bits & libs.bits != 0
    }

    /// Whether a module is in the subset.
    pub fn contains_library(self, lib: Library) -> (b: bool)
        ensures
            b == self.has(lib),
    {
        self.contains(lib.flag())
    }

    /// The modules of both subsets.
    pub fn union(self, libs: StdLib) -> (all: StdLib)
        ensures
            all.bits == self.bits | libs.bits,
            forall|lib: Library| #[trigger] all.has(lib) <==> self.has(lib) || libs.has(lib),
    {
        proof {
            lemma_union(self, libs);
        }
        StdLib { bits: self.bits | libs.bits }
    }

    /// The modules that are in exactly one of both subsets.
    pub fn difference(self, libs: StdLib) -> (all: StdLib)
        ensures
            all.bits == self.bits ^ libs.bits,
            forall|lib: Library| #[trigger] all.has(lib) <==> self.has(lib) != libs.has(lib),
    {
        proof {
            lemma_difference(self, libs);
        }
        StdLib { bits: self.bits ^ libs.bits }
    }
}

proof fn lemma_none_has_nothing()
    ensures
        forall|lib: Library| !#[trigger] (StdLib { bits: 0 }).has(lib),
{
    assert forall|lib: Library| !#[trigger] (StdLib { bits: 0 }).has(lib) by {
        let m = lib.mask();
        assert(0u32 & m == 0) by (bit_vector);
    }
}

proof fn lemma_all_has_everything()
    ensures
        forall|lib: Library| #[trigger] (StdLib { bits: 0xffff_ffff }).has(lib),
{
    assert forall|lib: Library| #[trigger] (StdLib { bits: 0xffff_ffff }).has(lib) by {
        let m = lib.mask();
        assert(0xffff_ffffu32 & m == m) by (bit_vector);
    }
}

proof fn lemma_safe_has_the_safe()
    ensures
        forall|lib: Library| #[trigger]
            (StdLib { bits: ALL_SAFE_BITS }).has(lib) <==> lib != Library::Ffi && lib
                != Library::Debug,
{
    assert forall|lib: Library| #[trigger]
        (StdLib { bits: ALL_SAFE_BITS }).has(lib) <==> lib != Library::Ffi && lib
            != Library::Debug by {
        let m = lib.mask();
        assert(0x3fff_ffffu32 & m == (if m < 0x4000_0000u32 { m } else { 0x3fff_ffffu32 & m }))
            by (bit_vector);
        assert(0x3fff_ffffu32 & 0x4000_0000u32 == 0) by (bit_vector);
        assert(0x3fff_ffffu32 & 0x8000_0000u32 == 0) by (bit_vector);
    }
}

proof fn lemma_union(a: StdLib, b: StdLib)
    ensures
        forall|lib: Library| #[trigger]
            (StdLib { bits: a.bits | b.bits }).has(lib) <==> a.has(lib) || b.has(lib),
{
    assert forall|lib: Library| #[trigger]
        (StdLib { bits: a.bits | b.bits }).has(lib) <==> a.has(lib) || b.has(lib) by {
        let m = lib.mask();
        let x = a.bits;
        let y = b.bits;
        assert(((x | y) & m != 0) <==> (x & m != 0 || y & m != 0)) by (bit_vector);
    }
}

proof fn lemma_difference(a: StdLib, b: StdLib)
    ensures
        forall|lib: Library| #[trigger]
            (StdLib { bits: a.bits ^ b.bits }).has(lib) <==> a.has(lib) != b.has(lib),
{
    assert forall|lib: Library| #[trigger]
        (StdLib { bits: a.bits ^ b.bits }).has(lib) <==> a.has(lib) != b.has(lib) by {
        let m = lib.mask();
        let x = a.bits;
        let y = b.bits;
        assert(m > 0 && m & ((m - 1) as u32) == 0) by {
            assert(1u32 & 0u32 == 0 && 2u32 & 1u32 == 0 && 4u32 & 3u32 == 0 && 8u32 & 7u32 == 0
                && 16u32 & 15u32 == 0 && 32u32 & 31u32 == 0 && 64u32 & 63u32 == 0 && 128u32
                & 127u32 == 0 && 256u32 & 255u32 == 0 && 512u32 & 511u32 == 0 && 0x4000_0000u32
                & 0x3fff_ffffu32 == 0 && 0x8000_0000u32 & 0x7fff_ffffu32 == 0) by (bit_vector);
        }
        assert(((x ^ y) & m != 0) <==> ((x & m != 0) != (y & m != 0))) by (bit_vector)
            requires
                m > 0,
                m & ((m - 1) as u32) == 0,
        ;
    }
}

/// The name under which a module is a global, as a text.
pub open spec fn module_text(version: Version, lib: Library) -> &'static str {
    match lib {
        Library::Coroutine => "coroutine",
        Library::Table => "table",
        Library::Io => "io",
        Library::Os => "os",
        Library::String => "string",
        Library::Utf8 => "utf8",
        Library::Math => "math",
        Library::Package => "package",
        Library::Jit => "jit",
        Library::Ffi => "ffi",
        Library::Debug => "debug",
        Library::Bit => if version == Version::LuaJit {
            "bit"
        } else {
            "bit32"
        },
    }
}

/// The name under which a module is a global.
pub open spec fn module_name(version: Version, lib: Library) -> Seq<u8> {
    module_text(version, lib).spec_bytes()
}

/// The field of `package` that lists the module searchers.
pub open spec fn searchers_name(version: Version) -> Seq<u8> {
    if version.modern() {
        "searchers".spec_bytes()
    } else {
        "loaders".spec_bytes()
    }
}

/// Whether a name is that of a basic function. Only those that every version of Lua has are named.
pub open spec fn basic_name(name: Seq<u8>) -> bool {
    ||| name == "assert".spec_bytes()
    ||| name == "collectgarbage".spec_bytes()
    ||| name == "dofile".spec_bytes()
    ||| name == "error".spec_bytes()
    ||| name == "getmetatable".spec_bytes()
    ||| name == "ipairs".spec_bytes()
    ||| name == "load".spec_bytes()
    ||| name == "loadfile".spec_bytes()
    ||| name == "next".spec_bytes()
    ||| name == "pairs".spec_bytes()
    ||| name == "pcall".spec_bytes()
    ||| name == "print".spec_bytes()
    ||| name == "rawequal".spec_bytes()
    ||| name == "rawget".spec_bytes()
    ||| name == "rawset".spec_bytes()
    ||| name == "select".spec_bytes()
    ||| name == "setmetatable".spec_bytes()
    ||| name == "tonumber".spec_bytes()
    ||| name == "tostring".spec_bytes()
    ||| name == "type".spec_bytes()
    ||| name == "xpcall".spec_bytes()
}

/// No two modules of a version have the same name.
pub proof fn lemma_module_names(version: Version, a: Library, b: Library)
    ensures
        module_name(version, a) == module_name(version, b) ==> a == b,
{
    reveal_strlit("coroutine");
    reveal_strlit("table");
    reveal_strlit("io");
    reveal_strlit("os");
    reveal_strlit("string");
    reveal_strlit("utf8");
    reveal_strlit("math");
    reveal_strlit("package");
    reveal_strlit("jit");
    reveal_strlit("ffi");
    reveal_strlit("debug");
    reveal_strlit("bit");
    reveal_strlit("bit32");
    lemma_bytes_tell_texts_apart(module_text(version, a), module_text(version, b));
}

proof fn lemma_no_module(version: Version, lib: Library, text: &str)
    requires
        text@ != module_text(version, lib)@,
    ensures
        text.spec_bytes() != module_name(version, lib),
{
    lemma_bytes_tell_texts_apart(text, module_text(version, lib));
}

/// No module has the name of the metamethod for writing.
pub proof fn lemma_modules_are_no_metamethods(version: Version, lib: Library)
    ensures
        module_name(version, lib) != "__newindex".spec_bytes(),
{
    reveal_strlit("coroutine");
    reveal_strlit("table");
    reveal_strlit("io");
    reveal_strlit("os");
    reveal_strlit("string");
    reveal_strlit("utf8");
    reveal_strlit("math");
    reveal_strlit("package");
    reveal_strlit("jit");
    reveal_strlit("ffi");
    reveal_strlit("debug");
    reveal_strlit("bit");
    reveal_strlit("bit32");
    reveal_strlit("__newindex");
    assert("__newindex"@.len() == 10);
    assert(module_text(version, lib)@.len() < 10);
    lemma_no_module(version, lib, "__newindex");
}

/// No module has the name of a basic function, or that of the table of globals.
pub proof fn lemma_modules_are_no_basic_functions(version: Version, lib: Library)
    ensures
        !basic_name(module_name(version, lib)),
        module_name(version, lib) != "_G".spec_bytes(),
{
    reveal_strlit("coroutine");
    reveal_strlit("table");
    reveal_strlit("io");
    reveal_strlit("os");
    reveal_strlit("string");
    reveal_strlit("utf8");
    reveal_strlit("math");
    reveal_strlit("package");
    reveal_strlit("jit");
    reveal_strlit("ffi");
    reveal_strlit("debug");
    reveal_strlit("bit");
    reveal_strlit("bit32");
    reveal_strlit("assert");
    reveal_strlit("collectgarbage");
    reveal_strlit("dofile");
    reveal_strlit("error");
    reveal_strlit("getmetatable");
    reveal_strlit("ipairs");
    reveal_strlit("load");
    reveal_strlit("loadfile");
    reveal_strlit("next");
    reveal_strlit("pairs");
    reveal_strlit("pcall");
    reveal_strlit("print");
    reveal_strlit("rawequal");
    reveal_strlit("rawget");
    reveal_strlit("rawset");
    reveal_strlit("select");
    reveal_strlit("setmetatable");
    reveal_strlit("tonumber");
    reveal_strlit("tostring");
    reveal_strlit("type");
    reveal_strlit("xpcall");
    reveal_strlit("_G");
    assert("assert"@[0] != "string"@[0]);
    lemma_no_module(version, lib, "assert");
    lemma_no_module(version, lib, "collectgarbage");
    assert("dofile"@[0] != "string"@[0]);
    lemma_no_module(version, lib, "dofile");
    assert("error"@[0] != "table"@[0]);
    assert("error"@[0] != "debug"@[0]);
    assert("error"@[0] != "bit32"@[0]);
    lemma_no_module(version, lib, "error");
    lemma_no_module(version, lib, "getmetatable");
    assert("ipairs"@[0] != "string"@[0]);
    lemma_no_module(version, lib, "ipairs");
    assert("load"@[0] != "utf8"@[0]);
    assert("load"@[0] != "math"@[0]);
    lemma_no_module(version, lib, "load");
    lemma_no_module(version, lib, "loadfile");
    assert("next"@[0] != "utf8"@[0]);
    assert("next"@[0] != "math"@[0]);
    lemma_no_module(version, lib, "next");
    assert("pairs"@[0] != "table"@[0]);
    assert("pairs"@[0] != "debug"@[0]);
    assert("pairs"@[0] != "bit32"@[0]);
    lemma_no_module(version, lib, "pairs");
    assert("pcall"@[0] != "table"@[0]);
    assert("pcall"@[0] != "debug"@[0]);
    assert("pcall"@[0] != "bit32"@[0]);
    lemma_no_module(version, lib, "pcall");
    assert("print"@[0] != "table"@[0]);
    assert("print"@[0] != "debug"@[0]);
    assert("print"@[0] != "bit32"@[0]);
    lemma_no_module(version, lib, "print");
    lemma_no_module(version, lib, "rawequal");
    assert("rawget"@[0] != "string"@[0]);
    lemma_no_module(version, lib, "rawget");
    assert("rawset"@[0] != "string"@[0]);
    lemma_no_module(version, lib, "rawset");
    assert("select"@[1] != "string"@[1]);
    lemma_no_module(version, lib, "select");
    lemma_no_module(version, lib, "setmetatable");
    lemma_no_module(version, lib, "tonumber");
    lemma_no_module(version, lib, "tostring");
    assert("type"@[0] != "utf8"@[0]);
    assert("type"@[0] != "math"@[0]);
    lemma_no_module(version, lib, "type");
    assert("xpcall"@[0] != "string"@[0]);
    lemma_no_module(version, lib, "xpcall");
    assert("_G"@[0] != "io"@[0]);
    assert("_G"@[0] != "os"@[0]);
    lemma_no_module(version, lib, "_G");
}

/// The modules that a version of Lua has, in the order in which they are opened.
pub open spec fn load_order(version: Version) -> Seq<Library> {
    match version {
        Version::Lua54 | Version::Lua53 => seq![
            Library::Coroutine,
            Library::Table,
            Library::Io,
            Library::Os,
            Library::String,
            Library::Utf8,
            Library::Math,
            Library::Debug,
            Library::Package,
        ],
        Version::Lua52 => seq![
            Library::Coroutine,
            Library::Table,
            Library::Io,
            Library::Os,
            Library::String,
            Library::Bit,
            Library::Math,
            Library::Debug,
            Library::Package,
        ],
        Version::Lua51 => seq![
            Library::Table,
            Library::Io,
            Library::Os,
            Library::String,
            Library::Math,
            Library::Debug,
            Library::Package,
        ],
        Version::LuaJit => seq![
            Library::Table,
            Library::Io,
            Library::Os,
            Library::String,
            Library::Bit,
            Library::Math,
            Library::Debug,
            Library::Package,
            Library::Jit,
            Library::Ffi,
        ],
    }
}

/// The modules of a subset that a version of Lua has, in the order in which they are opened.
pub open spec fn selected(version: Version, libs: StdLib) -> Seq<Library> {
    load_order(version).filter(|lib: Library| libs.has(lib))
}

/// The modules of `libs` to open, in order.
pub fn libraries_to_open(version: Version, libs: StdLib) -> (chosen: Vec<Library>)
    ensures
        chosen@ == selected(version, libs),
{
    let mut order: Vec<Library> = Vec::new();
    if version.is_modern() {
        order.push(Library::Coroutine);
    }
    order.push(Library::Table);
    order.push(Library::Io);
    order.push(Library::Os);
    order.push(Library::String);
    match version {
        Version::Lua54 | Version::Lua53 => {
            order.push(Library::Utf8);
        },
        Version::Lua52 | Version::LuaJit => {
            order.push(Library::Bit);
        },
        Version::Lua51 => {},
    }
    order.push(Library::Math);
    order.push(Library::Debug);
    order.push(Library::Package);
    if version.is_jit() {
        order.push(Library::Jit);
        order.push(Library::Ffi);
    }
    assert(order@ =~= load_order(version));
    let mut chosen: Vec<Library> = Vec::new();
    let mut i: usize = 0;
    let ghost wanted = |lib: Library| libs.has(lib);
    while i < order.len()
        invariant
            i <= order@.len(),
            wanted == (|lib: Library| libs.has(lib)),
            chosen@ == order@.take(i as int).filter(wanted),
        decreases order@.len() - i,
    {
        let lib = order[i];
        if libs.contains_library(lib) {
            chosen.push(lib);
        }
        proof {
            let next = order@.take(i + 1);
            assert(next.drop_last() =~= order@.take(i as int));
            assert(next.last() == lib);
            reveal(Seq::filter);
            assert(next.filter(wanted) =~= if wanted(lib) {
                next.drop_last().filter(wanted).push(lib)
            } else {
                next.drop_last().filter(wanted)
            });
        }
        i = i + 1;
    }
    assert(order@.take(order@.len() as int) =~= order@);
    chosen
}

/// The flags of the modules: one bit for each, the highest two for the unsafe ones. A subset has a
/// module exactly if it has the flag of the module.
pub proof fn law_flags(libs: StdLib, lib: Library)
    ensures
        libs.has(lib) <==> libs.bits & lib.mask() != 0,
        Library::Coroutine.mask() == 1,
        Library::Table.mask() == 2,
        Library::Io.mask() == 4,
        Library::Os.mask() == 8,
        Library::String.mask() == 16,
        Library::Utf8.mask() == 32,
        Library::Bit.mask() == 64,
        Library::Math.mask() == 128,
        Library::Package.mask() == 256,
        Library::Jit.mask() == 512,
        Library::Ffi.mask() == 0x4000_0000,
        Library::Debug.mask() == 0x8000_0000,
{
}

/// The modules that are opened for a subset are those of the subset that the version of Lua has, each
/// of them once: `coroutine` is a module of its own since Lua 5.2, `utf8` since Lua 5.3, the module
/// for bits is in Lua 5.2 and LuaJIT, and `jit` and `ffi` are in LuaJIT. All others are in every
/// version.
pub proof fn law_opened_modules(version: Version, libs: StdLib, lib: Library)
    ensures
        selected(version, libs).contains(lib) <==> libs.has(lib) && match lib {
            Library::Coroutine => version == Version::Lua54 || version == Version::Lua53
                || version == Version::Lua52,
            Library::Utf8 => version == Version::Lua54 || version == Version::Lua53,
            Library::Bit => version == Version::Lua52 || version == Version::LuaJit,
            Library::Jit | Library::Ffi => version == Version::LuaJit,
            Library::Table | Library::Io | Library::Os | Library::String | Library::Math
            | Library::Package | Library::Debug => true,
        },
        selected(version, libs).no_duplicates(),
{
    let order = load_order(version);
    let wanted = |lib: Library| libs.has(lib);
    lemma_order(version, lib);
    if selected(version, libs).contains(lib) {
        order.lemma_filter_contains_rev(wanted, lib);
        order.lemma_filter_pred(wanted, selected(version, libs).index_of(lib));
    }
    assert(order.contains(lib) && wanted(lib) ==> selected(version, libs).contains(lib)) by {
        if order.contains(lib) && wanted(lib) {
            order.lemma_filter_contains(wanted, order.index_of(lib));
        }
    }
    lemma_filter_keeps_order(order, wanted);
}

proof fn lemma_filter_keeps_order(order: Seq<Library>, wanted: spec_fn(Library) -> bool)
    requires
        order.no_duplicates(),
    ensures
        order.filter(wanted).no_duplicates(),
    decreases order.len(),
{
    reveal(Seq::filter);
    if order.len() > 0 {
        let rest = order.drop_last();
        lemma_filter_keeps_order(rest, wanted);
        if wanted(order.last()) {
            let kept = rest.filter(wanted);
            assert(!kept.contains(order.last())) by {
                if kept.contains(order.last()) {
                    rest.lemma_filter_contains_rev(wanted, order.last());
                    let i = rest.index_of(order.last());
                    assert(order[i] == order[order.len() - 1]);
                }
            }
            assert(order.filter(wanted) =~= kept.push(order.last()));
        }
    }
}

proof fn lemma_order(version: Version, lib: Library)
    ensures
        load_order(version).contains(lib) <==> match lib {
            Library::Coroutine => version == Version::Lua54 || version == Version::Lua53
                || version == Version::Lua52,
            Library::Utf8 => version == Version::Lua54 || version == Version::Lua53,
            Library::Bit => version == Version::Lua52 || version == Version::LuaJit,
            Library::Jit | Library::Ffi => version == Version::LuaJit,
            Library::Table | Library::Io | Library::Os | Library::String | Library::Math
            | Library::Package | Library::Debug => true,
        },
        load_order(version).no_duplicates(),
{
    let order = load_order(version);
    assert(order.len() >= 7);
    match version {
        Version::Lua54 | Version::Lua53 => {
            assert(order[0] == Library::Coroutine && order[1] == Library::Table);
            assert(order[2] == Library::Io && order[3] == Library::Os);
            assert(order[4] == Library::String && order[5] == Library::Utf8);
            assert(order[6] == Library::Math && order[7] == Library::Debug);
            assert(order[8] == Library::Package);
        },
        Version::Lua52 => {
            assert(order[0] == Library::Coroutine && order[1] == Library::Table);
            assert(order[2] == Library::Io && order[3] == Library::Os);
            assert(order[4] == Library::String && order[5] == Library::Bit);
            assert(order[6] == Library::Math && order[7] == Library::Debug);
            assert(order[8] == Library::Package);
        },
        Version::Lua51 => {
            assert(order[0] == Library::Table && order[1] == Library::Io);
            assert(order[2] == Library::Os && order[3] == Library::String);
            assert(order[4] == Library::Math && order[5] == Library::Debug);
            assert(order[6] == Library::Package);
        },
        Version::LuaJit => {
            assert(order[0] == Library::Table && order[1] == Library::Io);
            assert(order[2] == Library::Os && order[3] == Library::String);
            assert(order[4] == Library::Bit && order[5] == Library::Math);
            assert(order[6] == Library::Debug && order[7] == Library::Package);
            assert(order[8] == Library::Jit && order[9] == Library::Ffi);
        },
    }
}

/// Modules are opened in a fixed order, whichever of them are: `debug` and `package` come after all
/// those that every version has, and `jit` and `ffi` come last.
pub proof fn law_opening_order(version: Version, libs: StdLib, i: int, j: int)
    requires
        0 <= i < j < selected(version, libs).len(),
    ensures
        ({
            let place = |lib: Library|
                match lib {
                    Library::Coroutine => 0int,
                    Library::Table => 1,
                    Library::Io => 2,
                    Library::Os => 3,
                    Library::String => 4,
                    Library::Utf8 | Library::Bit => 5,
                    Library::Math => 6,
                    Library::Debug => 7,
                    Library::Package => 8,
                    Library::Jit => 9,
                    Library::Ffi => 10,
                };
            place(selected(version, libs)[i]) < place(selected(version, libs)[j])
        }),
{
    let place = |lib: Library|
        match lib {
            Library::Coroutine => 0int,
            Library::Table => 1,
            Library::Io => 2,
            Library::Os => 3,
            Library::String => 4,
            Library::Utf8 | Library::Bit => 5,
            Library::Math => 6,
            Library::Debug => 7,
            Library::Package => 8,
            Library::Jit => 9,
            Library::Ffi => 10,
        };
    let order = load_order(version);
    assert forall|a: int, b: int| 0 <= a < b < order.len() implies place(#[trigger] order[a])
        < place(#[trigger] order[b]) by {}
    lemma_filter_is_sorted(order, |lib: Library| libs.has(lib), place);
}

proof fn lemma_filter_is_sorted(
    order: Seq<Library>,
    wanted: spec_fn(Library) -> bool,
    place: spec_fn(Library) -> int,
)
    requires
        forall|a: int, b: int|
            0 <= a < b < order.len() ==> place(#[trigger] order[a]) < place(#[trigger] order[b]),
    ensures
        forall|a: int, b: int|
            0 <= a < b < order.filter(wanted).len() ==> place(#[trigger] order.filter(wanted)[a])
                < place(#[trigger] order.filter(wanted)[b]),
    decreases order.len(),
{
    reveal(Seq::filter);
    if order.len() > 0 {
        let rest = order.drop_last();
        let kept = rest.filter(wanted);
        assert forall|a: int, b: int| 0 <= a < b < rest.len() implies place(#[trigger] rest[a])
            < place(#[trigger] rest[b]) by {
            assert(rest[a] == order[a] && rest[b] == order[b]);
        }
        lemma_filter_is_sorted(rest, wanted, place);
        if wanted(order.last()) {
            let all = order.filter(wanted);
            assert(all =~= kept.push(order.last()));
            assert forall|a: int, b: int| 0 <= a < b < all.len() implies place(#[trigger] all[a])
                < place(#[trigger] all[b]) by {
                if b == kept.len() {
                    assert(kept.contains(kept[a]));
                    rest.lemma_filter_contains_rev(wanted, kept[a]);
                    let k = rest.index_of(kept[a]);
                    assert(order[k] == kept[a]);
                    assert(order[order.len() - 1] == all[b]);
                } else {
                    assert(all[a] == kept[a] && all[b] == kept[b]);
                }
            }
        }
    }
}

/// The searchers of the module `package` are under `searchers`, but under `loaders` in Lua 5.1 and
/// LuaJIT.
pub proof fn law_searchers(version: Version)
    ensures
        version == Version::Lua51 || version == Version::LuaJit ==> searchers_name(version)
            == "loaders".spec_bytes(),
        version == Version::Lua52 || version == Version::Lua53 || version == Version::Lua54
            ==> searchers_name(version) == "searchers".spec_bytes(),
{
}

} // verus!
