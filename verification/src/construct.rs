use vstd::prelude::*;
use vstd::string::*;

use crate::error::{refused, Error, ErrorOf, ErrorView};
use crate::gc::{LUA_GCRESTART, LUA_GCSTOP};
use crate::lua::{ExtraData, ExtraView, Lua};
use crate::machine::{
    emit, ops, Builtin, CFunction, GcType, GcValue, Index, Instr, InstrOf, Op, Outcome, Plan,
    PlanView, RegistrySlot,
};
use crate::memory::MemoryInfo;
use crate::options::LuaOptions;
use crate::refs::LUA_MINSTACK;
use crate::stdlib::{
    libraries_to_open, searchers_name, selected, Library, StdLib, ALL_SAFE_BITS,
};
use crate::value::RefKind;
use crate::version::Version;

verus! {

/// Registry integer of the globals, in versions of Lua that keep them in the registry.
pub const LUA_RIDX_GLOBALS: i64 = 2;

/// Optional parts that the embedding is built with.
#[derive(Clone, Copy, Debug, PartialEq, Eq, Structural)]
pub struct Features {
    pub asynchronous: bool,
    pub serialize: bool,
}

/// Work that takes a state over.
#[derive(Debug, PartialEq, Eq)]
pub struct InitPlan {
    /// Prepares the registry and makes the reference thread.
    pub prepare: Plan,
    /// Puts the shared data into the registry.
    pub store: Plan,
    /// Accounting of the memory of the state: none, since the state does not allocate through the
    /// embedder, so that no limit can be set.
    pub memory: Option<MemoryInfo>,
}

/// Work that loads modules into a state.
#[derive(Debug, PartialEq, Eq)]
pub struct LoadPlan {
    /// State to work on.
    pub state: u64,
    /// Opens the modules.
    pub load: Plan,
    /// Takes the ability to load C modules away, whether or not the modules could be opened.
    pub disable_c_modules: Option<Plan>,
}

/// Work that makes a new state.
#[derive(Debug, PartialEq, Eq)]
pub struct Construction {
    pub version: Version,
    /// Accounting of the memory of the state, if it is to allocate through the embedder.
    pub memory: Option<MemoryInfo>,
    /// Opens the basic functions, before the state is taken over.
    pub base: Plan,
    /// Modules to load.
    pub libs: StdLib,
    /// Opens the modules.
    pub load: Plan,
    /// Replaces `pcall` and `xpcall`.
    pub options: Option<Plan>,
    /// Takes the ability to load C modules away.
    pub disable_c_modules: Option<Plan>,
    /// Whether the state is put into safe mode at the end.
    pub safe: bool,
}

/// A `Construction` by its contents.
pub struct ConstructionView {
    pub version: Version,
    pub memory: Option<MemoryInfo>,
    pub base: PlanView,
    pub libs: StdLib,
    pub load: PlanView,
    pub options: Option<PlanView>,
    pub disable_c_modules: Option<PlanView>,
    pub safe: bool,
}

/// The contents of an optional plan.
pub open spec fn plan_view(plan: Option<Plan>) -> Option<PlanView> {
    match plan {
        Some(p) => Some(p@),
        None => None,
    }
}

impl View for Construction {
    type V = ConstructionView;

    open spec fn view(&self) -> ConstructionView {
        ConstructionView {
            version: self.version,
            memory: self.memory,
            base: self.base@,
            libs: self.libs,
            load: self.load@,
            options: plan_view(self.options),
            disable_c_modules: plan_view(self.disable_c_modules),
            safe: self.safe,
        }
    }
}

/// The instruction that pushes the table of globals.
pub open spec fn globals_op(version: Version) -> Op {
    if version.modern() {
        InstrOf::RawGetI(Index::Registry, LUA_RIDX_GLOBALS)
    } else {
        InstrOf::PushValue(Index::Globals)
    }
}

/// The instruction that pushes the table of globals, by where the version of Lua keeps it.
pub fn globals_instr(version: Version) -> (instr: Instr)
    ensures
        instr@ == globals_op(version),
        version == Version::Lua51 || version == Version::LuaJit ==> instr@ == Op::PushValue(
            Index::Globals,
        ),
        version == Version::Lua52 || version == Version::Lua53 || version == Version::Lua54
            ==> instr@ == Op::RawGetI(Index::Registry, 2),
{
    if version.is_modern() {
        InstrOf::RawGetI(Index::Registry, LUA_RIDX_GLOBALS)
    } else {
        InstrOf::PushValue(Index::Globals)
    }
}

/// Instructions that open modules, one after another.
pub open spec fn open_ops(libs: Seq<Library>) -> Seq<Op>
    decreases libs.len(),
{
    if libs.len() == 0 {
        Seq::empty()
    } else {
        open_ops(libs.drop_last()) + seq![InstrOf::OpenLibrary(libs.last()), InstrOf::Pop(1)]
    }
}

/// Instructions that load the modules of a subset. In LuaJIT the collector is stopped meanwhile.
pub open spec fn load_ops(version: Version, libs: StdLib) -> Seq<Op> {
    let open = open_ops(selected(version, libs));
    if version == Version::LuaJit {
        seq![InstrOf::Gc(LUA_GCSTOP, 0)] + open + seq![InstrOf::Gc(LUA_GCRESTART, (-1) as i32)]
    } else {
        open
    }
}

/// The plan that loads the modules of a subset.
pub open spec fn load_plan(version: Version, libs: StdLib) -> PlanView {
    PlanView { steps: load_ops(version, libs), outcome: Outcome::Unit, guard: None }
}

/// Makes the plan that loads the modules of a subset, as far as the version of Lua has them.
pub fn load_from_std_lib(version: Version, libs: StdLib) -> (plan: Plan)
    ensures
        plan.outcome == Outcome::Unit,
        plan.guard is None,
        plan@ == load_plan(version, libs),
{
    let mut steps: Vec<Instr> = Vec::new();
    if version.is_jit() {
        // Stop collector during library initialization
        emit(&mut steps, InstrOf::Gc(LUA_GCSTOP, 0));
    }
    let ghost start = ops(steps@);
    let chosen = libraries_to_open(version, libs);
    let mut i: usize = 0;
    while i < chosen.len()
        invariant
            i <= chosen@.len(),
            ops(steps@) == start + open_ops(chosen@.take(i as int)),
        decreases chosen@.len() - i,
    {
        let ghost before = ops(steps@);
        let lib = chosen[i];
        emit(&mut steps, InstrOf::OpenLibrary(lib));
        emit(&mut steps, InstrOf::Pop(1));
        proof {
            let next = chosen@.take(i + 1);
            assert(next.drop_last() =~= chosen@.take(i as int));
            assert(next.last() == lib);
            assert(ops(steps@) =~= start + open_ops(next));
        }
        i = i + 1;
    }
    assert(chosen@.take(chosen@.len() as int) =~= chosen@);
    if version.is_jit() {
        emit(&mut steps, InstrOf::Gc(LUA_GCRESTART, -1));
    }
    assert(ops(steps@) =~= load_ops(version, libs));
    Plan { steps, outcome: Outcome::Unit, guard: None }
}

/// Instructions that take the ability to load C modules away.
pub open spec fn disable_ops(version: Version) -> Seq<Op> {
    seq![
        InstrOf::CheckStack(5),
        globals_op(version),
        InstrOf::GetField(Index::FromTop(1), "package".spec_bytes()),
        InstrOf::Expect(RefKind::Table),
        InstrOf::PushBuiltin(Builtin::RefuseLoadlib),
        InstrOf::SetField(Index::FromTop(2), "loadlib".spec_bytes()),
        InstrOf::GetField(Index::FromTop(1), searchers_name(version)),
        InstrOf::Expect(RefKind::Table),
        InstrOf::PushBuiltin(Builtin::RefuseSearcher),
        InstrOf::RawSetI(Index::FromTop(2), 3),
        InstrOf::RawRemove(Index::FromTop(1), 4),
    ]
}

/// The plan that takes the ability to load C modules away.
pub open spec fn disable_plan(version: Version) -> PlanView {
    PlanView { steps: disable_ops(version), outcome: Outcome::Unit, guard: Some(0) }
}

/// Instructions that replace `pcall` and `xpcall`.
pub open spec fn options_ops(version: Version) -> Seq<Op> {
    seq![
        globals_op(version),
        InstrOf::PushCFunction(CFunction::NoPanicPcall),
        InstrOf::RawSetField(Index::FromTop(2), "pcall".spec_bytes()),
        InstrOf::PushCFunction(CFunction::NoPanicXpcall),
        InstrOf::RawSetField(Index::FromTop(2), "xpcall".spec_bytes()),
    ]
}

/// The plan that replaces `pcall` and `xpcall`.
pub open spec fn options_plan(version: Version) -> PlanView {
    PlanView { steps: options_ops(version), outcome: Outcome::Unit, guard: Some(0) }
}

/// The plan that opens the basic functions.
pub open spec fn base_plan() -> PlanView {
    PlanView {
        steps: seq![InstrOf::OpenBase, InstrOf::Pop(1)],
        outcome: Outcome::Unit,
        guard: None,
    }
}

/// Instructions that prepare the registry for what every embedding has.
pub open spec fn common_ops() -> Seq<Op> {
    seq![
        InstrOf::InitErrorRegistry,
        InstrOf::InitGcMetatable(GcType::Callback),
        InstrOf::InitGcMetatable(GcType::Lua),
        InstrOf::InitGcMetatable(GcType::ExtraData),
    ]
}

/// Instructions that prepare the registry for asynchronous functions, with an empty waker slot.
pub open spec fn waker_ops(features: Features) -> Seq<Op> {
    if features.asynchronous {
        seq![
            InstrOf::InitGcMetatable(GcType::AsyncCallback),
            InstrOf::InitGcMetatable(GcType::Future),
            InstrOf::InitGcMetatable(GcType::Waker),
            InstrOf::PushGcUserdata(GcValue::NoWaker),
            InstrOf::RawSetP(RegistrySlot::Waker),
        ]
    } else {
        Seq::empty()
    }
}

/// Instructions that prepare the registry for serialization.
pub open spec fn serde_ops(features: Features) -> Seq<Op> {
    if features.serialize {
        seq![InstrOf::InitSerdeMetatables]
    } else {
        Seq::empty()
    }
}

/// Instructions that make the reference thread and keep it in the registry.
pub open spec fn ref_thread_ops() -> Seq<Op> {
    seq![InstrOf::NewThread, InstrOf::MakeRef]
}

/// Instructions that prepare the registry and make the reference thread.
pub open spec fn prepare_ops(features: Features) -> Seq<Op> {
    common_ops() + waker_ops(features) + serde_ops(features) + ref_thread_ops()
}

/// The plan that prepares the registry and makes the reference thread.
pub open spec fn prepare_plan(features: Features) -> PlanView {
    PlanView { steps: prepare_ops(features), outcome: Outcome::RegistryId, guard: None }
}

/// The plan that puts the shared data into the registry.
pub open spec fn store_plan() -> PlanView {
    PlanView {
        steps: seq![
            InstrOf::PushGcUserdata(GcValue::ExtraData),
            InstrOf::RawSetP(RegistrySlot::Extra),
            InstrOf::AssertStack(LUA_MINSTACK),
        ],
        outcome: Outcome::Unit,
        guard: None,
    }
}

/// The construction of a state without safe mode.
pub open spec fn unsafe_construction(
    version: Version,
    libs: StdLib,
    options: LuaOptions,
) -> ConstructionView {
    ConstructionView {
        version,
        memory: if version.modern() {
            Some(MemoryInfo { used_memory: 0, memory_limit: 0 })
        } else {
            None
        },
        base: base_plan(),
        libs,
        load: load_plan(version, libs),
        options: if options.catch_rust_panics {
            None
        } else {
            Some(options_plan(version))
        },
        disable_c_modules: None,
        safe: false,
    }
}

/// The construction of a state in safe mode.
pub open spec fn safe_construction(
    version: Version,
    libs: StdLib,
    options: LuaOptions,
) -> ConstructionView {
    ConstructionView {
        disable_c_modules: if libs.has(Library::Package) {
            Some(disable_plan(version))
        } else {
            None
        },
        safe: true,
        ..unsafe_construction(version, libs, options)
    }
}

/// The first unsafe module of a subset that the version of Lua has, `debug` before `ffi`.
pub open spec fn unsafe_module(version: Version, libs: StdLib) -> Option<Library> {
    if libs.has(Library::Debug) {
        Some(Library::Debug)
    } else if version == Version::LuaJit && libs.has(Library::Ffi) {
        Some(Library::Ffi)
    } else {
        None
    }
}

/// Why a safe construction is refused.
pub open spec fn construction_refusal(version: Version, libs: StdLib) -> Option<ErrorView> {
    match unsafe_module(version, libs) {
        Some(Library::Debug) => Some(
            ErrorOf::SafetyError("the unsafe `debug` module can't be loaded using safe `new_with`"@),
        ),
        Some(_) => Some(
            ErrorOf::SafetyError("the unsafe `ffi` module can't be loaded using safe `new_with`"@),
        ),
        None => None,
    }
}

/// Why modules are not loaded into a state.
pub open spec fn load_refusal(safe: bool, version: Version, libs: StdLib) -> Option<ErrorView> {
    if !safe {
        None
    } else {
        match unsafe_module(version, libs) {
            Some(Library::Debug) => Some(
                ErrorOf::SafetyError("the unsafe `debug` module can't be loaded in safe mode"@),
            ),
            Some(_) => Some(
                ErrorOf::SafetyError("the unsafe `ffi` module can't be loaded in safe mode"@),
            ),
            None => None,
        }
    }
}

impl ExtraView {
    /// With more modules loaded.
    pub open spec fn with_libs(self, libs: StdLib) -> ExtraView {
        ExtraView { libs: StdLib { bits: self.libs.bits | libs.bits }, ..self }
    }
}

/// A handle after its construction has ended.
pub open spec fn secured_handle(safe: bool, lua: Lua) -> Lua {
    if safe {
        Lua { safe: true, ..lua }
    } else {
        lua
    }
}

/// The shared data after a construction has ended.
pub open spec fn secured_data(safe: bool, extra: ExtraView) -> ExtraView {
    if safe {
        ExtraView { safe: true, ..extra }
    } else {
        extra
    }
}

/// A further handle for a state whose main state has been taken over.
pub open spec fn further_handle(
    version: Version,
    state: u64,
    main_state: Option<u64>,
    extra: u64,
    data: ExtraView,
) -> Lua {
    Lua { state, main_state, extra, ephemeral: true, safe: data.safe, version }
}

impl Construction {
    /// Takes the new handle over once the state has been initialized: the handle owns the state,
    /// and the modules count as loaded.
    pub fn adopt(&self, lua: Lua, extra: &mut ExtraData) -> (owner: Lua)
        ensures
            owner == (Lua { ephemeral: false, ..lua }),
            final(extra)@ == old(extra)@.with_libs(self.libs),
            final(extra)@ == (ExtraView {
                libs: StdLib { bits: old(extra)@.libs.bits | self.libs.bits },
                ..old(extra)@
            }),
    {
        extra.libs = extra.libs.union(self.libs);
        Lua { ephemeral: false, ..lua }
    }

    /// Puts the handle and the shared data into safe mode at the end, if that was asked for.
    pub fn secure(&self, lua: Lua, extra: &mut ExtraData) -> (secured: Lua)
        ensures
            secured == secured_handle(self.safe, lua),
            final(extra)@ == secured_data(self.safe, old(extra)@),
            secured == (Lua { safe: lua.safe || self.safe, ..lua }),
            final(extra)@ == (ExtraView {
                safe: old(extra)@.safe || self.safe,
                ..old(extra)@
            }),
    {
        if self.safe {
            extra.safe = true;
            Lua { safe: true, ..lua }
        } else {
            lua
        }
    }
}

fn prepare_common(steps: &mut Vec<Instr>)
    ensures
        ops(final(steps)@) == ops(old(steps)@) + common_ops(),
{
    let ghost before = ops(steps@);
    emit(steps, InstrOf::InitErrorRegistry);
    // Create the internal metatables and place them in the registry to prevent them from being
    // garbage collected.
    emit(steps, InstrOf::InitGcMetatable(GcType::Callback));
    emit(steps, InstrOf::InitGcMetatable(GcType::Lua));
    emit(steps, InstrOf::InitGcMetatable(GcType::ExtraData));
    assert(ops(steps@) =~= before + common_ops());
}

fn prepare_async(steps: &mut Vec<Instr>, features: Features)
    ensures
        ops(final(steps)@) == ops(old(steps)@) + waker_ops(features),
{
    let ghost before = ops(steps@);
    if features.asynchronous {
        emit(steps, InstrOf::InitGcMetatable(GcType::AsyncCallback));
        emit(steps, InstrOf::InitGcMetatable(GcType::Future));
        emit(steps, InstrOf::InitGcMetatable(GcType::Waker));
        // Create empty Waker slot
        emit(steps, InstrOf::PushGcUserdata(GcValue::NoWaker));
        emit(steps, InstrOf::RawSetP(RegistrySlot::Waker));
    }
    assert(ops(steps@) =~= before + waker_ops(features));
}

fn prepare_serialize(steps: &mut Vec<Instr>, features: Features)
    ensures
        ops(final(steps)@) == ops(old(steps)@) + serde_ops(features),
{
    let ghost before = ops(steps@);
    if features.serialize {
        emit(steps, InstrOf::InitSerdeMetatables);
    }
    assert(ops(steps@) =~= before + serde_ops(features));
}

/// Creates the reference thread and places it in the registry to prevent it from being garbage
/// collected.
fn prepare_references(steps: &mut Vec<Instr>)
    ensures
        ops(final(steps)@) == ops(old(steps)@) + ref_thread_ops(),
{
    let ghost before = ops(steps@);
    emit(steps, InstrOf::NewThread);
    emit(steps, InstrOf::MakeRef);
    assert(ops(steps@) =~= before + ref_thread_ops());
}

impl Lua {
    /// The construction of a state with the safe modules, in safe mode.
    pub fn new(version: Version) -> (c: Construction)
        ensures
            forall|lib: Library| #[trigger]
                c@.libs.has(lib) <==> lib != Library::Ffi && lib != Library::Debug,
            c@ == safe_construction(
                version,
                StdLib { bits: ALL_SAFE_BITS },
                LuaOptions { catch_rust_panics: true },
            ),
            c.safe,
            c.options is None,
            c.libs.bits == 0x3fff_ffff,
            plan_view(c.disable_c_modules) == Some(disable_plan(version)),
    {
        let libs = StdLib::all_safe();
        proof {
            assert(!libs.has(Library::Debug));
            assert(!libs.has(Library::Ffi));
        }
        Self::safe_construct(version, libs, LuaOptions::new())
    }

    /// The construction of a state with all modules, without safe mode.
    pub fn unsafe_new(version: Version) -> (c: Construction)
        ensures
            forall|lib: Library| #[trigger] c@.libs.has(lib),
            c@ == unsafe_construction(
                version,
                StdLib { bits: u32::MAX },
                LuaOptions { catch_rust_panics: true },
            ),
            !c.safe,
            c.options is None,
            c.disable_c_modules is None,
    {
        Self::unsafe_new_with(version, StdLib::all(), LuaOptions::new())
    }

    /// The construction of a state in safe mode with a subset of the modules; refused if an unsafe
    /// module is among them.
    pub fn new_with(version: Version, libs: StdLib, options: LuaOptions) -> (r: Result<
        Construction,
        Error,
    >)
        ensures
            match construction_refusal(version, libs) {
                Some(e) => refused(r, e),
                None => r is Ok && r->Ok_0@ == safe_construction(version, libs, options),
            },
            r is Err <==> libs.has(Library::Debug) || version == Version::LuaJit && libs.has(
                Library::Ffi,
            ),
            r matches Ok(c) ==> c.safe && c.libs == libs,
    {
        if libs.contains_library(Library::Debug) {
            return Err(
                ErrorOf::SafetyError(
                    "the unsafe `debug` module can't be loaded using safe `new_with`".to_owned(),
                ),
            );
        }
        if version.is_jit() && libs.contains_library(Library::Ffi) {
            return Err(
                ErrorOf::SafetyError(
                    "the unsafe `ffi` module can't be loaded using safe `new_with`".to_owned(),
                ),
            );
        }
        Ok(Self::safe_construct(version, libs, options))
    }

    fn safe_construct(version: Version, libs: StdLib, options: LuaOptions) -> (c: Construction)
        ensures
            c@ == safe_construction(version, libs, options),
    {
        let c = Self::unsafe_new_with(version, libs, options);
        let disable_c_modules = if libs.contains_library(Library::Package) {
            Some(Self::disable_c_modules(version))
        } else {
            None
        };
        Construction { disable_c_modules, safe: true, ..c }
    }

    /// The construction of a state with a subset of the modules, without safe mode.
    pub fn unsafe_new_with(version: Version, libs: StdLib, options: LuaOptions) -> (c: Construction)
        ensures
            c@ == unsafe_construction(version, libs, options),
            !c.safe,
            c.libs == libs,
            c.version == version,
            c.disable_c_modules is None,
            c.options is None <==> options.catch_rust_panics,
    {
        let memory = if version.is_modern() {
            Some(MemoryInfo::new())
        } else {
            None
        };
        let mut base: Vec<Instr> = Vec::new();
        emit(&mut base, InstrOf::OpenBase);
        emit(&mut base, InstrOf::Pop(1));
        assert(ops(base@) =~= base_plan().steps);
        let load = load_from_std_lib(version, libs);
        let replace = if !options.catch_rust_panics {
            let mut steps: Vec<Instr> = Vec::new();
            emit(&mut steps, globals_instr(version));
            emit(&mut steps, InstrOf::PushCFunction(CFunction::NoPanicPcall));
            emit(&mut steps, InstrOf::RawSetField(Index::FromTop(2), "pcall".as_bytes_vec()));
            emit(&mut steps, InstrOf::PushCFunction(CFunction::NoPanicXpcall));
            emit(&mut steps, InstrOf::RawSetField(Index::FromTop(2), "xpcall".as_bytes_vec()));
            assert(ops(steps@) =~= options_ops(version));
            Some(Plan { steps, outcome: Outcome::Unit, guard: Some(0) })
        } else {
            None
        };
        Construction {
            version,
            memory,
            base: Plan { steps: base, outcome: Outcome::Unit, guard: None },
            libs,
            load,
            options: replace,
            disable_c_modules: None,
            safe: false,
        }
    }

    /// Takes an existing state over, whose main state is `main_state` if that is known: an
    /// ephemeral handle without safe mode, the shared data, and the work to do on the main state.
    /// The memory of such a state is not accounted for.
    pub fn init_from_ptr(
        version: Version,
        features: Features,
        state: u64,
        main_state: Option<u64>,
        extra: u64,
    ) -> (r: (Lua, ExtraData, InitPlan))
        ensures
            r.0 == (Lua { state, main_state, extra, ephemeral: true, safe: false, version }),
            r.1@ == ExtraView::initial(),
            r.1@.refs.wf(),
            r.1@.libs.bits == 0,
            !r.1@.safe,
            r.2.prepare@ == prepare_plan(features),
            r.2.store@ == store_plan(),
            r.2.memory is None,
    {
        let mut prepare: Vec<Instr> = Vec::new();
        prepare_common(&mut prepare);
        prepare_async(&mut prepare, features);
        prepare_serialize(&mut prepare, features);
        prepare_references(&mut prepare);
        assert(ops(prepare@) =~= prepare_ops(features));

        let mut store: Vec<Instr> = Vec::new();
        emit(&mut store, InstrOf::PushGcUserdata(GcValue::ExtraData));
        emit(&mut store, InstrOf::RawSetP(RegistrySlot::Extra));
        emit(&mut store, InstrOf::AssertStack(LUA_MINSTACK));
        assert(ops(store@) =~= store_plan().steps);

        (
            Lua { state, main_state, extra, ephemeral: true, safe: false, version },
            ExtraData::new(),
            InitPlan {
                prepare: Plan { steps: prepare, outcome: Outcome::RegistryId, guard: None },
                store: Plan { steps: store, outcome: Outcome::Unit, guard: None },
                memory: None,
            },
        )
    }

    /// A further, ephemeral handle for a state whose main state has been taken over, given the data
    /// that was stored in the registry then.
    pub fn make_from_ptr(
        version: Version,
        state: u64,
        main_state: Option<u64>,
        extra: u64,
        data: &ExtraData,
    ) -> (lua: Lua)
        ensures
            lua == further_handle(version, state, main_state, extra, data@),
            lua == (Lua { state, main_state, extra, ephemeral: true, safe: data@.safe, version }),
    {
        Lua { state, main_state, extra, ephemeral: true, safe: data.safe, version }
    }

    /// Decides on loading a subset of the modules into this state. A state in safe mode refuses
    /// unsafe modules, and loses the ability to load C modules with the first loading of `package`.
    pub fn load_from_std_lib(&self, extra: &mut ExtraData, libs: StdLib) -> (r: Result<
        LoadPlan,
        Error,
    >)
        ensures
            match load_refusal(self.safe, self.version, libs) {
                Some(e) => refused(r, e) && final(extra)@ == old(extra)@,
                None => {
                    &&& r matches Ok(plan)
                    &&& plan.state == self.home()
                    &&& plan.load@ == load_plan(self.version, libs)
                    &&& plan_view(plan.disable_c_modules) == (if self.safe && libs.has(
                        Library::Package,
                    ) && !old(extra)@.libs.has(Library::Package) {
                        Some(disable_plan(self.version))
                    } else {
                        None
                    })
                    &&& final(extra)@ == old(extra)@.with_libs(libs)
                },
            },
            r is Err <==> self.safe && (libs.has(Library::Debug) || self.version == Version::LuaJit
                && libs.has(Library::Ffi)),
            r matches Ok(plan) ==> final(extra)@ == (ExtraView {
                libs: StdLib { bits: old(extra)@.libs.bits | libs.bits },
                ..old(extra)@
            }),
    {
        if self.safe && libs.contains_library(Library::Debug) {
            return Err(
                ErrorOf::SafetyError(
                    "the unsafe `debug` module can't be loaded in safe mode".to_owned(),
                ),
            );
        }
        if self.version.is_jit() && self.safe && libs.contains_library(Library::Ffi) {
            return Err(
                ErrorOf::SafetyError(
                    "the unsafe `ffi` module can't be loaded in safe mode".to_owned(),
                ),
            );
        }
        let load = load_from_std_lib(self.version, libs);
        // If `package` library loaded into a safe lua state then disable C modules
        let curr_libs = extra.libs;
        let all_libs = curr_libs.union(libs);
        let disable_c_modules = if self.safe && curr_libs.difference(all_libs).contains_library(
            Library::Package,
        ) {
            Some(Self::disable_c_modules(self.version))
        } else {
            None
        };
        extra.libs = all_libs;
        Ok(LoadPlan { state: self.main_or_current(), load, disable_c_modules })
    }

    /// Makes the plan that takes the ability to load C modules away: `package.loadlib` and the
    /// searcher for C libraries are replaced by functions that refuse, and the searcher for
    /// all-in-one C libraries is removed.
    pub fn disable_c_modules(version: Version) -> (plan: Plan)
        ensures
            plan@.steps[0] == Op::CheckStack(5),
            plan.outcome == Outcome::Unit,
            plan.guard == Some(0usize),
            plan@ == disable_plan(version),
            plan@.steps == seq![
                Op::CheckStack(5),
                globals_op(version),
                Op::GetField(Index::FromTop(1), "package".spec_bytes()),
                Op::Expect(RefKind::Table),
                Op::PushBuiltin(Builtin::RefuseLoadlib),
                Op::SetField(Index::FromTop(2), "loadlib".spec_bytes()),
                Op::GetField(
                    Index::FromTop(1),
                    if version == Version::Lua51 || version == Version::LuaJit {
                        "loaders".spec_bytes()
                    } else {
                        "searchers".spec_bytes()
                    },
                ),
                Op::Expect(RefKind::Table),
                Op::PushBuiltin(Builtin::RefuseSearcher),
                Op::RawSetI(Index::FromTop(2), 3),
                Op::RawRemove(Index::FromTop(1), 4),
            ],
    {
        let mut steps: Vec<Instr> = Vec::new();
        emit(&mut steps, InstrOf::CheckStack(5));
        emit(&mut steps, globals_instr(version));
        emit(&mut steps, InstrOf::GetField(Index::FromTop(1), "package".as_bytes_vec()));
        emit(&mut steps, InstrOf::Expect(RefKind::Table));
        emit(&mut steps, InstrOf::PushBuiltin(Builtin::RefuseLoadlib));
        emit(&mut steps, InstrOf::SetField(Index::FromTop(2), "loadlib".as_bytes_vec()));
        let searchers = if version.is_modern() {
            "searchers".as_bytes_vec()
        } else {
            "loaders".as_bytes_vec()
        };
        emit(&mut steps, InstrOf::GetField(Index::FromTop(1), searchers));
        emit(&mut steps, InstrOf::Expect(RefKind::Table));
        // The third and fourth searchers looks for a loader as a C library
        emit(&mut steps, InstrOf::PushBuiltin(Builtin::RefuseSearcher));
        emit(&mut steps, InstrOf::RawSetI(Index::FromTop(2), 3));
        emit(&mut steps, InstrOf::RawRemove(Index::FromTop(1), 4));
        assert(ops(steps@) =~= disable_ops(version));
        Plan { steps, outcome: Outcome::Unit, guard: Some(0) }
    }

    /// What calling `package.loadlib` gives in safe mode.
    pub fn loadlib_refusal() -> (e: Error)
        ensures
            e@ == ErrorView::SafetyError("package.loadlib is disabled in safe mode"@),
    {
        ErrorOf::SafetyError("package.loadlib is disabled in safe mode".to_owned())
    }

    /// What the searcher for C libraries answers in safe mode.
    pub fn searcher_refusal() -> (text: &'static str)
        ensures
            text@ == "\n\tcan't load C modules in safe mode"@,
    {
        "\n\tcan't load C modules in safe mode"
    }
}

/// Every handle is in safe mode exactly if the shared data says so: from the taking over of a state
/// through its construction, and for copies and further handles.
pub proof fn law_safe_flags_agree(
    lua: Lua,
    extra: ExtraView,
    safe: bool,
    libs: StdLib,
    state: u64,
    main_state: Option<u64>,
)
    requires
        lua.agrees(extra),
    ensures
        (Lua { state, main_state, extra: 0, ephemeral: true, safe: false, version: lua.version }).agrees(
            ExtraView::initial(),
        ),
        (Lua { ephemeral: false, ..lua }).agrees(extra.with_libs(libs)),
        secured_handle(safe, lua).agrees(secured_data(safe, extra)),
        lua.ephemeral_copy().agrees(extra),
        further_handle(lua.version, state, main_state, lua.extra, extra).agrees(extra),
{
}

/// A safe construction is refused exactly if `debug` is among the modules, or in LuaJIT `ffi`, and the
/// error names the first of them. So is the loading of modules into a state in safe mode, with errors
/// of its own; a state without safe mode loads everything.
pub proof fn law_refused_modules(version: Version, libs: StdLib)
    ensures
        construction_refusal(version, libs) == (if libs.has(Library::Debug) {
            Some(
                ErrorView::SafetyError(
                    "the unsafe `debug` module can't be loaded using safe `new_with`"@,
                ),
            )
        } else if version == Version::LuaJit && libs.has(Library::Ffi) {
            Some(
                ErrorView::SafetyError(
                    "the unsafe `ffi` module can't be loaded using safe `new_with`"@,
                ),
            )
        } else {
            None
        }),
        load_refusal(true, version, libs) == (if libs.has(Library::Debug) {
            Some(
                ErrorView::SafetyError("the unsafe `debug` module can't be loaded in safe mode"@),
            )
        } else if version == Version::LuaJit && libs.has(Library::Ffi) {
            Some(ErrorView::SafetyError("the unsafe `ffi` module can't be loaded in safe mode"@))
        } else {
            None
        }),
        load_refusal(false, version, libs) is None,
{
}

/// What a new state is made with: the given modules; accounting for its memory, from nothing and
/// without a limit, since Lua 5.2; other functions `pcall` and `xpcall` exactly if panics are not to
/// be caught. Safe mode, and that C modules cannot be loaded if `package` is among the modules, is all
/// that a safe construction adds.
pub proof fn law_construction(version: Version, libs: StdLib, options: LuaOptions)
    ensures
        ({
            let c = unsafe_construction(version, libs, options);
            &&& c.version == version
            &&& c.libs == libs
            &&& c.load == load_plan(version, libs)
            &&& c.base == base_plan()
            &&& c.memory == (if version == Version::Lua51 || version == Version::LuaJit {
                None
            } else {
                Some(MemoryInfo { used_memory: 0, memory_limit: 0 })
            })
            &&& c.options == (if options.catch_rust_panics {
                None
            } else {
                Some(options_plan(version))
            })
            &&& c.disable_c_modules is None
            &&& !c.safe
            &&& safe_construction(version, libs, options) == (ConstructionView {
                disable_c_modules: if libs.has(Library::Package) {
                    Some(disable_plan(version))
                } else {
                    None
                },
                safe: true,
                ..c
            })
        }),
{
}

/// Modules that were loaded stay loaded, the newly loaded ones are added, and nothing else that
/// handles share has changed.
pub proof fn law_loaded_modules(extra: ExtraView, libs: StdLib, lib: Library)
    ensures
        extra.with_libs(libs).libs.has(lib) <==> extra.libs.has(lib) || libs.has(lib),
        extra.with_libs(libs) == (ExtraView { libs: extra.with_libs(libs).libs, ..extra }),
{
    let (x, y, m) = (extra.libs.bits, libs.bits, lib.mask());
    assert(((x | y) & m != 0) <==> (x & m != 0 || y & m != 0)) by (bit_vector);
}

/// A construction that ends in safe mode puts the handle and the shared data into it, and changes
/// nothing else; without safe mode nothing changes. A further handle is in safe mode exactly if the
/// shared data is, and does not close the state.
pub proof fn law_secured(
    lua: Lua,
    extra: ExtraView,
    version: Version,
    state: u64,
    main_state: Option<u64>,
    id: u64,
)
    ensures
        secured_handle(true, lua) == (Lua { safe: true, ..lua }),
        secured_data(true, extra) == (ExtraView { safe: true, ..extra }),
        secured_handle(false, lua) == lua,
        secured_data(false, extra) == extra,
        further_handle(version, state, main_state, id, extra) == (Lua {
            state,
            main_state,
            extra: id,
            ephemeral: true,
            safe: extra.safe,
            version,
        }),
{
}

/// The globals are the second element of the registry since Lua 5.2, and before have an index of their
/// own.
pub proof fn law_globals_instruction(version: Version)
    ensures
        globals_op(version) == (if version == Version::Lua51 || version == Version::LuaJit {
            Op::PushValue(Index::Globals)
        } else {
            Op::RawGetI(Index::Registry, 2)
        }),
{
}

/// While modules are loaded into LuaJIT the collector is stopped, from before the first to after the
/// last, when it is restarted; in no other version is it touched.
pub proof fn law_collector_rests(version: Version, libs: StdLib, i: int)
    requires
        0 <= i < load_plan(version, libs).steps.len(),
    ensures
        ({
            let code = load_plan(version, libs).steps;
            &&& version == Version::LuaJit ==> code[0] == Op::Gc(0, 0) && code.last() == Op::Gc(
                1,
                (-1) as i32,
            ) && code.len() >= 2
            &&& code[i] is Gc ==> version == Version::LuaJit && (i == 0 || i == code.len() - 1)
        }),
{
    let libraries = selected(version, libs);
    let open = open_ops(libraries);
    if version == Version::LuaJit {
        if 0 < i < load_plan(version, libs).steps.len() - 1 {
            assert(load_plan(version, libs).steps[i] == open[i - 1]);
            lemma_opening_is_no_collecting(libraries, i - 1);
        }
    } else {
        lemma_opening_is_no_collecting(libraries, i);
    }
}

proof fn lemma_opening_is_no_collecting(libraries: Seq<Library>, i: int)
    requires
        0 <= i < open_ops(libraries).len(),
    ensures
        !(open_ops(libraries)[i] is Gc),
    decreases libraries.len(),
{
    if libraries.len() > 0 {
        let rest = open_ops(libraries.drop_last());
        if i < rest.len() {
            lemma_opening_is_no_collecting(libraries.drop_last(), i);
        }
    }
}

/// The registry is prepared for errors and for the userdata of callbacks, handles and shared data in
/// any case; for those of asynchronous functions and for serialization exactly if the embedding has
/// these. At last the reference thread is made and put into the registry, and its key is given.
pub proof fn law_prepared(features: Features)
    ensures
        ({
            let code = prepare_plan(features).steps;
            let n = code.len() as int;
            &&& code.contains(Op::InitErrorRegistry)
            &&& code.contains(Op::InitGcMetatable(GcType::Callback))
            &&& code.contains(Op::InitGcMetatable(GcType::Lua))
            &&& code.contains(Op::InitGcMetatable(GcType::ExtraData))
            &&& code.contains(Op::InitGcMetatable(GcType::AsyncCallback)) <==> features.asynchronous
            &&& code.contains(Op::InitGcMetatable(GcType::Future)) <==> features.asynchronous
            &&& code.contains(Op::InitGcMetatable(GcType::Waker)) <==> features.asynchronous
            &&& code.contains(Op::RawSetP(RegistrySlot::Waker)) <==> features.asynchronous
            &&& code.contains(Op::InitSerdeMetatables) <==> features.serialize
            &&& code[n - 2] == Op::NewThread
            &&& code[n - 1] == Op::MakeRef
            &&& prepare_plan(features).outcome == Outcome::RegistryId
            &&& prepare_plan(features).guard is None
        }),
        store_plan().steps.contains(Op::AssertStack(20)),
        store_plan().steps.contains(Op::RawSetP(RegistrySlot::Extra)),
{
    let code = prepare_plan(features).steps;
    assert(code[0] == Op::InitErrorRegistry);
    assert(code[1] == Op::InitGcMetatable(GcType::Callback));
    assert(code[2] == Op::InitGcMetatable(GcType::Lua));
    assert(code[3] == Op::InitGcMetatable(GcType::ExtraData));
    if features.asynchronous {
        assert(code[4] == Op::InitGcMetatable(GcType::AsyncCallback));
        assert(code[5] == Op::InitGcMetatable(GcType::Future));
        assert(code[6] == Op::InitGcMetatable(GcType::Waker));
        assert(code[8] == Op::RawSetP(RegistrySlot::Waker));
        if features.serialize {
            assert(code[9] == Op::InitSerdeMetatables);
        }
    } else if features.serialize {
        assert(code[4] == Op::InitSerdeMetatables);
    }
    assert(store_plan().steps[1] == Op::RawSetP(RegistrySlot::Extra));
    assert(store_plan().steps[2] == Op::AssertStack(20));
}

} // verus!
