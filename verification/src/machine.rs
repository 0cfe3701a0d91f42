//! Instructions for the Lua C API, and a model of the stack machine that they run on.
//!
//! The embedding hands out its work on the virtual machine as instruction sequences. The model
//! says what the instructions do, so that what a sequence achieves can be stated and proved.

use vstd::prelude::*;
use vstd::string::*;

use crate::asynchronous::{driver_text, environment_fields, get_poll_function};
use crate::construct::LUA_RIDX_GLOBALS;
use crate::error::{Error, ErrorView};
use crate::gc::{LUA_GCRESTART, LUA_GCSTOP};
use crate::number::number_key;
use crate::stdlib::{basic_name, module_name, searchers_name, Library, StdLib};
use crate::value::RefKind;
use crate::version::Version;

verus! {

/// A place that an instruction works on: a stack slot, counted from the top or from the bottom and
/// in both cases from one, the registry table, or the table of globals.
#[derive(Clone, Copy, Debug, PartialEq, Eq, Structural)]
pub enum Index {
    FromTop(i32),
    Slot(i32),
    Registry,
    Globals,
}

/// How a callback treats its arguments and itself.
#[derive(Clone, Copy, Debug, PartialEq, Eq, Structural)]
pub enum CallKind {
    /// A function that shares nothing mutable.
    Function,
    /// A function made from a mutable closure, registered on a userdata type.
    FunctionMut,
    /// A function made from a mutable closure, registered on its own.
    ClosureMut,
    /// An asynchronous function.
    AsyncFunction,
    /// A method that borrows its userdata.
    Method,
    /// A method made from a mutable closure that borrows its userdata mutably.
    MethodMut,
    /// An asynchronous method, which works on a clone of its userdata.
    AsyncMethod,
}

/// A callback: its kind and the number under which the embedder keeps the code.
#[derive(Clone, Copy, Debug, PartialEq, Eq, Structural)]
pub struct Callback {
    pub kind: CallKind,
    pub id: u64,
}

/// Functions of the embedder that Lua calls directly.
#[derive(Clone, Copy, Debug, PartialEq, Eq, Structural)]
pub enum CFunction {
    CallCallback,
    CallAsyncCallback,
    PollFuture,
    NoPanicPcall,
    NoPanicXpcall,
}

/// Functions that the embedding itself makes available to Lua code.
#[derive(Clone, Copy, Debug, PartialEq, Eq, Structural)]
pub enum Builtin {
    /// Stands in for `package.loadlib` in safe mode.
    RefuseLoadlib,
    /// Stands in for the module searcher that looks for C libraries in safe mode.
    RefuseSearcher,
    /// Spreads a table of results, given with their number.
    Unpack,
}

/// Values of the embedder that Lua owns and destroys.
#[derive(Clone, Copy, Debug, PartialEq, Eq, Structural)]
pub enum GcValue {
    Callback(Callback),
    AsyncCallback(Callback),
    Lua,
    ExtraData,
    Future,
    NoWaker,
}

/// Types of the embedder whose values Lua owns and destroys.
#[derive(Clone, Copy, Debug, PartialEq, Eq, Structural)]
pub enum GcType {
    Callback,
    Lua,
    ExtraData,
    AsyncCallback,
    Future,
    Waker,
}

/// Registry entries of the embedder that are found by an address of its own.
#[derive(Clone, Copy, Debug, PartialEq, Eq, Structural)]
pub enum RegistrySlot {
    Extra,
    Waker,
}

/// Which kinds of chunks are accepted.
#[derive(Clone, Copy, Debug, PartialEq, Eq, Structural)]
pub enum LoadMode {
    Binary,
    Text,
    Any,
}

/// An instruction, over the types of its byte strings and of its errors.
///
/// `Instr` holds vectors of bytes and `Error`s; `Op`, its view, holds sequences and views.
#[derive(Debug, PartialEq, Eq)]
pub enum InstrOf<B, E> {
    /// Ask for room for some more values; fails if there is none.
    CheckStack(i32),
    /// Ask for room for some more values, which has to be there.
    AssertStack(i32),
    /// Stop with an error.
    Fail(E),
    /// Take values off the stack.
    Pop(i32),
    PushNil,
    PushBoolean(i32),
    PushLightUserData(u64),
    PushInteger(i64),
    PushNumber(u64),
    PushString(B),
    /// Push the error that the embedder keeps under a number, wrapped as a userdata.
    PushError(u64),
    /// Push the thread that runs.
    PushThread,
    PushValue(Index),
    PushCFunction(CFunction),
    /// Copy a slot of the reference thread to the top of that thread.
    RefPushValue(i32),
    /// Move the top of the reference thread to the stack.
    RefToState,
    /// Move the top of the stack to the reference thread.
    StateToRef,
    /// Push nil on the reference thread.
    RefPushNil,
    /// Move the top of the reference thread down into a slot.
    RefReplace(i32),
    /// Take values off the reference thread.
    RefPop(i32),
    NewTable,
    CreateTable(i32, i32),
    /// Push a new thread.
    NewThread,
    /// Move values to the thread that lies right below them.
    MoveToThread(i32),
    /// Set a field to the value on top, under the key below it; takes both.
    RawSet(Index),
    /// Set an integer field to the value on top; takes it.
    RawSetI(Index, i64),
    /// Set a string field to the value on top; takes it.
    RawSetField(Index, B),
    /// Remove an element of a sequence; the elements after it move down by one.
    RawRemove(Index, i64),
    /// Set a string field to the value on top, as Lua code would; takes it.
    SetField(Index, B),
    /// Push a string field, read as Lua code would.
    GetField(Index, B),
    /// Fail unless the value on top is of a kind.
    Expect(RefKind),
    /// Replace the key on top by the field under it.
    RawGet(Index),
    /// Push an integer field.
    RawGetI(Index, i64),
    /// Set a registry entry of the embedder to the value on top; takes it.
    RawSetP(RegistrySlot),
    /// Put the value on top into the registry under a new integer; takes it.
    MakeRef,
    /// Give back a registry integer.
    Unref(i32),
    /// Set the metatable of a value to the table on top; takes the table.
    SetMetatable(Index),
    /// Set an upvalue of a chunk to the value on top; takes the value.
    SetUpvalue(Index, i32),
    /// Set the environment of a chunk to the value on top; takes the value.
    SetFenv(Index),
    /// Push a function that calls a callback.
    PushCallback(Callback),
    /// Push a function of the embedding.
    PushBuiltin(Builtin),
    /// Push the value that the embedder computes for a metatable field.
    PushMetaField(u64),
    /// Push a value of the embedder that Lua owns.
    PushGcUserdata(GcValue),
    /// Push the userdata that is being made.
    PushUserData,
    /// Replace values on top, its upvalues, by a closure.
    PushRClosure(CFunction, i32),
    /// Complete the metatable of a userdata type, given the slots of its tables.
    InitUserDataMetatable {
        metatable: i32,
        field_getters: Option<i32>,
        field_setters: Option<i32>,
        methods: Option<i32>,
    },
    /// Compile a chunk and push it; fails if it does not compile.
    LoadBuffer { source: B, name: Option<B>, mode: LoadMode },
    /// Convert the value on top to a string in place, if it can be.
    ToText,
    /// Open a module, make it global and push it.
    OpenLibrary(Library),
    /// Open the basic functions, make them global and push their table.
    OpenBase,
    /// Command the garbage collector.
    Gc(i32, i32),
    /// Prepare the registry for errors and panics.
    InitErrorRegistry,
    /// Prepare the registry for a type whose values Lua owns.
    InitGcMetatable(GcType),
    /// Prepare the registry for serialization.
    InitSerdeMetatables,
}

/// An instruction as the embedder carries it out.
pub type Instr = InstrOf<Vec<u8>, Error>;

/// An instruction by its contents.
pub type Op = InstrOf<Seq<u8>, ErrorView>;

/// The bytes of an optional name.
pub open spec fn name_view(name: Option<Vec<u8>>) -> Option<Seq<u8>> {
    match name {
        Some(bytes) => Some(bytes@),
        None => None,
    }
}

impl View for InstrOf<Vec<u8>, Error> {
    type V = InstrOf<Seq<u8>, ErrorView>;

    open spec fn view(&self) -> InstrOf<Seq<u8>, ErrorView> {
        match *self {
            InstrOf::CheckStack(n) => InstrOf::CheckStack(n),
            InstrOf::AssertStack(n) => InstrOf::AssertStack(n),
            InstrOf::Fail(e) => InstrOf::Fail(e@),
            InstrOf::Pop(n) => InstrOf::Pop(n),
            InstrOf::PushNil => InstrOf::PushNil,
            InstrOf::PushBoolean(b) => InstrOf::PushBoolean(b),
            InstrOf::PushLightUserData(p) => InstrOf::PushLightUserData(p),
            InstrOf::PushInteger(i) => InstrOf::PushInteger(i),
            InstrOf::PushNumber(n) => InstrOf::PushNumber(n),
            InstrOf::PushString(s) => InstrOf::PushString(s@),
            InstrOf::PushError(e) => InstrOf::PushError(e),
            InstrOf::PushThread => InstrOf::PushThread,
            InstrOf::PushValue(i) => InstrOf::PushValue(i),
            InstrOf::PushCFunction(f) => InstrOf::PushCFunction(f),
            InstrOf::RefPushValue(i) => InstrOf::RefPushValue(i),
            InstrOf::RefToState => InstrOf::RefToState,
            InstrOf::StateToRef => InstrOf::StateToRef,
            InstrOf::RefPushNil => InstrOf::RefPushNil,
            InstrOf::RefReplace(i) => InstrOf::RefReplace(i),
            InstrOf::RefPop(n) => InstrOf::RefPop(n),
            InstrOf::NewTable => InstrOf::NewTable,
            InstrOf::CreateTable(a, r) => InstrOf::CreateTable(a, r),
            InstrOf::NewThread => InstrOf::NewThread,
            InstrOf::MoveToThread(n) => InstrOf::MoveToThread(n),
            InstrOf::RawSet(i) => InstrOf::RawSet(i),
            InstrOf::RawSetI(i, k) => InstrOf::RawSetI(i, k),
            InstrOf::RawSetField(i, k) => InstrOf::RawSetField(i, k@),
            InstrOf::RawRemove(i, k) => InstrOf::RawRemove(i, k),
            InstrOf::SetField(i, k) => InstrOf::SetField(i, k@),
            InstrOf::GetField(i, k) => InstrOf::GetField(i, k@),
            InstrOf::Expect(kind) => InstrOf::Expect(kind),
            InstrOf::RawGet(i) => InstrOf::RawGet(i),
            InstrOf::RawGetI(i, k) => InstrOf::RawGetI(i, k),
            InstrOf::RawSetP(k) => InstrOf::RawSetP(k),
            InstrOf::MakeRef => InstrOf::MakeRef,
            InstrOf::Unref(id) => InstrOf::Unref(id),
            InstrOf::SetMetatable(i) => InstrOf::SetMetatable(i),
            InstrOf::SetUpvalue(i, n) => InstrOf::SetUpvalue(i, n),
            InstrOf::SetFenv(i) => InstrOf::SetFenv(i),
            InstrOf::PushCallback(c) => InstrOf::PushCallback(c),
            InstrOf::PushBuiltin(b) => InstrOf::PushBuiltin(b),
            InstrOf::PushMetaField(f) => InstrOf::PushMetaField(f),
            InstrOf::PushGcUserdata(v) => InstrOf::PushGcUserdata(v),
            InstrOf::PushUserData => InstrOf::PushUserData,
            InstrOf::PushRClosure(f, n) => InstrOf::PushRClosure(f, n),
            InstrOf::InitUserDataMetatable { metatable, field_getters, field_setters, methods } => {
                InstrOf::InitUserDataMetatable { metatable, field_getters, field_setters, methods }
            },
            InstrOf::LoadBuffer { source, name, mode } => {
                InstrOf::LoadBuffer { source: source@, name: name_view(name), mode }
            },
            InstrOf::ToText => InstrOf::ToText,
            InstrOf::OpenLibrary(lib) => InstrOf::OpenLibrary(lib),
            InstrOf::OpenBase => InstrOf::OpenBase,
            InstrOf::Gc(what, data) => InstrOf::Gc(what, data),
            InstrOf::InitErrorRegistry => InstrOf::InitErrorRegistry,
            InstrOf::InitGcMetatable(t) => InstrOf::InitGcMetatable(t),
            InstrOf::InitSerdeMetatables => InstrOf::InitSerdeMetatables,
        }
    }
}

/// An instruction stands for itself: its contents are those of the same instruction, with the same
/// numbers and the bytes that it holds.
pub proof fn law_instruction_contents(instr: Instr)
    ensures
        instr matches InstrOf::CheckStack(n) ==> instr@ == Op::CheckStack(n),
        instr matches InstrOf::AssertStack(n) ==> instr@ == Op::AssertStack(n),
        instr matches InstrOf::Fail(e) ==> instr@ == Op::Fail(e@),
        instr matches InstrOf::Pop(n) ==> instr@ == Op::Pop(n),
        instr == Instr::PushNil ==> instr@ == Op::PushNil,
        instr matches InstrOf::PushBoolean(b) ==> instr@ == Op::PushBoolean(b),
        instr matches InstrOf::PushLightUserData(p) ==> instr@ == Op::PushLightUserData(p),
        instr matches InstrOf::PushInteger(i) ==> instr@ == Op::PushInteger(i),
        instr matches InstrOf::PushNumber(n) ==> instr@ == Op::PushNumber(n),
        instr matches InstrOf::PushString(s) ==> instr@ == Op::PushString(s@),
        instr matches InstrOf::PushError(e) ==> instr@ == Op::PushError(e),
        instr == Instr::PushThread ==> instr@ == Op::PushThread,
        instr matches InstrOf::PushValue(i) ==> instr@ == Op::PushValue(i),
        instr matches InstrOf::PushCFunction(f) ==> instr@ == Op::PushCFunction(f),
        instr matches InstrOf::RefPushValue(i) ==> instr@ == Op::RefPushValue(i),
        instr == Instr::RefToState ==> instr@ == Op::RefToState,
        instr == Instr::StateToRef ==> instr@ == Op::StateToRef,
        instr == Instr::RefPushNil ==> instr@ == Op::RefPushNil,
        instr matches InstrOf::RefReplace(i) ==> instr@ == Op::RefReplace(i),
        instr matches InstrOf::RefPop(n) ==> instr@ == Op::RefPop(n),
        instr == Instr::NewTable ==> instr@ == Op::NewTable,
        instr matches InstrOf::CreateTable(a, r) ==> instr@ == Op::CreateTable(a, r),
        instr == Instr::NewThread ==> instr@ == Op::NewThread,
        instr matches InstrOf::MoveToThread(n) ==> instr@ == Op::MoveToThread(n),
        instr matches InstrOf::RawSet(i) ==> instr@ == Op::RawSet(i),
        instr matches InstrOf::RawSetI(i, k) ==> instr@ == Op::RawSetI(i, k),
        instr matches InstrOf::RawSetField(i, k) ==> instr@ == Op::RawSetField(i, k@),
        instr matches InstrOf::RawRemove(i, k) ==> instr@ == Op::RawRemove(i, k),
        instr matches InstrOf::SetField(i, k) ==> instr@ == Op::SetField(i, k@),
        instr matches InstrOf::GetField(i, k) ==> instr@ == Op::GetField(i, k@),
        instr matches InstrOf::Expect(kind) ==> instr@ == Op::Expect(kind),
        instr matches InstrOf::RawGet(i) ==> instr@ == Op::RawGet(i),
        instr matches InstrOf::RawGetI(i, k) ==> instr@ == Op::RawGetI(i, k),
        instr matches InstrOf::RawSetP(k) ==> instr@ == Op::RawSetP(k),
        instr == Instr::MakeRef ==> instr@ == Op::MakeRef,
        instr matches InstrOf::Unref(id) ==> instr@ == Op::Unref(id),
        instr matches InstrOf::SetMetatable(i) ==> instr@ == Op::SetMetatable(i),
        instr matches InstrOf::SetUpvalue(i, n) ==> instr@ == Op::SetUpvalue(i, n),
        instr matches InstrOf::SetFenv(i) ==> instr@ == Op::SetFenv(i),
        instr matches InstrOf::PushCallback(c) ==> instr@ == Op::PushCallback(c),
        instr matches InstrOf::PushBuiltin(b) ==> instr@ == Op::PushBuiltin(b),
        instr matches InstrOf::PushMetaField(f) ==> instr@ == Op::PushMetaField(f),
        instr matches InstrOf::PushGcUserdata(v) ==> instr@ == Op::PushGcUserdata(v),
        instr == Instr::PushUserData ==> instr@ == Op::PushUserData,
        instr matches InstrOf::PushRClosure(f, n) ==> instr@ == Op::PushRClosure(f, n),
        instr == Instr::ToText ==> instr@ == Op::ToText,
        instr matches InstrOf::OpenLibrary(lib) ==> instr@ == Op::OpenLibrary(lib),
        instr == Instr::OpenBase ==> instr@ == Op::OpenBase,
        instr matches InstrOf::Gc(what, data) ==> instr@ == Op::Gc(what, data),
        instr == Instr::InitErrorRegistry ==> instr@ == Op::InitErrorRegistry,
        instr matches InstrOf::InitGcMetatable(t) ==> instr@ == Op::InitGcMetatable(t),
        instr == Instr::InitSerdeMetatables ==> instr@ == Op::InitSerdeMetatables,
        instr matches InstrOf::InitUserDataMetatable {
            metatable,
            field_getters,
            field_setters,
            methods,
        } ==> instr@ == (Op::InitUserDataMetatable {
            metatable,
            field_getters,
            field_setters,
            methods,
        }),
        instr matches InstrOf::LoadBuffer { source, name, mode } ==> instr@ == (Op::LoadBuffer {
            source: source@,
            name: match name {
                Some(bytes) => Some(bytes@),
                None => None,
            },
            mode,
        }),
{
}

/// The contents of an instruction sequence.
pub open spec fn ops(steps: Seq<Instr>) -> Seq<Op> {
    steps.map_values(|i: Instr| i@)
}

/// Adds an instruction to the end of a sequence.
pub fn emit(steps: &mut Vec<Instr>, instr: Instr)
    ensures
        ops(final(steps)@) == ops(old(steps)@).push(instr@),
{
    let ghost before = steps@;
    steps.push(instr);
    assert(ops(steps@) =~= ops(before).push(instr@));
}

/// What becomes of the top of the stack when a plan has run.
#[derive(Clone, Copy, Debug, PartialEq, Eq, Structural)]
pub enum Outcome {
    /// Nothing.
    Unit,
    /// It is pinned in a slot of the reference thread, and the handle is the result.
    Reference(RefKind),
    /// It is taken off as a value, which is the result.
    Value,
    /// It stays; the result is the registry integer that was made.
    RegistryId,
    /// It is pinned and the handle is the result if it is a string, else there is no result.
    Text,
    /// Its integer value is the result, if it has one.
    Integer,
    /// Its number value is the result, if it has one.
    Number,
}

/// Work on the virtual machine: instructions that are run in order up to the first that fails, and
/// what is done with the top of the stack if none does.
///
/// A guarded plan leaves, whether it fails or not, the stack of before with at most `guard` values
/// on it: whatever else lies above is taken off.
#[derive(Debug, PartialEq, Eq)]
pub struct Plan {
    pub steps: Vec<Instr>,
    pub outcome: Outcome,
    pub guard: Option<usize>,
}

/// A plan by its contents.
#[verifier::ext_equal]
pub struct PlanView {
    pub steps: Seq<Op>,
    pub outcome: Outcome,
    pub guard: Option<usize>,
}

impl View for Plan {
    type V = PlanView;

    open spec fn view(&self) -> PlanView {
        PlanView { steps: ops(self.steps@), outcome: self.outcome, guard: self.guard }
    }
}

/// A value in the model.
pub enum Val {
    Nil,
    Boolean(bool),
    LightUserData(u64),
    Integer(i64),
    Number(u64),
    String(Seq<u8>),
    Error(u64),
    Thread(nat),
    Table(nat),
    UserData(nat),
    Chunk(nat),
    Builtin(Builtin),
    CFunction(CFunction),
    Closure(CFunction, Seq<Val>),
    Gc(GcValue),
    /// A function that comes with a module, under its name there.
    Stock(Library, Seq<u8>),
    /// A searcher that comes with the module `package`, by its position.
    Searcher(i64),
    /// A basic function, by its name.
    Basic(Seq<u8>),
    Slot(RegistrySlot),
}

impl Val {
    /// The kind of a value that is kept behind a handle.
    pub open spec fn kind(self) -> Option<RefKind> {
        match self {
            Val::String(_) => Some(RefKind::String),
            Val::Table(_) => Some(RefKind::Table),
            Val::Chunk(_) | Val::Builtin(_) | Val::CFunction(_) | Val::Closure(_, _)
            | Val::Stock(_, _) | Val::Searcher(_) | Val::Basic(_) => Some(RefKind::Function),
            Val::Thread(_) => Some(RefKind::Thread),
            Val::UserData(_) | Val::Gc(_) => Some(RefKind::UserData),
            _ => None,
        }
    }
}

impl CallKind {
    /// Whether the callback answers with a future.
    pub open spec fn asynchronous(self) -> bool {
        self == CallKind::AsyncFunction || self == CallKind::AsyncMethod
    }

    /// Whether the callback answers with a future.
    pub fn is_asynchronous(self) -> (b: bool)
        ensures
            b == self.asynchronous(),
            b <==> self == CallKind::AsyncFunction || self == CallKind::AsyncMethod,
    {
        match self {
            CallKind::AsyncFunction | CallKind::AsyncMethod => true,
            _ => false,
        }
    }
}

/// The function that calls a synchronous callback: a closure over the callback and the state.
pub open spec fn callback_function(c: Callback) -> Val {
    Val::Closure(
        CFunction::CallCallback,
        seq![Val::Gc(GcValue::Callback(c)), Val::Gc(GcValue::Lua)],
    )
}

/// How a userdata type's metatable has been completed.
pub struct Wiring {
    pub metatable: Val,
    pub field_getters: Option<Val>,
    pub field_setters: Option<Val>,
    pub methods: Option<Val>,
}

/// A use of a table that calls a metamethod.
pub enum Access {
    /// A table is read under a key.
    Index(nat, Val),
    /// A table is written under a key.
    NewIndex(nat, Val, Val),
    /// The basic functions are written into the globals.
    Basics,
}

/// What Lua code can reach and change when it is called: everything but the stack of its caller.
pub struct Heap {
    pub refs: Seq<Val>,
    pub tables: Map<nat, Map<Val, Val>>,
    pub threads: Map<nat, Seq<Val>>,
    pub metatables: Map<nat, Val>,
    pub envs: Map<nat, Val>,
    pub sources: Map<nat, Seq<u8>>,
    pub wirings: Seq<Wiring>,
    pub modules: Map<Library, nat>,
    pub opened: Seq<Library>,
    pub libs: StdLib,
    pub collecting: bool,
    pub made: i32,
    pub fresh: nat,
}

/// What Lua and the code that is called do, where it is not for the embedding to decide.
pub struct World {
    /// Whether a stack of some height has room for more values.
    pub room: spec_fn(int, i32) -> bool,
    /// Whether a source compiles as one of the accepted kinds of chunks.
    pub compiles: spec_fn(Seq<u8>, LoadMode) -> bool,
    /// How an integer or a number is written.
    pub numeral: spec_fn(Val) -> Seq<u8>,
    /// What a metamethod leaves behind and answers; nothing if it fails.
    pub metamethod: spec_fn(Access, Heap) -> Option<(Heap, Val)>,
    /// What the embedder computes for a metatable field, and what that leaves behind; nothing if it
    /// fails.
    pub meta_field: spec_fn(u64, Heap) -> Option<(Heap, Val)>,
}

/// State of the modelled virtual machine.
///
/// Tables, threads, chunks and userdata are known by numbers below `fresh`; the registry is table
/// zero and the globals are table one. `metatables` holds the metatables of tables and userdata,
/// `envs` and `sources` the environments and the sources of chunks, `modules` the tables of the
/// modules that were opened, `opened` the modules in the order of their opening, `libs` the modules
/// that count as loaded in the shared data, `collecting` whether the collector runs on its own, and
/// `made` the registry integer that was made last. `pending` is the address that marks pending
/// futures, and `world` what Lua does of its own. Of what is in a module there is only what the
/// embedding relies on.
#[verifier::ext_equal]
pub struct Machine {
    pub version: Version,
    pub world: World,
    pub pending: u64,
    pub stack: Seq<Val>,
    pub refs: Seq<Val>,
    pub tables: Map<nat, Map<Val, Val>>,
    pub threads: Map<nat, Seq<Val>>,
    pub metatables: Map<nat, Val>,
    pub envs: Map<nat, Val>,
    pub sources: Map<nat, Seq<u8>>,
    pub wirings: Seq<Wiring>,
    pub modules: Map<Library, nat>,
    pub opened: Seq<Library>,
    pub libs: StdLib,
    pub collecting: bool,
    pub made: i32,
    pub current: nat,
    pub fresh: nat,
}

/// The field of a table under a key, nil if there is none.
pub open spec fn field(table: Map<Val, Val>, key: Val) -> Val {
    if table.dom().contains(key) {
        table[key]
    } else {
        Val::Nil
    }
}

/// A table with a field set; setting nil removes the field.
pub open spec fn with_field(table: Map<Val, Val>, key: Val, value: Val) -> Map<Val, Val> {
    if value == Val::Nil {
        table.remove(key)
    } else {
        table.insert(key, value)
    }
}

/// The key under which a table keeps what is set under a value. A number whose value is an integer
/// is the key that the integer is; nil and what is no number are no keys.
pub open spec fn table_key(value: Val) -> Option<Val> {
    match value {
        Val::Nil => None,
        Val::Number(bits) => number_key(bits),
        _ => Some(value),
    }
}

/// The registry integer that stands for nil.
pub const LUA_REFNIL: i32 = -1;

/// A registry integer that can be given out.
pub open spec fn unused(registry: Map<Val, Val>, id: i32) -> bool {
    0 < id && !registry.dom().contains(Val::Integer(id as i64))
}

/// A sequence without its element `key`, the later ones moved down.
pub open spec fn without_element(table: Map<Val, Val>, key: i64) -> Map<Val, Val> {
    Map::new(
        |k: Val|
            match k {
                Val::Integer(i) => if i >= key {
                    i < i64::MAX && table.dom().contains(Val::Integer((i + 1) as i64))
                } else {
                    table.dom().contains(k)
                },
                _ => table.dom().contains(k),
            },
        |k: Val|
            match k {
                Val::Integer(i) => if i >= key {
                    table[Val::Integer((i + 1) as i64)]
                } else {
                    table[k]
                },
                _ => table[k],
            },
    )
}

/// The fields of a module when it is opened; `next` is the table of the searchers.
pub open spec fn module_fields(version: Version, lib: Library, next: nat) -> Map<Val, Val> {
    let none = Map::<Val, Val>::empty();
    match lib {
        Library::Coroutine => none.insert(
            Val::String("yield".spec_bytes()),
            Val::Stock(lib, "yield".spec_bytes()),
        ),
        Library::Package => none.insert(
            Val::String("loadlib".spec_bytes()),
            Val::Stock(lib, "loadlib".spec_bytes()),
        ).insert(Val::String(searchers_name(version)), Val::Table(next)),
        _ => none,
    }
}

/// The searchers that come with the module `package`: for preloaded modules, for Lua modules, for C
/// libraries and for all-in-one C libraries.
pub open spec fn stock_searchers() -> Map<Val, Val> {
    Map::<Val, Val>::empty().insert(Val::Integer(1), Val::Searcher(1)).insert(
        Val::Integer(2),
        Val::Searcher(2),
    ).insert(Val::Integer(3), Val::Searcher(3)).insert(Val::Integer(4), Val::Searcher(4))
}

/// A table with the basic functions and, under the name `_G`, the globals themselves.
pub open spec fn with_basics(table: Map<Val, Val>) -> Map<Val, Val> {
    Map::new(
        |k: Val| table.dom().contains(k) || (k matches Val::String(s) && basic_name(s)),
        |k: Val|
            match k {
                Val::String(s) => if basic_name(s) {
                    Val::Basic(s)
                } else {
                    table[k]
                },
                _ => table[k],
            },
    ).insert(Val::String("_G".spec_bytes()), Val::Table(globals()))
}

/// Number of the registry table.
pub open spec fn registry() -> nat {
    0
}

/// Number of the table of globals.
pub open spec fn globals() -> nat {
    1
}

impl Machine {
    /// The registry and the globals are there, new numbers are new, each module that was opened is a
    /// table of its own, and metatables are there.
    pub open spec fn sane(self) -> bool {
        &&& self.tables.dom().contains(registry())
        &&& self.tables.dom().contains(globals())
        &&& 1 < self.fresh
        &&& forall|id: nat| #[trigger] self.tables.dom().contains(id) ==> id < self.fresh
        &&& !self.tables[registry()].dom().contains(Val::Integer(LUA_REFNIL as i64))
        &&& forall|lib: Library| #[trigger]
            self.modules.dom().contains(lib) ==> 1 < self.modules[lib]
                && self.tables.dom().contains(self.modules[lib])
        &&& forall|id: nat| #[trigger]
            self.metatables.dom().contains(id) ==> id < self.fresh && (
            self.metatables[id] matches Val::Table(mt) ==> self.tables.dom().contains(mt))
    }

    /// There is room on the stack whenever it is asked for.
    pub open spec fn roomy(self) -> bool {
        forall|height: int, n: i32| #[trigger] (self.world.room)(height, n)
    }

    /// As `sane`, and there is a registry integer left.
    pub open spec fn wf(self) -> bool {
        &&& self.sane()
        &&& exists|id: i32| #[trigger] unused(self.tables[registry()], id)
    }

    /// With the table of a module: that of before if the module was opened, else a new one.
    pub open spec fn with_module(self, lib: Library) -> Machine {
        if self.modules.dom().contains(lib) {
            self
        } else {
            let fields = module_fields(self.version, lib, self.fresh + 1);
            let tables = self.tables.insert(self.fresh, fields);
            Machine {
                tables: if lib == Library::Package {
                    tables.insert(self.fresh + 1, stock_searchers())
                } else {
                    tables
                },
                modules: self.modules.insert(lib, self.fresh),
                fresh: self.fresh + 2,
                ..self
            }
        }
    }

    /// What Lua code can reach.
    pub open spec fn heap(self) -> Heap {
        Heap {
            refs: self.refs,
            tables: self.tables,
            threads: self.threads,
            metatables: self.metatables,
            envs: self.envs,
            sources: self.sources,
            wirings: self.wirings,
            modules: self.modules,
            opened: self.opened,
            libs: self.libs,
            collecting: self.collecting,
            made: self.made,
            fresh: self.fresh,
        }
    }

    /// With what Lua code has left behind.
    pub open spec fn with_heap(self, heap: Heap) -> Machine {
        Machine {
            refs: heap.refs,
            tables: heap.tables,
            threads: heap.threads,
            metatables: heap.metatables,
            envs: heap.envs,
            sources: heap.sources,
            wirings: heap.wirings,
            modules: heap.modules,
            opened: heap.opened,
            libs: heap.libs,
            collecting: heap.collecting,
            made: heap.made,
            fresh: heap.fresh,
            ..self
        }
    }

    /// The metamethod of a table for an event, nil if there is none.
    pub open spec fn metamethod(self, table: nat, event: Seq<u8>) -> Val {
        if self.metatables.dom().contains(table) {
            match self.metatables[table] {
                Val::Table(mt) => field(self.tables[mt], Val::String(event)),
                _ => Val::Nil,
            }
        } else {
            Val::Nil
        }
    }

    /// Reading a table under a key calls no metamethod: there is a field, or no `__index`.
    pub open spec fn reads_plainly(self, table: nat, key: Val) -> bool {
        field(self.tables[table], key) != Val::Nil || self.metamethod(
            table,
            "__index".spec_bytes(),
        ) == Val::Nil
    }

    /// Writing a table under a key calls no metamethod: there is a field, or no `__newindex`.
    pub open spec fn writes_plainly(self, table: nat, key: Val) -> bool {
        field(self.tables[table], key) != Val::Nil || self.metamethod(
            table,
            "__newindex".spec_bytes(),
        ) == Val::Nil
    }

    /// After a metamethod was called, with its answer.
    #[verifier::opaque]
    pub open spec fn called(self, access: Access) -> Option<(Machine, Val)> {
        match (self.world.metamethod)(access, self.heap()) {
            Some((heap, answer)) => Some((self.with_heap(heap), answer)),
            None => None,
        }
    }

    /// What Lua code reads from a table under a key.
    pub open spec fn read(self, table: nat, key: Val) -> Option<(Machine, Val)> {
        if self.reads_plainly(table, key) {
            Some((self, field(self.tables[table], key)))
        } else {
            self.called(Access::Index(table, key))
        }
    }

    /// After Lua code has written a table under a key.
    pub open spec fn write(self, table: nat, key: Val, value: Val) -> Option<Machine> {
        if self.writes_plainly(table, key) {
            Some(self.set(table, key, value))
        } else {
            match self.called(Access::NewIndex(table, key, value)) {
                Some((after, _)) => Some(after),
                None => None,
            }
        }
    }

    /// With a module opened and made global, as Lua code would.
    #[verifier::opaque]
    pub open spec fn with_library(self, lib: Library) -> Option<Machine> {
        let m = self.with_module(lib);
        match m.write(
            globals(),
            Val::String(module_name(self.version, lib)),
            Val::Table(m.modules[lib]),
        ) {
            Some(after) => Some(Machine { opened: after.opened.push(lib), ..after }),
            None => None,
        }
    }

    /// With the module `coroutine`, which is loaded if the version of Lua has it as a module of its
    /// own and it does not count as loaded.
    pub open spec fn with_coroutine(self) -> Option<Machine> {
        if self.version.modern() && !self.libs.has(Library::Coroutine) {
            match self.with_library(Library::Coroutine) {
                Some(after) => Some(
                    Machine {
                        libs: StdLib { bits: self.libs.bits | Library::Coroutine.mask() },
                        ..after
                    },
                ),
                None => None,
            }
        } else {
            Some(self)
        }
    }

    /// The number of the table of globals, where the version of Lua keeps it.
    pub open spec fn found_globals(self) -> Option<nat> {
        if self.version.modern() {
            match field(self.tables[registry()], Val::Integer(LUA_RIDX_GLOBALS)) {
                Val::Table(id) => if self.tables.dom().contains(id) {
                    Some(id)
                } else {
                    None
                },
                _ => None,
            }
        } else {
            Some(globals())
        }
    }

    /// The function `coroutine.yield`, as Lua code would find it.
    pub open spec fn yielding(self) -> Option<(Machine, Val)> {
        match self.found_globals() {
            Some(id) => match self.read(id, Val::String("coroutine".spec_bytes())) {
                Some((m, Val::Table(coroutine))) => if m.tables.dom().contains(coroutine) {
                    match m.read(coroutine, Val::String("yield".spec_bytes())) {
                        Some((after, f)) => if f.kind() == Some(RefKind::Function) {
                            Some((after, f))
                        } else {
                            None
                        },
                        None => None,
                    }
                } else {
                    None
                },
                _ => None,
            },
            None => None,
        }
    }

    /// With the driver of an asynchronous callback on the stack: a chunk with an environment of its
    /// own, both of them new.
    pub open spec fn with_driver(self, c: Callback, f: Val) -> Machine {
        Machine {
            tables: self.tables.insert(
                self.fresh,
                environment_fields(get_poll_function(c), f, self.pending),
            ),
            envs: self.envs.insert(self.fresh + 1, Val::Table(self.fresh)),
            sources: self.sources.insert(self.fresh + 1, driver_text().spec_bytes()),
            fresh: self.fresh + 2,
            ..self.push(Val::Chunk(self.fresh + 1))
        }
    }

    /// With the function that calls an asynchronous callback on the stack: the module `coroutine` is
    /// loaded on demand, and the driver waits with its `yield`.
    #[verifier::opaque]
    pub open spec fn with_async_function(self, c: Callback) -> Option<Machine> {
        let height = self.height();
        let room = (self.world.room)(height, 5) && (self.world.room)(height, 4) && (
        self.world.room)(height, 1);
        match self.with_coroutine() {
            Some(m) => match m.yielding() {
                Some((found, f)) => if room && (self.world.compiles)(
                    driver_text().spec_bytes(),
                    LoadMode::Any,
                ) {
                    Some(found.with_driver(c, f))
                } else {
                    None
                },
                None => None,
            },
            None => None,
        }
    }

    /// With a module opened and set among the globals.
    #[verifier::opaque]
    pub open spec fn with_global_module(self, lib: Library) -> Machine {
        let m = self.with_module(lib);
        m.set(
            globals(),
            Val::String(module_name(self.version, lib)),
            Val::Table(m.modules[lib]),
        )
    }

    /// With the basic functions made global. Before Lua 5.2 the module `coroutine` comes with them.
    #[verifier::opaque]
    pub open spec fn with_base(self) -> Machine {
        let m = Machine {
            tables: self.tables.insert(globals(), with_basics(self.tables[globals()])),
            ..self
        };
        if self.version.modern() {
            m
        } else {
            m.with_global_module(Library::Coroutine)
        }
    }

    /// Number of values on the stack.
    pub open spec fn height(self) -> int {
        self.stack.len() as int
    }

    /// The value on top of the stack.
    pub open spec fn top(self) -> Val {
        self.stack.last()
    }

    /// The value at a place.
    pub open spec fn at(self, index: Index) -> Option<Val> {
        match index {
            Index::FromTop(n) => if 0 < n <= self.height() {
                Some(self.stack[self.height() - n])
            } else {
                None
            },
            Index::Slot(i) => if 0 < i <= self.height() {
                Some(self.stack[i - 1])
            } else {
                None
            },
            Index::Registry => Some(Val::Table(registry())),
            Index::Globals => Some(Val::Table(globals())),
        }
    }

    /// The number of the table at a place.
    pub open spec fn table_at(self, index: Index) -> Option<nat> {
        match self.at(index) {
            Some(Val::Table(id)) => if self.tables.dom().contains(id) {
                Some(id)
            } else {
                None
            },
            _ => None,
        }
    }

    pub open spec fn push(self, value: Val) -> Machine {
        Machine { stack: self.stack.push(value), ..self }
    }

    pub open spec fn pop(self, n: int) -> Machine {
        Machine { stack: self.stack.take(self.height() - n), ..self }
    }

    pub open spec fn set(self, table: nat, key: Val, value: Val) -> Machine {
        Machine {
            tables: self.tables.insert(table, with_field(self.tables[table], key, value)),
            ..self
        }
    }

    /// The registry integer under which the value on top would be put.
    pub open spec fn next_ref(self) -> i32 {
        if self.top() == Val::Nil {
            LUA_REFNIL
        } else {
            choose|id: i32| #[trigger] unused(self.tables[registry()], id)
        }
    }

    /// The optional table in a slot.
    pub open spec fn slot(self, slot: Option<i32>) -> Option<Val> {
        match slot {
            Some(i) => self.at(Index::Slot(i)),
            None => None,
        }
    }

    /// The machine after an instruction; none if it cannot be carried out.
    pub open spec fn step(self, op: Op) -> Option<Machine> {
        match op {
            InstrOf::Fail(_) => None,
            InstrOf::CheckStack(n) => if (self.world.room)(self.height(), n) {
                Some(self)
            } else {
                None
            },
            InstrOf::AssertStack(_) | InstrOf::InitErrorRegistry | InstrOf::InitGcMetatable(_)
            | InstrOf::InitSerdeMetatables => Some(self),
            InstrOf::Gc(what, _) => Some(
                Machine {
                    collecting: if what == LUA_GCSTOP {
                        false
                    } else if what == LUA_GCRESTART {
                        true
                    } else {
                        self.collecting
                    },
                    ..self
                },
            ),
            InstrOf::Pop(n) => if 0 <= n <= self.height() {
                Some(self.pop(n as int))
            } else {
                None
            },
            InstrOf::PushNil => Some(self.push(Val::Nil)),
            InstrOf::PushBoolean(b) => Some(self.push(Val::Boolean(b != 0))),
            InstrOf::PushLightUserData(p) => Some(self.push(Val::LightUserData(p))),
            InstrOf::PushInteger(i) => Some(self.push(Val::Integer(i))),
            InstrOf::PushNumber(n) => Some(self.push(Val::Number(n))),
            InstrOf::PushString(s) => Some(self.push(Val::String(s))),
            InstrOf::PushError(e) => Some(self.push(Val::Error(e))),
            InstrOf::PushThread => Some(self.push(Val::Thread(self.current))),
            InstrOf::PushValue(i) => match self.at(i) {
                Some(v) => Some(self.push(v)),
                None => None,
            },
            InstrOf::PushCFunction(f) => Some(self.push(Val::CFunction(f))),
            InstrOf::PushCallback(c) => if c.kind.asynchronous() {
                self.with_async_function(c)
            } else {
                Some(self.push(callback_function(c)))
            },
            InstrOf::PushBuiltin(b) => Some(self.push(Val::Builtin(b))),
            InstrOf::PushMetaField(f) => match (self.world.meta_field)(f, self.heap()) {
                Some((heap, value)) => Some(self.with_heap(heap).push(value)),
                None => None,
            },
            InstrOf::PushGcUserdata(v) => Some(self.push(Val::Gc(v))),
            InstrOf::PushUserData => Some(
                Machine { fresh: self.fresh + 1, ..self.push(Val::UserData(self.fresh)) },
            ),
            InstrOf::PushRClosure(f, n) => if 0 <= n <= self.height() {
                Some(
                    self.pop(n as int).push(Val::Closure(f, self.stack.skip(self.height() - n))),
                )
            } else {
                None
            },
            InstrOf::RefPushValue(i) => if 0 < i <= self.refs.len() {
                Some(Machine { refs: self.refs.push(self.refs[i - 1]), ..self })
            } else {
                None
            },
            InstrOf::RefToState => if 0 < self.refs.len() {
                Some(Machine { refs: self.refs.drop_last(), ..self.push(self.refs.last()) })
            } else {
                None
            },
            InstrOf::StateToRef => if 0 < self.height() {
                Some(Machine { refs: self.refs.push(self.top()), ..self.pop(1) })
            } else {
                None
            },
            InstrOf::RefPushNil => Some(Machine { refs: self.refs.push(Val::Nil), ..self }),
            InstrOf::RefReplace(i) => if 0 < i < self.refs.len() {
                Some(
                    Machine {
                        refs: self.refs.drop_last().update(i - 1, self.refs.last()),
                        ..self
                    },
                )
            } else {
                None
            },
            InstrOf::RefPop(n) => if 0 <= n <= self.refs.len() {
                Some(Machine { refs: self.refs.take(self.refs.len() - n), ..self })
            } else {
                None
            },
            InstrOf::NewTable | InstrOf::CreateTable(_, _) => Some(
                Machine {
                    tables: self.tables.insert(self.fresh, Map::empty()),
                    fresh: self.fresh + 1,
                    ..self.push(Val::Table(self.fresh))
                },
            ),
            InstrOf::NewThread => Some(
                Machine {
                    threads: self.threads.insert(self.fresh, Seq::empty()),
                    fresh: self.fresh + 1,
                    ..self.push(Val::Thread(self.fresh))
                },
            ),
            InstrOf::MoveToThread(n) => if 0 <= n < self.height() {
                match self.stack[self.height() - n - 1] {
                    Val::Thread(id) => if self.threads.dom().contains(id) {
                        Some(
                            Machine {
                                threads: self.threads.insert(
                                    id,
                                    self.threads[id] + self.stack.skip(self.height() - n),
                                ),
                                ..self.pop(n as int)
                            },
                        )
                    } else {
                        None
                    },
                    _ => None,
                }
            } else {
                None
            },
            InstrOf::RawSet(i) => match self.table_at(i) {
                Some(t) => if 2 <= self.height() {
                    match table_key(self.stack[self.height() - 2]) {
                        Some(key) => Some(self.set(t, key, self.top()).pop(2)),
                        None => None,
                    }
                } else {
                    None
                },
                None => None,
            },
            InstrOf::RawSetI(i, k) => match self.table_at(i) {
                Some(t) => if 1 <= self.height() {
                    Some(self.set(t, Val::Integer(k), self.top()).pop(1))
                } else {
                    None
                },
                None => None,
            },
            InstrOf::RawSetField(i, k) => match self.table_at(i) {
                Some(t) => if 1 <= self.height() {
                    Some(self.set(t, Val::String(k), self.top()).pop(1))
                } else {
                    None
                },
                None => None,
            },
            InstrOf::SetField(i, k) => match self.table_at(i) {
                Some(t) => if 1 <= self.height() {
                    match self.write(t, Val::String(k), self.top()) {
                        Some(after) => Some(after.pop(1)),
                        None => None,
                    }
                } else {
                    None
                },
                None => None,
            },
            InstrOf::RawRemove(i, k) => match self.table_at(i) {
                Some(t) => Some(
                    Machine {
                        tables: self.tables.insert(t, without_element(self.tables[t], k)),
                        ..self
                    },
                ),
                None => None,
            },
            InstrOf::GetField(i, k) => match self.table_at(i) {
                Some(t) => match self.read(t, Val::String(k)) {
                    Some((after, value)) => Some(after.push(value)),
                    None => None,
                },
                None => None,
            },
            InstrOf::Expect(kind) => if 1 <= self.height() && self.top().kind() == Some(kind) {
                Some(self)
            } else {
                None
            },
            InstrOf::RawGet(i) => match self.table_at(i) {
                Some(t) => if 1 <= self.height() {
                    Some(
                        self.pop(1).push(
                            match table_key(self.top()) {
                                Some(key) => field(self.tables[t], key),
                                None => Val::Nil,
                            },
                        ),
                    )
                } else {
                    None
                },
                None => None,
            },
            InstrOf::RawGetI(i, k) => match self.table_at(i) {
                Some(t) => Some(self.push(field(self.tables[t], Val::Integer(k)))),
                None => None,
            },
            InstrOf::RawSetP(k) => if 1 <= self.height() {
                Some(self.set(registry(), Val::Slot(k), self.top()).pop(1))
            } else {
                None
            },
            InstrOf::MakeRef => if 1 <= self.height() {
                let made = Machine { made: self.next_ref(), ..self };
                if self.top() == Val::Nil {
                    Some(made.pop(1))
                } else {
                    Some(
                        made.set(
                            registry(),
                            Val::Integer(self.next_ref() as i64),
                            self.top(),
                        ).pop(1),
                    )
                }
            } else {
                None
            },
            InstrOf::Unref(id) => if id >= 0 {
                Some(self.set(registry(), Val::Integer(id as i64), Val::Nil))
            } else {
                Some(self)
            },
            InstrOf::SetMetatable(i) => match self.at(i) {
                Some(Val::UserData(id)) => if 1 <= self.height() {
                    Some(
                        Machine {
                            metatables: self.metatables.insert(id, self.top()),
                            ..self.pop(1)
                        },
                    )
                } else {
                    None
                },
                _ => None,
            },
            InstrOf::SetUpvalue(i, _) | InstrOf::SetFenv(i) => match self.at(i) {
                Some(Val::Chunk(id)) => if 1 <= self.height() {
                    Some(Machine { envs: self.envs.insert(id, self.top()), ..self.pop(1) })
                } else {
                    None
                },
                _ => None,
            },
            InstrOf::InitUserDataMetatable { metatable, field_getters, field_setters, methods } => {
                match self.at(Index::Slot(metatable)) {
                    Some(mt) => Some(
                        Machine {
                            wirings: self.wirings.push(
                                Wiring {
                                    metatable: mt,
                                    field_getters: self.slot(field_getters),
                                    field_setters: self.slot(field_setters),
                                    methods: self.slot(methods),
                                },
                            ),
                            ..self
                        },
                    ),
                    None => None,
                }
            },
            InstrOf::LoadBuffer { source, mode, .. } => if (self.world.compiles)(source, mode) {
                Some(
                    Machine {
                        sources: self.sources.insert(self.fresh, source),
                        fresh: self.fresh + 1,
                        ..self.push(Val::Chunk(self.fresh))
                    },
                )
            } else {
                None
            },
            InstrOf::ToText => if 1 <= self.height() {
                match self.top() {
                    Val::Integer(_) | Val::Number(_) => Some(
                        self.pop(1).push(Val::String((self.world.numeral)(self.top()))),
                    ),
                    _ => Some(self),
                }
            } else {
                None
            },
            InstrOf::OpenLibrary(lib) => match self.with_library(lib) {
                Some(after) => Some(after.push(Val::Table(self.with_module(lib).modules[lib]))),
                None => None,
            },
            InstrOf::OpenBase => if self.metamethod(globals(), "__newindex".spec_bytes())
                == Val::Nil {
                Some(self.with_base().push(Val::Table(globals())))
            } else {
                match self.called(Access::Basics) {
                    Some((after, _)) => Some(after.push(Val::Table(globals()))),
                    None => None,
                }
            },
        }
    }

    /// The machine after the instructions from position `i` on.
    #[verifier::opaque]
    pub open spec fn run_from(self, code: Seq<Op>, i: int) -> Option<Machine>
        decreases code.len() - i,
    {
        if i >= code.len() {
            Some(self)
        } else {
            match self.step(code[i]) {
                Some(next) => next.run_from(code, i + 1),
                None => None,
            }
        }
    }

    /// The machine after a sequence of instructions; none if one of them cannot be carried out.
    pub open spec fn run(self, code: Seq<Op>) -> Option<Machine> {
        self.run_from(code, 0)
    }
}

/// How many values an instruction takes off the stack.
pub open spec fn pops(op: Op) -> int {
    match op {
        InstrOf::Pop(n) => n as int,
        InstrOf::PushRClosure(_, n) => n as int,
        InstrOf::MoveToThread(n) => n as int,
        InstrOf::StateToRef => 1,
        InstrOf::RawSet(_) => 2,
        InstrOf::RawSetI(_, _) => 1,
        InstrOf::RawSetField(_, _) => 1,
        InstrOf::SetField(_, _) => 1,
        InstrOf::RawGet(_) => 1,
        InstrOf::ToText => 1,
        InstrOf::RawSetP(_) => 1,
        InstrOf::MakeRef => 1,
        InstrOf::SetMetatable(_) => 1,
        InstrOf::SetUpvalue(_, _) => 1,
        InstrOf::SetFenv(_) => 1,
        _ => 0,
    }
}

/// How many values an instruction puts on the stack.
pub open spec fn pushes(op: Op) -> int {
    match op {
        InstrOf::PushNil | InstrOf::PushBoolean(_) | InstrOf::PushLightUserData(_)
        | InstrOf::PushInteger(_) | InstrOf::PushNumber(_) | InstrOf::PushString(_)
        | InstrOf::PushError(_) | InstrOf::PushThread | InstrOf::PushValue(_)
        | InstrOf::PushCFunction(_) | InstrOf::RefToState | InstrOf::NewTable
        | InstrOf::CreateTable(_, _) | InstrOf::NewThread | InstrOf::RawGet(_)
        | InstrOf::RawGetI(_, _) | InstrOf::GetField(_, _) | InstrOf::PushBuiltin(_)
        | InstrOf::PushCallback(_) | InstrOf::PushMetaField(_)
        | InstrOf::PushGcUserdata(_) | InstrOf::PushUserData | InstrOf::PushRClosure(_, _)
        | InstrOf::ToText | InstrOf::LoadBuffer { .. } | InstrOf::OpenLibrary(_) | InstrOf::OpenBase => 1,
        _ => 0,
    }
}

/// How deep below the top an instruction looks.
pub open spec fn reach(op: Op) -> int {
    match op {
        InstrOf::PushValue(Index::FromTop(n)) => n as int,
        InstrOf::RawSet(Index::FromTop(n)) => n as int,
        InstrOf::RawSetI(Index::FromTop(n), _) => n as int,
        InstrOf::RawSetField(Index::FromTop(n), _) => n as int,
        InstrOf::RawRemove(Index::FromTop(n), _) => n as int,
        InstrOf::SetField(Index::FromTop(n), _) => n as int,
        InstrOf::GetField(Index::FromTop(n), _) => n as int,
        InstrOf::Expect(_) => 1,
        InstrOf::RawGet(Index::FromTop(n)) => n as int,
        InstrOf::RawGetI(Index::FromTop(n), _) => n as int,
        InstrOf::SetMetatable(Index::FromTop(n)) => n as int,
        InstrOf::SetUpvalue(Index::FromTop(n), _) => n as int,
        InstrOf::SetFenv(Index::FromTop(n)) => n as int,
        InstrOf::MoveToThread(n) => n + 1,
        _ => 0,
    }
}

/// Height of the values that instructions from position `i` on leave above the `depth` values that
/// they start with.
pub open spec fn depth_after(code: Seq<Op>, i: int, depth: int) -> int
    decreases code.len() - i,
{
    if i >= code.len() {
        depth
    } else {
        depth_after(code, i + 1, depth - pops(code[i]) + pushes(code[i]))
    }
}

/// The instructions from position `i` on neither take nor look at anything below the `depth` values
/// that they start with.
pub open spec fn in_frame(code: Seq<Op>, i: int, depth: int) -> bool
    decreases code.len() - i,
{
    i >= code.len() || {
        &&& 0 <= pops(code[i]) <= depth
        &&& reach(code[i]) <= depth
        &&& in_frame(code, i + 1, depth - pops(code[i]) + pushes(code[i]))
    }
}

/// How many values an outcome needs on the stack.
pub open spec fn outcome_needs(outcome: Outcome) -> int {
    match outcome {
        Outcome::Unit | Outcome::RegistryId => 0,
        _ => 1,
    }
}

impl PlanView {
    /// The plan works on values of its own only and leaves what its outcome needs.
    pub open spec fn sound(self) -> bool {
        &&& in_frame(self.steps, 0, 0)
        &&& depth_after(self.steps, 0, 0) >= outcome_needs(self.outcome)
    }
}

proof fn lemma_opening_keeps_the_stack(m: Machine, lib: Library)
    ensures
        m.with_base().stack == m.stack,
        m.with_library(lib) matches Some(after) ==> after.stack == m.stack,
{
    reveal(Machine::with_global_module);
    reveal(Machine::with_base);
    reveal(Machine::with_library);
    reveal(Machine::called);
}

proof fn lemma_async_function_is_pushed(m: Machine, c: Callback)
    requires
        m.with_async_function(c) is Some,
    ensures
        m.with_async_function(c)->0.height() == m.height() + 1,
        m.with_async_function(c)->0.stack.drop_last() == m.stack,
{
    reveal(Machine::with_async_function);
    reveal(Machine::called);
    lemma_opening_keeps_the_stack(m, Library::Coroutine);
    let loaded = m.with_coroutine()->0;
    let (found, f) = loaded.yielding()->0;
    assert(found.stack == m.stack);
    assert(m.stack.push(Val::Chunk(found.fresh + 1)).drop_last() =~= m.stack);
}

/// An instruction that stays within `depth` values leaves everything below them alone.
pub proof fn lemma_step_keeps_frame(m: Machine, op: Op, depth: int)
    requires
        0 <= pops(op) <= depth <= m.height(),
        m.step(op) is Some,
    ensures
        m.step(op)->0.height() == m.height() - pops(op) + pushes(op),
        m.step(op)->0.stack.take(m.height() - depth) == m.stack.take(m.height() - depth),
{
    reveal(Machine::called);
    let next = m.step(op)->0;
    match op {
        InstrOf::PushCallback(c) => if c.kind.asynchronous() {
            lemma_async_function_is_pushed(m, c);
            assert(next.stack =~= m.stack.push(next.top()));
        },
        InstrOf::OpenLibrary(lib) => lemma_opening_keeps_the_stack(m, lib),
        InstrOf::OpenBase => lemma_opening_keeps_the_stack(m, Library::Coroutine),
        _ => {},
    }
    assert(next.stack.take(m.height() - depth) =~= m.stack.take(m.height() - depth));
}

/// An instruction that can be carried out leads on to the next one.
pub proof fn lemma_next(m: Machine, code: Seq<Op>, i: int, next: Machine)
    requires
        0 <= i < code.len(),
        m.step(code[i]) == Some(next),
    ensures
        m.run_from(code, i) == next.run_from(code, i + 1),
{
    reveal(Machine::run_from);
}

/// Past the last instruction nothing is left to be done.
pub proof fn lemma_done(m: Machine, code: Seq<Op>, i: int)
    requires
        code.len() <= i,
    ensures
        m.run_from(code, i) == Some(m),
{
    reveal(Machine::run_from);
}

/// A single instruction that can be carried out.
pub proof fn lemma_single(m: Machine, op: Op, next: Machine)
    requires
        m.step(op) == Some(next),
    ensures
        m.run(seq![op]) == Some(next),
{
    lemma_next(m, seq![op], 0, next);
    lemma_done(next, seq![op], 1);
}

/// Two instructions that can be carried out.
pub proof fn lemma_pair(m: Machine, code: Seq<Op>, mid: Machine, end: Machine)
    requires
        code.len() == 2,
        m.step(code[0]) == Some(mid),
        mid.step(code[1]) == Some(end),
    ensures
        m.run(code) == Some(end),
{
    lemma_next(m, code, 0, mid);
    lemma_next(mid, code, 1, end);
    lemma_done(end, code, 2);
}

/// Running a sequence and then another is running their concatenation.
pub proof fn lemma_run_concat(m: Machine, a: Seq<Op>, b: Seq<Op>)
    ensures
        m.run(a + b) == match m.run(a) {
            Some(mid) => mid.run(b),
            None => None,
        },
{
    lemma_run_concat_from(m, a, b, 0);
}

proof fn lemma_run_concat_from(m: Machine, a: Seq<Op>, b: Seq<Op>, i: int)
    requires
        0 <= i <= a.len(),
    ensures
        m.run_from(a + b, i) == match m.run_from(a, i) {
            Some(mid) => mid.run(b),
            None => None,
        },
    decreases a.len() - i,
{
    reveal(Machine::run_from);
    if i == a.len() {
        lemma_run_shift(m, a, b, 0);
    } else {
        assert((a + b)[i] == a[i]);
        match m.step(a[i]) {
            Some(next) => {
                lemma_run_concat_from(next, a, b, i + 1);
            },
            None => {},
        }
    }
}

proof fn lemma_run_shift(m: Machine, a: Seq<Op>, b: Seq<Op>, i: int)
    requires
        0 <= i <= b.len(),
    ensures
        m.run_from(a + b, a.len() + i) == m.run_from(b, i),
    decreases b.len() - i,
{
    reveal(Machine::run_from);
    if i < b.len() {
        assert((a + b)[a.len() + i] == b[i]);
        match m.step(b[i]) {
            Some(next) => {
                lemma_run_shift(next, a, b, i + 1);
            },
            None => {},
        }
    }
}

/// However far a plan that works in its own frame gets, the values that were on the stack before
/// it are still there, in place: taking off what lies above them restores the stack.
pub proof fn law_stack_below_is_untouched(m: Machine, code: Seq<Op>, done: int)
    requires
        in_frame(code, 0, 0),
        0 <= done <= code.len(),
        m.run(code.take(done)) is Some,
    ensures
        m.run(code.take(done))->0.height() >= m.height(),
        m.run(code.take(done))->0.stack.take(m.height()) == m.stack,
{
    assert(m.stack.take(m.height()) =~= m.stack);
    lemma_frame(m, m.stack, code, 0, done, 0);
}

proof fn lemma_frame(m: Machine, base: Seq<Val>, code: Seq<Op>, i: int, done: int, depth: int)
    requires
        0 <= i <= done <= code.len(),
        in_frame(code, i, depth),
        0 <= depth,
        m.height() == base.len() + depth,
        m.stack.take(base.len() as int) == base,
        m.run_from(code.take(done), i) is Some,
    ensures
        m.run_from(code.take(done), i)->0.height() >= base.len(),
        m.run_from(code.take(done), i)->0.stack.take(base.len() as int) == base,
    decreases done - i,
{
    reveal(Machine::run_from);
    let part = code.take(done);
    if i < done {
        assert(part[i] == code[i]);
        let op = code[i];
        let next = m.step(op)->0;
        lemma_step_keeps_frame(m, op, depth);
        assert(next.stack.take(base.len() as int) =~= base);
        lemma_frame(next, base, code, i + 1, done, depth - pops(op) + pushes(op));
    }
}

} // verus!
