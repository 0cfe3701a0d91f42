//! What making an asynchronous function achieves, all parts of the work taken together.

use vstd::prelude::*;
use vstd::string::*;

use crate::asynchronous::{
    driver_chunk, driver_text, environment_fields, environment_plan, get_poll_function,
    get_poll_plan, law_async_environment, law_driver_is_accepted, law_get_poll_function,
    law_yield_function, yield_plan,
};
use crate::chunk::{law_loaded_chunk, load_chunk_plan, with_chunk};
use crate::construct::{load_plan, open_ops};
use crate::create::holding;
use crate::ending::{lemma_made, room_fits, Ended, Given, Room};
use crate::frame::{
    law_load_chunk_is_sound, law_simple_plans_are_sound, law_table_plans_are_sound,
};
use crate::lua::Lua;
use crate::machine::{
    field, globals, lemma_done, lemma_next, registry, Builtin, CFunction, Callback, GcValue,
    LoadMode, Machine, Op, Val,
};
use crate::refs::RefSlots;
use crate::script::{driver, law_driver, law_driver_text, truthy, value_at, waited, Answers, Made};
use crate::stack::{denoted, slots_match};
use crate::startup::{globals_found, is_global, is_stock, lemma_library, opened_from};
use crate::stdlib::{load_order, module_name, selected, Library, StdLib};
use crate::text::lemma_bytes_tell_texts_apart;
use crate::value::{LuaRef, RefKind, Value};
use crate::version::Version;

verus! {

/// The handle that a plan gave.
pub open spec fn handle_of(extra: u64, ended: Ended) -> LuaRef {
    LuaRef { extra, index: ended.given->Handle_0 }
}

/// The parts of the making of an asynchronous function, each at its end: the function that starts
/// the future, `coroutine.yield`, the environment of the driver, and the driver.
pub struct AsyncParts {
    pub get_poll: Ended,
    pub yielding: Ended,
    pub env: Ended,
    pub driver: Ended,
}

/// The parts, made one after another.
pub open spec fn async_parts(
    m: Machine,
    lua: Lua,
    c: Callback,
    slots: RefSlots,
    rooms: (Room, Room, Room, Room),
) -> AsyncParts {
    let get_poll = get_poll_plan(c).end(m, slots, rooms.0);
    let yielding = yield_plan(lua.version).end(get_poll.machine, get_poll.slots, rooms.1);
    let env = environment_plan(
        handle_of(lua.extra, get_poll),
        handle_of(lua.extra, yielding),
        m.pending,
    ).end(yielding.machine, yielding.slots, rooms.2);
    let driver = load_chunk_plan(driver_chunk(lua, handle_of(lua.extra, env))).end(
        env.machine,
        env.slots,
        rooms.3,
    );
    AsyncParts { get_poll, yielding, env, driver }
}

impl AsyncParts {
    /// Lua grants no room that could not be counted.
    pub open spec fn fit(self, slots: RefSlots, rooms: (Room, Room, Room, Room)) -> bool {
        &&& room_fits(slots, rooms.0)
        &&& room_fits(self.get_poll.slots, rooms.1)
        &&& room_fits(self.yielding.slots, rooms.2)
        &&& room_fits(self.env.slots, rooms.3)
    }

    /// There was a slot for each part but the last.
    pub open spec fn pinned(self) -> bool {
        self.get_poll.given is Handle && self.yielding.given is Handle && self.env.given is Handle
    }
}

/// The table that the global `coroutine` is.
pub open spec fn coroutine_table(m: Machine) -> nat {
    field(m.tables[globals()], Val::String("coroutine".spec_bytes()))->Table_0
}

/// The function `yield` of the global table `coroutine`.
pub open spec fn yield_function(m: Machine) -> Val {
    field(m.tables[coroutine_table(m)], Val::String("yield".spec_bytes()))
}

/// The global `coroutine` is a table with a function `yield`.
pub open spec fn coroutine_found(m: Machine) -> bool {
    &&& field(m.tables[globals()], Val::String("coroutine".spec_bytes())) is Table
    &&& m.tables.dom().contains(coroutine_table(m))
    &&& yield_function(m).kind() == Some(RefKind::Function)
}

/// Whether the module `coroutine` is loaded for an asynchronous function.
pub open spec fn loads_coroutine(m: Machine) -> bool {
    m.version.modern() && !m.libs.has(Library::Coroutine)
}

/// Asynchronous functions can be made: there is room, the driver compiles, and the function `yield`
/// of the module `coroutine` is found or, if the module is loaded on demand, will be. No metamethod
/// comes in.
pub open spec fn async_ready(m: Machine) -> bool {
    &&& globals_found(m, m.version)
    &&& m.roomy()
    &&& (m.world.compiles)(driver_text().spec_bytes(), LoadMode::Any)
    &&& if loads_coroutine(m) {
        &&& m.writes_plainly(globals(), Val::String("coroutine".spec_bytes()))
        &&& m.modules.dom().contains(Library::Coroutine) ==> field(
            m.tables[m.modules[Library::Coroutine]],
            Val::String("yield".spec_bytes()),
        ).kind() == Some(RefKind::Function)
    } else {
        coroutine_found(m)
    }
}

/// The function `yield` that asynchronous functions wait with.
pub open spec fn awaited(m: Machine) -> Val {
    if loads_coroutine(m) {
        if m.modules.dom().contains(Library::Coroutine) {
            field(
                m.tables[m.modules[Library::Coroutine]],
                Val::String("yield".spec_bytes()),
            )
        } else {
            Val::Stock(Library::Coroutine, "yield".spec_bytes())
        }
    } else {
        yield_function(m)
    }
}

proof fn lemma_first_parts(
    m: Machine,
    lua: Lua,
    c: Callback,
    slots: RefSlots,
    rooms: (Room, Room, Room, Room),
)
    requires
        m.roomy(),
        globals_found(m, lua.version),
        coroutine_found(m),
        slots.wf(),
        slots_match(m, slots),
        async_parts(m, lua, c, slots, rooms).fit(slots, rooms),
        async_parts(m, lua, c, slots, rooms).pinned(),
    ensures
        ({
            let parts = async_parts(m, lua, c, slots, rooms);
            let (g, y) = (parts.get_poll.given->Handle_0, parts.yielding.given->Handle_0);
            let (after, held) = (parts.yielding.machine, parts.yielding.slots);
            &&& after == (Machine { refs: after.refs, ..m })
            &&& held.wf()
            &&& slots_match(after, held)
            &&& 0 < g <= after.refs.len()
            &&& after.refs[g - 1] == get_poll_function(c)
            &&& 0 < y <= after.refs.len()
            &&& after.refs[y - 1] == yield_function(m)
            &&& forall|i: i32| #[trigger]
                slots.live(i) ==> held.live(i) && after.refs[i - 1] == m.refs[i - 1]
        }),
{
    let parts = async_parts(m, lua, c, slots, rooms);
    let version = lua.version;
    let (g, y) = (parts.get_poll, parts.yielding);
    law_get_poll_function(m, c);
    law_simple_plans_are_sound(Seq::empty(), 0, 0, version, handle_of(lua.extra, g), c);
    lemma_made(m, get_poll_plan(c), slots, rooms.0, m.push(get_poll_function(c)));
    let coroutine = coroutine_table(m);
    law_yield_function(g.machine, version, coroutine);
    let found = g.machine.push(Val::Table(globals())).push(Val::Table(coroutine)).push(
        yield_function(m),
    );
    lemma_made(g.machine, yield_plan(version), g.slots, rooms.1, found);
    assert(g.slots.live(g.given->Handle_0));
    assert forall|i: i32| #[trigger] slots.live(i) implies y.slots.live(i)
        && y.machine.refs[i - 1] == m.refs[i - 1] by {
        assert(g.slots.live(i));
    }
}

/// The parts of an asynchronous function end in the driver: a new function whose environment, a new
/// table, holds the function made of the callback and `coroutine.yield`. The stack is that of
/// before, and so is everything else but the reference thread, where what handles stand for stays.
/// Each part is made as long as there are slots for the ones before it.
pub proof fn law_async_function(
    m: Machine,
    lua: Lua,
    c: Callback,
    slots: RefSlots,
    rooms: (Room, Room, Room, Room),
)
    requires
        m.roomy(),
        globals_found(m, lua.version),
        coroutine_found(m),
        (m.world.compiles)(driver_text().spec_bytes(), LoadMode::Any),
        slots.wf(),
        slots_match(m, slots),
        async_parts(m, lua, c, slots, rooms).fit(slots, rooms),
        async_parts(m, lua, c, slots, rooms).pinned(),
    ensures
        ({
            let parts = async_parts(m, lua, c, slots, rooms);
            let after = parts.driver.machine;
            &&& parts.driver.given is Handle || parts.driver.given is Exhausted
            &&& parts.driver.given matches Given::Handle(index) ==> after.refs[index - 1]
                == Val::Chunk(m.fresh + 1)
            &&& after == (Machine {
                stack: m.stack,
                refs: after.refs,
                ..m.with_driver(c, yield_function(m))
            })
            &&& forall|i: i32| #[trigger]
                slots.live(i) ==> after.refs[i - 1] == m.refs[i - 1]
        }),
{
    let parts = async_parts(m, lua, c, slots, rooms);
    let (g, y, e) = (parts.get_poll, parts.yielding, parts.env);
    lemma_first_parts(m, lua, c, slots, rooms);
    let (gr, yr) = (handle_of(lua.extra, g), handle_of(lua.extra, y));
    law_async_environment(y.machine, gr, yr, m.pending);
    law_table_plans_are_sound(0, Seq::empty(), Seq::empty(), gr, yr, m.pending);
    let fields = environment_fields(get_poll_function(c), yield_function(m), m.pending);
    lemma_made(
        y.machine,
        environment_plan(gr, yr, m.pending),
        y.slots,
        rooms.2,
        holding(y.machine, fields),
    );
    let er = handle_of(lua.extra, e);
    let chunk = driver_chunk(lua, er);
    law_driver_is_accepted(lua, er);
    law_load_chunk_is_sound(chunk);
    law_loaded_chunk(e.machine, chunk);
    assert(denoted(e.machine, Value::Table(er)) == Val::Table(m.fresh));
    lemma_made(
        e.machine,
        load_chunk_plan(chunk),
        e.slots,
        rooms.3,
        with_chunk(e.machine, chunk),
    );
    assert(parts.driver.machine.tables =~= m.with_driver(c, yield_function(m)).tables);
    assert forall|i: i32| #[trigger] slots.live(i) implies parts.driver.machine.refs[i - 1]
        == m.refs[i - 1] by {
        assert(y.slots.live(i) && e.slots.live(i));
    }
}

/// The machine on which the parts of an asynchronous function are made: the module `coroutine` is
/// loaded before, if it has to be, and counts as loaded from then on.
pub open spec fn demanded(m: Machine) -> Machine {
    let libs = StdLib { bits: Library::Coroutine.mask() };
    if loads_coroutine(m) {
        Machine {
            libs: StdLib { bits: m.libs.bits | libs.bits },
            ..m.run(load_plan(m.version, libs).steps)->0
        }
    } else {
        m
    }
}

proof fn lemma_load_coroutine(m: Machine)
    requires
        m.version.modern(),
    ensures
        m.run(
            load_plan(m.version, StdLib { bits: Library::Coroutine.mask() }).steps,
        ) == m.with_library(Library::Coroutine),
{
    let code = load_plan(m.version, StdLib { bits: Library::Coroutine.mask() }).steps;
    let one = seq![Library::Coroutine];
    lemma_only_coroutine(m.version);
    assert(one.drop_last() =~= Seq::<Library>::empty());
    assert(one.last() == Library::Coroutine);
    reveal_with_fuel(open_ops, 2);
    assert(code =~= seq![Op::OpenLibrary(Library::Coroutine), Op::Pop(1)]);
    match m.with_library(Library::Coroutine) {
        Some(after) => {
            let pushed = m.step(code[0])->0;
            lemma_next(m, code, 0, pushed);
            assert(pushed.stack.take(pushed.height() - 1) =~= after.stack);
            lemma_next(pushed, code, 1, after);
            lemma_done(after, code, 2);
        },
        None => {
            reveal(Machine::run_from);
        },
    }
}

/// Where the module `coroutine` is loaded on demand it becomes global, and no other module does, so
/// that the parts of an asynchronous function can be made.
pub proof fn law_coroutine_is_loaded_on_demand(m: Machine)
    requires
        async_ready(m),
    ensures
        m.with_coroutine() == Some(demanded(m)),
        async_ready(demanded(m)),
        coroutine_found(demanded(m)),
        yield_function(demanded(m)) == awaited(m),
        !loads_coroutine(demanded(m)),
        if loads_coroutine(m) {
            opened_from(
                Machine { libs: demanded(m).libs, ..m },
                demanded(m),
                seq![Library::Coroutine],
            )
        } else {
            demanded(m) == m
        },
{
    if loads_coroutine(m) {
        let one = seq![Library::Coroutine];
        assert(one[0] == Library::Coroutine);
        assert(one.contains(Library::Coroutine));
        assert(module_name(m.version, Library::Coroutine) == "coroutine".spec_bytes());
        lemma_load_coroutine(m);
        lemma_library(m, m.version, Library::Coroutine);
        let opened = m.with_library(Library::Coroutine)->0;
        let after = demanded(m);
        lemma_libs_opened(m, opened, after.libs);
        assert(is_global(opened, Library::Coroutine));
        if !m.modules.dom().contains(Library::Coroutine) {
            assert(is_stock(opened, Library::Coroutine));
        } else {
            assert(m.tables.dom().contains(m.modules[Library::Coroutine]));
        }
        let bits = m.libs.bits;
        assert((bits | 1u32) & 1u32 != 0) by (bit_vector);
    }
}

proof fn lemma_libs_opened(m: Machine, after: Machine, libs: StdLib)
    requires
        opened_from(m, after, seq![Library::Coroutine]),
    ensures
        opened_from(
            Machine { libs, ..m },
            Machine { libs, ..after },
            seq![Library::Coroutine],
        ),
{
    let one = seq![Library::Coroutine];
    let end = Machine { libs, ..after };
    assert forall|lib: Library| #[trigger] one.contains(lib) implies is_global(end, lib) by {
        assert(is_global(after, lib));
    }
    assert forall|lib: Library| #[trigger]
        end.modules.dom().contains(lib) && !m.modules.dom().contains(lib) implies one.contains(lib)
        && m.fresh <= end.modules[lib] && is_stock(end, lib) by {
        assert(is_stock(after, lib));
    }
}

/// Pushing an asynchronous callback, as it is done to fill a table of methods, pushes the function
/// that its parts end in: the module `coroutine` is loaded if it has to be, the driver and its
/// environment are new, and nothing else has changed.
pub proof fn law_async_callback_is_pushed(m: Machine, c: Callback)
    requires
        async_ready(m),
        c.kind.asynchronous(),
    ensures
        m.step(Op::PushCallback(c)) == Some(
            demanded(m).with_driver(c, awaited(m)),
        ),
{
    reveal(Machine::with_async_function);
    law_coroutine_is_loaded_on_demand(m);
    let loaded = demanded(m);
    assert(loaded.yielding() == Some((loaded, yield_function(loaded))));
}

/// The calls that an asynchronous function has made once its callback was started on its arguments
/// and the future was polled `n` times in vain: each time the function has waited.
pub open spec fn waiting(m: Machine, c: Callback, args: Seq<Val>, poll: Val, n: nat) -> Seq<Made> {
    waited(
        seq![
            Made {
                function: Val::Closure(
                    CFunction::CallAsyncCallback,
                    seq![Val::Gc(GcValue::AsyncCallback(c)), Val::Gc(GcValue::Lua)],
                ),
                args,
            },
        ],
        poll,
        yield_function(m),
        Val::LightUserData(m.pending),
        n,
    )
}

/// The function that was made of an asynchronous callback, called with any arguments, starts the
/// callback on exactly these arguments. It then calls the function that this gives until the first
/// result is neither nil nor false, waits with `coroutine.yield` and the mark for pending futures
/// after each time that it is not, and returns what the function `unpack` makes of the second and the
/// third result.
pub proof fn law_async_function_is_called(
    m: Machine,
    lua: Lua,
    c: Callback,
    slots: RefSlots,
    rooms: (Room, Room, Room, Room),
    args: Seq<Val>,
    answers: Answers,
    n: nat,
)
    requires
        m.roomy(),
        globals_found(m, lua.version),
        coroutine_found(m),
        (m.world.compiles)(driver_text().spec_bytes(), LoadMode::Any),
        slots.wf(),
        slots_match(m, slots),
        async_parts(m, lua, c, slots, rooms).fit(slots, rooms),
        async_parts(m, lua, c, slots, rooms).pinned(),
        ({
            let poll = value_at(answers(waiting(m, c, args, Val::Nil, 0)), 0);
            forall|k: nat|
                k <= n ==> truthy(
                    value_at(
                        answers(
                            (#[trigger] waiting(m, c, args, poll, k)).push(
                                Made { function: poll, args: Seq::empty() },
                            ),
                        ),
                        0,
                    ),
                ) == (k == n)
        }),
    ensures
        ({
            let after = async_parts(m, lua, c, slots, rooms).driver.machine;
            &&& async_parts(m, lua, c, slots, rooms).driver.given matches Given::Handle(index)
                ==> after.refs[index - 1] == Val::Chunk(m.fresh + 1)
            &&& driver().is_source(after.sources[m.fresh + 1])
            &&& after.envs[m.fresh + 1] == Val::Table(m.fresh)
            &&& driver().called(after.tables[m.fresh], args, n + 1, answers) == ({
                let poll = value_at(answers(waiting(m, c, args, Val::Nil, 0)), 0);
                let polled = waiting(m, c, args, poll, n).push(
                    Made { function: poll, args: Seq::empty() },
                );
                let answer = answers(polled);
                let last = polled.push(
                    Made {
                        function: Val::Builtin(Builtin::Unpack),
                        args: seq![value_at(answer, 1), value_at(answer, 2)],
                    },
                );
                (last, Some(answers(last)))
            })
        }),
{
    law_async_function(m, lua, c, slots, rooms);
    law_driver_text();
    let env = environment_fields(get_poll_function(c), yield_function(m), m.pending);
    let after = async_parts(m, lua, c, slots, rooms).driver.machine;
    assert(after.tables[m.fresh] == env);
    lemma_environment(get_poll_function(c), yield_function(m), m.pending);
    let poll = value_at(answers(waiting(m, c, args, Val::Nil, 0)), 0);
    let begun = seq![Made { function: get_poll_function(c), args }];
    let pending = Val::LightUserData(m.pending);
    assert forall|k: nat| k <= n implies truthy(
        value_at(
            answers(
                (#[trigger] waited(begun, poll, yield_function(m), pending, k)).push(
                    Made { function: poll, args: Seq::empty() },
                ),
            ),
            0,
        ),
    ) == (k == n) by {
        assert(waiting(m, c, args, poll, k) == waited(begun, poll, yield_function(m), pending, k));
    }
    law_driver(env, args, answers, n);
}

/// What the driver finds in its environment under each name.
pub proof fn lemma_environment(get_poll: Val, yielding: Val, pending: u64)
    ensures
        ({
            let env = environment_fields(get_poll, yielding, pending);
            &&& field(env, Val::String("get_poll".spec_bytes())) == get_poll
            &&& field(env, Val::String("yield".spec_bytes())) == yielding
            &&& field(env, Val::String("unpack".spec_bytes())) == Val::Builtin(Builtin::Unpack)
            &&& field(env, Val::String("pending".spec_bytes())) == Val::LightUserData(pending)
        }),
{
    reveal_strlit("get_poll");
    reveal_strlit("yield");
    reveal_strlit("unpack");
    reveal_strlit("pending");
    lemma_bytes_tell_texts_apart("get_poll", "yield");
    lemma_bytes_tell_texts_apart("get_poll", "unpack");
    lemma_bytes_tell_texts_apart("get_poll", "pending");
    lemma_bytes_tell_texts_apart("yield", "unpack");
    lemma_bytes_tell_texts_apart("yield", "pending");
    lemma_bytes_tell_texts_apart("unpack", "pending");
    assert("get_poll"@.len() == 8 && "yield"@.len() == 5);
    assert("unpack"@.len() == 6 && "pending"@.len() == 7);
}

/// The function that pushing an asynchronous callback pushes is the one that the work for the
/// callback makes, part by part: the machine is the same, but for the reference thread.
pub proof fn law_async_function_on_demand(
    m: Machine,
    lua: Lua,
    c: Callback,
    slots: RefSlots,
    rooms: (Room, Room, Room, Room),
)
    requires
        async_ready(m),
        lua.version == m.version,
        c.kind.asynchronous(),
        slots.wf(),
        slots_match(m, slots),
        async_parts(demanded(m), lua, c, slots, rooms).fit(slots, rooms),
        async_parts(demanded(m), lua, c, slots, rooms).pinned(),
    ensures
        ({
            let driver = async_parts(demanded(m), lua, c, slots, rooms).driver;
            let after = driver.machine;
            &&& driver.given is Handle || driver.given is Exhausted
            &&& after.stack == m.stack
            &&& driver.given matches Given::Handle(index) ==> m.step(Op::PushCallback(c)) == Some(
                Machine { refs: m.refs, ..after.push(after.refs[index - 1]) },
            )
            &&& forall|i: i32| #[trigger]
                slots.live(i) ==> after.refs[i - 1] == m.refs[i - 1]
        }),
{
    law_coroutine_is_loaded_on_demand(m);
    law_async_callback_is_pushed(m, c);
    law_async_function(demanded(m), lua, c, slots, rooms);
}

/// A table that has nothing to do with making asynchronous functions.
pub open spec fn apart(m: Machine, t: nat) -> bool {
    &&& 1 < t
    &&& forall|id: nat| #[trigger]
        m.metatables.dom().contains(id) ==> m.metatables[id] != Val::Table(t)
    &&& forall|lib: Library| #[trigger] m.modules.dom().contains(lib) ==> m.modules[lib] != t
    &&& !loads_coroutine(m) ==> field(
        m.tables[globals()],
        Val::String("coroutine".spec_bytes()),
    ) != Val::Table(t)
}

/// Asynchronous functions can be made while a table is filled.
pub open spec fn ready_beside(m: Machine, t: nat) -> bool {
    async_ready(m) && apart(m, t)
}

/// Asynchronous functions can still be made, and wait with the same function, after a table that has
/// nothing to do with it was made or changed.
pub proof fn lemma_ready_stays(m: Machine, after: Machine, t: nat)
    requires
        async_ready(m),
        !m.tables.dom().contains(t) || apart(m, t),
        after.sane(),
        after.version == m.version,
        after.world == m.world,
        after.libs == m.libs,
        after.modules == m.modules,
        after.metatables == m.metatables,
        forall|id: nat| #[trigger]
            m.tables.dom().contains(id) && id != t ==> after.tables.dom().contains(id)
                && after.tables[id] == m.tables[id],
    ensures
        async_ready(after),
        awaited(after) == awaited(m),
        apart(m, t) ==> apart(after, t),
{
    assert(m.tables.dom().contains(registry()) && m.tables.dom().contains(globals()));
    if m.metatables.dom().contains(globals()) {
        match m.metatables[globals()] {
            Val::Table(mt) => assert(m.tables.dom().contains(mt) && mt != t),
            _ => {},
        }
    }
    if loads_coroutine(m) {
        if m.modules.dom().contains(Library::Coroutine) {
            assert(m.tables.dom().contains(m.modules[Library::Coroutine]));
        }
    } else {
        assert(m.tables.dom().contains(coroutine_table(m)));
    }
}

proof fn lemma_only_coroutine(version: Version)
    requires
        version.modern(),
    ensures
        selected(version, StdLib { bits: Library::Coroutine.mask() }) == seq![Library::Coroutine],
{
    let libs = StdLib { bits: Library::Coroutine.mask() };
    let wanted = |lib: Library| libs.has(lib);
    let order = load_order(version);
    assert(1u32 & 1u32 == 1 && 1u32 & 2u32 == 0 && 1u32 & 4u32 == 0 && 1u32 & 8u32 == 0 && 1u32
        & 16u32 == 0 && 1u32 & 32u32 == 0 && 1u32 & 64u32 == 0 && 1u32 & 128u32 == 0 && 1u32
        & 256u32 == 0 && 1u32 & 0x8000_0000u32 == 0) by (bit_vector);
    assert(wanted(order[0]));
    assert forall|i: int| 1 <= i < order.len() implies !wanted(#[trigger] order[i]) by {}
    lemma_first_only(order, wanted, order.len() as int);
    assert(order.take(order.len() as int) =~= order);
}

proof fn lemma_first_only(order: Seq<Library>, wanted: spec_fn(Library) -> bool, n: int)
    requires
        1 <= n <= order.len(),
        wanted(order[0]),
        forall|i: int| 1 <= i < order.len() ==> !wanted(#[trigger] order[i]),
    ensures
        order.take(n).filter(wanted) == seq![order[0]],
    decreases n,
{
    reveal(Seq::filter);
    let part = order.take(n);
    assert(part.drop_last() =~= order.take(n - 1));
    assert(part.last() == order[n - 1]);
    if n == 1 {
        assert(part.drop_last() =~= Seq::empty());
        assert(part.filter(wanted) =~= seq![order[0]]);
    } else {
        lemma_first_only(order, wanted, n - 1);
    }
}

} // verus!
