//! What the plans of the library give, as a whole.

use vstd::prelude::*;

use crate::asynchronous::get_poll_plan;
use crate::callback::callback_plan;
use crate::chunk::{law_loaded_chunk, load_chunk_plan, ChunkView};
use crate::construct::{
    base_plan, disable_plan, load_plan, options_plan, prepare_plan, store_plan, Features,
};
use crate::create::{
    capacity_plan, current_thread_plan, entries_fit, fields_of, globals_plan, law_globals,
    law_sequence_from, law_table_from, law_thread_has_its_function, sequence_of, sequence_plan,
    string_plan, table_from_plan, table_plan, thread_plan, to_number_plan, to_string_plan,
};
use crate::driver::async_ready;
use crate::ending::{
    hands_out, law_guarded_plan_restores_the_stack, lemma_ends, lemma_hands_out, room_fits, Ended,
    Given, Room,
};
use crate::frame::{
    law_construction_is_sound, law_load_chunk_is_sound, law_simple_plans_are_sound,
    law_table_plans_are_sound, law_userdata_is_sound, law_value_plans_are_sound,
};
use crate::machine::{
    field, lemma_done, lemma_next, lemma_pair, lemma_run_concat, lemma_single, with_field,
    CFunction, Callback, GcValue, Index, Machine, Op, Outcome, PlanView, Val,
};
use crate::metatable::{
    all_computable, law_metatable, meta_fillings, metatable_plan, registered_plan, unrestricted,
    userdata_plan, wants_async,
};
use crate::refs::RefSlots;
use crate::registry::{
    create_value_plan, created_id, law_get_named, law_registry_value_round_trip, law_set_named,
    named_plan, remove_plan, set_named_plan, value_plan,
};
use crate::stack::{denoted, law_push_value, push_ops, pushable, slots_match};
use crate::startup::globals_found;
use crate::stdlib::StdLib;
use crate::userdata::{FieldsView, MethodsView};
use crate::value::{LuaRef, RefKind, Value};
use crate::version::Version;

verus! {

/// A string is created with the bytes that it was given.
pub proof fn law_created_string(m: Machine, s: Seq<u8>, slots: RefSlots, has_room: Room)
    requires
        m.roomy(),
        slots.wf(),
        slots_match(m, slots),
        room_fits(slots, has_room),
    ensures
        hands_out(
            string_plan(s),
            Outcome::Reference(RefKind::String),
            m,
            slots,
            has_room,
            m.push(Val::String(s)),
        ),
{
    lemma_pair(m, string_plan(s).steps, m, m.push(Val::String(s)));
    law_simple_plans_are_sound(s, 0, 0, arbitrary(), arbitrary(), arbitrary());
    lemma_hands_out(m, string_plan(s), slots, has_room, m.push(Val::String(s)));
}

/// A table is created new and empty, whatever it has room for, and Lua is told that as it was given.
pub proof fn law_created_table(
    m: Machine,
    narr: i32,
    nrec: i32,
    slots: RefSlots,
    has_room: Room,
)
    requires
        m.roomy(),
        slots.wf(),
        slots_match(m, slots),
        room_fits(slots, has_room),
    ensures
        ({
            let run = Machine {
                stack: m.stack.push(Val::Table(m.fresh)),
                tables: m.tables.insert(m.fresh, Map::empty()),
                fresh: m.fresh + 1,
                ..m
            };
            let outcome = Outcome::Reference(RefKind::Table);
            &&& hands_out(table_plan(), outcome, m, slots, has_room, run)
            &&& hands_out(capacity_plan(narr, nrec), outcome, m, slots, has_room, run)
        }),
        capacity_plan(narr, nrec).steps.contains(Op::CreateTable(narr, nrec)),
{
    let run = Machine {
        stack: m.stack.push(Val::Table(m.fresh)),
        tables: m.tables.insert(m.fresh, Map::empty()),
        fresh: m.fresh + 1,
        ..m
    };
    lemma_pair(m, table_plan().steps, m, run);
    lemma_pair(m, capacity_plan(narr, nrec).steps, m, run);
    law_simple_plans_are_sound(Seq::empty(), narr, nrec, arbitrary(), arbitrary(), arbitrary());
    lemma_hands_out(m, table_plan(), slots, has_room, run);
    lemma_hands_out(m, capacity_plan(narr, nrec), slots, has_room, run);
    assert(capacity_plan(narr, nrec).steps[1] == Op::CreateTable(narr, nrec));
}

/// A table made out of entries is handed out with the fields that the entries give it.
pub proof fn law_created_table_from(
    m: Machine,
    lower_bound: usize,
    list: Seq<(Value, Value)>,
    slots: RefSlots,
    has_room: Room,
)
    requires
        m.roomy(),
        entries_fit(m, list),
        slots.wf(),
        slots_match(m, slots),
        room_fits(slots, has_room),
    ensures
        hands_out(
            table_from_plan(lower_bound, list),
            Outcome::Reference(RefKind::Table),
            m,
            slots,
            has_room,
            Machine {
                stack: m.stack.push(Val::Table(m.fresh)),
                tables: m.tables.insert(m.fresh, fields_of(m, list)),
                fresh: m.fresh + 1,
                ..m
            },
        ),
{
    let run = Machine {
        stack: m.stack.push(Val::Table(m.fresh)),
        tables: m.tables.insert(m.fresh, fields_of(m, list)),
        fresh: m.fresh + 1,
        ..m
    };
    law_table_from(m, lower_bound, list);
    assert(m.run(table_from_plan(lower_bound, list).steps)->0 =~= run);
    law_table_plans_are_sound(lower_bound, list, Seq::empty(), arbitrary(), arbitrary(), 0);
    lemma_hands_out(m, table_from_plan(lower_bound, list), slots, has_room, run);
}

/// A sequence made out of values is handed out with the values under the keys from one on.
pub proof fn law_created_sequence_from(
    m: Machine,
    lower_bound: usize,
    values: Seq<Value>,
    slots: RefSlots,
    has_room: Room,
)
    requires
        m.roomy(),
        forall|i: int| 0 <= i < values.len() ==> pushable(m, #[trigger] values[i]),
        values.len() <= i64::MAX,
        slots.wf(),
        slots_match(m, slots),
        room_fits(slots, has_room),
    ensures
        hands_out(
            sequence_plan(lower_bound, values),
            Outcome::Reference(RefKind::Table),
            m,
            slots,
            has_room,
            Machine {
                stack: m.stack.push(Val::Table(m.fresh)),
                tables: m.tables.insert(m.fresh, sequence_of(m, values)),
                fresh: m.fresh + 1,
                ..m
            },
        ),
{
    let run = Machine {
        stack: m.stack.push(Val::Table(m.fresh)),
        tables: m.tables.insert(m.fresh, sequence_of(m, values)),
        fresh: m.fresh + 1,
        ..m
    };
    law_sequence_from(m, lower_bound, values);
    assert(m.run(sequence_plan(lower_bound, values).steps)->0 =~= run);
    law_table_plans_are_sound(lower_bound, Seq::empty(), values, arbitrary(), arbitrary(), 0);
    lemma_hands_out(m, sequence_plan(lower_bound, values), slots, has_room, run);
}

/// A thread is created new, with the function behind the given handle and nothing else on its stack.
pub proof fn law_created_thread(m: Machine, func: LuaRef, slots: RefSlots, has_room: Room)
    requires
        m.roomy(),
        0 < func.index <= m.refs.len(),
        slots.wf(),
        slots_match(m, slots),
        room_fits(slots, has_room),
    ensures
        hands_out(
            thread_plan(func),
            Outcome::Reference(RefKind::Thread),
            m,
            slots,
            has_room,
            Machine {
                stack: m.stack.push(Val::Thread(m.fresh)),
                threads: m.threads.insert(m.fresh, seq![m.refs[func.index - 1]]),
                fresh: m.fresh + 1,
                ..m
            },
        ),
{
    let run = Machine {
        stack: m.stack.push(Val::Thread(m.fresh)),
        threads: m.threads.insert(m.fresh, seq![m.refs[func.index - 1]]),
        fresh: m.fresh + 1,
        ..m
    };
    law_thread_has_its_function(m, func);
    law_simple_plans_are_sound(Seq::empty(), 0, 0, arbitrary(), func, arbitrary());
    lemma_hands_out(m, thread_plan(func), slots, has_room, run);
}

/// The globals are handed out as the table of globals, and the running thread as the one that runs.
pub proof fn law_handed_out_globals(
    m: Machine,
    version: Version,
    slots: RefSlots,
    has_room: Room,
)
    requires
        globals_found(m, version),
        slots.wf(),
        slots_match(m, slots),
        room_fits(slots, has_room),
    ensures
        hands_out(
            globals_plan(version),
            Outcome::Reference(RefKind::Table),
            m,
            slots,
            has_room,
            m.push(Val::Table(1)),
        ),
        hands_out(
            current_thread_plan(),
            Outcome::Reference(RefKind::Thread),
            m,
            slots,
            has_room,
            m.push(Val::Thread(m.current)),
        ),
{
    law_globals(m, version);
    lemma_pair(m, current_thread_plan().steps, m, m.push(Val::Thread(m.current)));
    law_simple_plans_are_sound(Seq::empty(), 0, 0, version, arbitrary(), arbitrary());
    lemma_hands_out(m, globals_plan(version), slots, has_room, m.push(Val::Table(1)));
    lemma_hands_out(m, current_thread_plan(), slots, has_room, m.push(Val::Thread(m.current)));
}

/// A function made out of a callback is the function that calls callbacks, over the callback and the
/// state, in this order. The function that starts the future of an asynchronous callback is made in
/// the same way.
pub proof fn law_created_function(m: Machine, c: Callback, slots: RefSlots, has_room: Room)
    requires
        m.roomy(),
        slots.wf(),
        slots_match(m, slots),
        room_fits(slots, has_room),
    ensures
        hands_out(
            callback_plan(c),
            Outcome::Reference(RefKind::Function),
            m,
            slots,
            has_room,
            m.push(
                Val::Closure(
                    CFunction::CallCallback,
                    seq![Val::Gc(GcValue::Callback(c)), Val::Gc(GcValue::Lua)],
                ),
            ),
        ),
        hands_out(
            get_poll_plan(c),
            Outcome::Reference(RefKind::Function),
            m,
            slots,
            has_room,
            m.push(
                Val::Closure(
                    CFunction::CallAsyncCallback,
                    seq![Val::Gc(GcValue::AsyncCallback(c)), Val::Gc(GcValue::Lua)],
                ),
            ),
        ),
{
    law_simple_plans_are_sound(Seq::empty(), 0, 0, arbitrary(), arbitrary(), c);
    assert(callback_plan(c).steps =~= seq![
        Op::CheckStack(5),
        Op::PushGcUserdata(GcValue::Callback(c)),
        Op::PushGcUserdata(GcValue::Lua),
        Op::PushRClosure(CFunction::CallCallback, 2),
    ]);
    assert(get_poll_plan(c).steps =~= seq![
        Op::CheckStack(5),
        Op::PushGcUserdata(GcValue::AsyncCallback(c)),
        Op::PushGcUserdata(GcValue::Lua),
        Op::PushRClosure(CFunction::CallAsyncCallback, 2),
    ]);
    lemma_closure(m, callback_plan(c).steps, CFunction::CallCallback, GcValue::Callback(c));
    lemma_closure(
        m,
        get_poll_plan(c).steps,
        CFunction::CallAsyncCallback,
        GcValue::AsyncCallback(c),
    );
    lemma_hands_out(
        m,
        callback_plan(c),
        slots,
        has_room,
        m.push(
            Val::Closure(
                CFunction::CallCallback,
                seq![Val::Gc(GcValue::Callback(c)), Val::Gc(GcValue::Lua)],
            ),
        ),
    );
    lemma_hands_out(
        m,
        get_poll_plan(c),
        slots,
        has_room,
        m.push(
            Val::Closure(
                CFunction::CallAsyncCallback,
                seq![Val::Gc(GcValue::AsyncCallback(c)), Val::Gc(GcValue::Lua)],
            ),
        ),
    );
}

proof fn lemma_closure(m: Machine, code: Seq<Op>, function: CFunction, value: GcValue)
    requires
        m.roomy(),
        code == seq![
            Op::CheckStack(5),
            Op::PushGcUserdata(value),
            Op::PushGcUserdata(GcValue::Lua),
            Op::PushRClosure(function, 2),
        ],
    ensures
        m.run(code) == Some(
            m.push(Val::Closure(function, seq![Val::Gc(value), Val::Gc(GcValue::Lua)])),
        ),
{
    let m1 = m.push(Val::Gc(value));
    let m2 = m1.push(Val::Gc(GcValue::Lua));
    let m3 = m.push(Val::Closure(function, seq![Val::Gc(value), Val::Gc(GcValue::Lua)]));
    lemma_next(m, code, 0, m);
    lemma_next(m, code, 1, m1);
    lemma_next(m1, code, 2, m2);
    assert(m2.stack.take(m2.height() - 2) =~= m.stack);
    assert(m2.stack.skip(m2.height() - 2) =~= seq![Val::Gc(value), Val::Gc(GcValue::Lua)]);
    lemma_next(m2, code, 3, m3);
    lemma_done(m3, code, 4);
}

/// A chunk that Lua compiles is handed out as a new function of its source, with the environment that
/// was set.
pub proof fn law_created_chunk(m: Machine, chunk: ChunkView, slots: RefSlots, has_room: Room)
    requires
        m.roomy(),
        chunk.loads(m.world),
        chunk.env matches Some(value) ==> pushable(m, value),
        slots.wf(),
        slots_match(m, slots),
        room_fits(slots, has_room),
    ensures
        hands_out(
            load_chunk_plan(chunk),
            Outcome::Reference(RefKind::Function),
            m,
            slots,
            has_room,
            Machine {
                stack: m.stack.push(Val::Chunk(m.fresh)),
                envs: match chunk.env {
                    Some(value) => m.envs.insert(m.fresh, denoted(m, value)),
                    None => m.envs,
                },
                sources: m.sources.insert(m.fresh, chunk.source),
                fresh: m.fresh + 1,
                ..m
            },
        ),
{
    law_loaded_chunk(m, chunk);
    law_load_chunk_is_sound(chunk);
    lemma_hands_out(
        m,
        load_chunk_plan(chunk),
        slots,
        has_room,
        m.run(load_chunk_plan(chunk).steps)->0,
    );
}

/// Converting to an integer or a number asks Lua for the conversion of what the value stands for, and
/// leaves everything as it was.
pub proof fn law_coerce_number(m: Machine, v: Value, slots: RefSlots, has_room: Room)
    requires
        m.roomy(),
        pushable(m, v),
    ensures
        m.run(to_number_plan(v, Outcome::Integer).steps) == Some(m.push(denoted(m, v))),
        m.run(to_number_plan(v, Outcome::Number).steps) == Some(m.push(denoted(m, v))),
        to_number_plan(v, Outcome::Integer).outcome == Outcome::Integer,
        to_number_plan(v, Outcome::Number).outcome == Outcome::Number,
        to_number_plan(v, Outcome::Integer).end(m, slots, has_room) == (Ended {
            machine: m,
            slots,
            given: Given::Converted(denoted(m, v)),
        }),
        to_number_plan(v, Outcome::Number).end(m, slots, has_room) == (Ended {
            machine: m,
            slots,
            given: Given::Converted(denoted(m, v)),
        }),
{
    let first: Seq<Op> = seq![Op::CheckStack(2)];
    let pushed = m.push(denoted(m, v));
    lemma_run_concat(m, first, push_ops(v));
    lemma_single(m, first[0], m);
    law_push_value(m, v);
    assert(pushed.stack.take(m.height()) =~= m.stack);
    lemma_ends(m, to_number_plan(v, Outcome::Integer), slots, has_room, pushed);
    lemma_ends(m, to_number_plan(v, Outcome::Number), slots, has_room, pushed);
}

/// Converting to a string gives the string that the value stands for, or the text of the integer or
/// the number that it does; nothing else is a string. The stack and the values behind handles stay.
pub proof fn law_coerced_string(m: Machine, v: Value, slots: RefSlots, has_room: Room)
    requires
        m.roomy(),
        pushable(m, v),
        slots.wf(),
        slots_match(m, slots),
        room_fits(slots, has_room),
    ensures
        to_string_plan(v).outcome == Outcome::Text,
        match denoted(m, v) {
            Val::String(s) => hands_out(
                to_string_plan(v),
                Outcome::Text,
                m,
                slots,
                has_room,
                m.push(Val::String(s)),
            ),
            Val::Integer(_) | Val::Number(_) => hands_out(
                to_string_plan(v),
                Outcome::Text,
                m,
                slots,
                has_room,
                m.push(Val::String((m.world.numeral)(denoted(m, v)))),
            ),
            _ => to_string_plan(v).end(m, slots, has_room) == (Ended {
                machine: m,
                slots,
                given: Given::NoText,
            }),
        },
{
    let first: Seq<Op> = seq![Op::CheckStack(5)];
    let last: Seq<Op> = seq![Op::ToText];
    lemma_run_concat(m, first + push_ops(v), last);
    lemma_run_concat(m, first, push_ops(v));
    law_push_value(m, v);
    lemma_single(m, first[0], m);
    let pushed = m.push(denoted(m, v));
    assert(pushed.stack.take(m.height()) =~= m.stack);
    let text = match denoted(m, v) {
        Val::Integer(_) | Val::Number(_) => m.push(
            Val::String((m.world.numeral)(denoted(m, v))),
        ),
        _ => pushed,
    };
    lemma_single(pushed, last[0], text);
    law_value_plans_are_sound(v, Seq::empty(), 0, Seq::empty(), Outcome::Unit);
    if text.top() is String {
        lemma_hands_out(m, to_string_plan(v), slots, has_room, text);
    } else {
        lemma_ends(m, to_string_plan(v), slots, has_room, text);
    }
}

/// A value of the registry is handed out as it is: behind a handle if it is of a kind that is kept so,
/// and else by value. Everything else is as it was.
pub open spec fn hands_out_value(
    plan: PlanView,
    m: Machine,
    slots: RefSlots,
    has_room: Room,
    value: Val,
) -> bool {
    if value.kind() is Some {
        hands_out(plan, Outcome::Value, m, slots, has_room, m.push(value))
    } else {
        plan.outcome == Outcome::Value && plan.end(m, slots, has_room) == (Ended {
            machine: m,
            slots,
            given: Given::Value(value),
        })
    }
}

proof fn lemma_hands_out_value(
    m: Machine,
    plan: PlanView,
    slots: RefSlots,
    has_room: Room,
    value: Val,
)
    requires
        m.run(plan.steps) == Some(m.push(value)),
        plan.sound(),
        plan.outcome == Outcome::Value,
        plan.guard == Some(0usize),
        slots.wf(),
        slots_match(m, slots),
        room_fits(slots, has_room),
    ensures
        hands_out_value(plan, m, slots, has_room, value),
{
    let pushed = m.push(value);
    if value.kind() is Some {
        lemma_hands_out(m, plan, slots, has_room, pushed);
    } else {
        lemma_ends(m, plan, slots, has_room, pushed);
        assert(pushed.pop(1).stack =~= m.stack);
    }
}

/// A named value is the field of the registry under its name: it is set to what the value stands for,
/// without any other change, and read as it is.
pub proof fn law_named_values(
    m: Machine,
    name: Seq<u8>,
    t: Value,
    slots: RefSlots,
    has_room: Room,
)
    requires
        m.roomy(),
        m.wf(),
        pushable(m, t),
        slots.wf(),
        slots_match(m, slots),
        room_fits(slots, has_room),
    ensures
        set_named_plan(name, t).outcome == Outcome::Unit,
        set_named_plan(name, t).end(m, slots, has_room) == (Ended {
            machine: Machine {
                tables: m.tables.insert(
                    0,
                    with_field(m.tables[0], Val::String(name), denoted(m, t)),
                ),
                ..m
            },
            slots,
            given: Given::Unit,
        }),
        hands_out_value(
            named_plan(name),
            m,
            slots,
            has_room,
            field(m.tables[0], Val::String(name)),
        ),
{
    law_set_named(m, name, t);
    lemma_ends(
        m,
        set_named_plan(name, t),
        slots,
        has_room,
        m.run(set_named_plan(name, t).steps)->0,
    );
    law_get_named(m, name);
    law_value_plans_are_sound(t, name, 0, Seq::empty(), Outcome::Unit);
    lemma_hands_out_value(
        m,
        named_plan(name),
        slots,
        has_room,
        field(m.tables[0], Val::String(name)),
    );
}

/// The value of a key is the field of the registry under the integer of the key, and removing it sets
/// that field to nil, without any other change.
pub proof fn law_registered_values(m: Machine, id: i32, slots: RefSlots, has_room: Room)
    requires
        m.roomy(),
        m.wf(),
        slots.wf(),
        slots_match(m, slots),
        room_fits(slots, has_room),
    ensures
        hands_out_value(
            value_plan(id),
            m,
            slots,
            has_room,
            field(m.tables[0], Val::Integer(id as i64)),
        ),
        remove_plan(id).outcome == Outcome::Unit,
        id >= 0 ==> remove_plan(id).end(m, slots, has_room) == (Ended {
            machine: Machine {
                tables: m.tables.insert(
                    0,
                    with_field(m.tables[0], Val::Integer(id as i64), Val::Nil),
                ),
                ..m
            },
            slots,
            given: Given::Unit,
        }),
        id < 0 ==> remove_plan(id).end(m, slots, has_room) == (Ended {
            machine: m,
            slots,
            given: Given::Unit,
        }),
{
    let value = field(m.tables[0], Val::Integer(id as i64));
    lemma_pair(m, value_plan(id).steps, m, m.push(value));
    law_value_plans_are_sound(Value::Nil, Seq::empty(), id, Seq::empty(), Outcome::Unit);
    lemma_hands_out_value(m, value_plan(id), slots, has_room, value);
    let removed = m.step(Op::Unref(id))->0;
    lemma_single(m, Op::Unref(id), removed);
    assert(remove_plan(id).steps =~= seq![Op::Unref(id)]);
    lemma_ends(m, remove_plan(id), slots, has_room, removed);
}

/// A value is put into the registry under an integer that was not in use, which is what is given, and
/// can be got back by it. Nil is not put there, and is got back by the integer that stands for nil.
pub proof fn law_created_registry_value(m: Machine, t: Value, slots: RefSlots, has_room: Room)
    requires
        m.roomy(),
        m.wf(),
        pushable(m, t),
    ensures
        create_value_plan(t).outcome == Outcome::RegistryId,
        ({
            let ended = create_value_plan(t).end(m, slots, has_room);
            &&& ended.slots == slots
            &&& ended.given matches Given::RegistryId(id) && if denoted(m, t) == Val::Nil {
                &&& id == -1
                &&& ended.machine == (Machine { made: id, ..m })
            } else {
                &&& 0 < id
                &&& !m.tables[0].dom().contains(Val::Integer(id as i64))
                &&& ended.machine == (Machine {
                    tables: m.tables.insert(
                        0,
                        m.tables[0].insert(Val::Integer(id as i64), denoted(m, t)),
                    ),
                    made: id,
                    ..m
                })
            }
        }),
{
    let first: Seq<Op> = seq![Op::CheckStack(4)];
    let last: Seq<Op> = seq![Op::MakeRef];
    lemma_run_concat(m, first + push_ops(t), last);
    lemma_run_concat(m, first, push_ops(t));
    law_push_value(m, t);
    lemma_single(m, first[0], m);
    let pushed = m.push(denoted(m, t));
    let id = created_id(m, t);
    assert(pushed.stack.take(pushed.height() - 1) =~= m.stack);
    law_registry_value_round_trip(m, t);
    let made = pushed.step(last[0])->0;
    lemma_single(pushed, last[0], made);
    lemma_ends(m, create_value_plan(t), slots, has_room, made);
}

/// A new userdata of a type whose metatable is registered is handed out with that metatable.
pub proof fn law_created_userdata(m: Machine, id: i32, slots: RefSlots, has_room: Room)
    requires
        m.roomy(),
        m.wf(),
        slots.wf(),
        slots_match(m, slots),
        room_fits(slots, has_room),
    ensures
        hands_out(
            userdata_plan(registered_plan(id).steps),
            Outcome::Reference(RefKind::UserData),
            m,
            slots,
            has_room,
            Machine {
                stack: m.stack.push(Val::UserData(m.fresh)),
                metatables: m.metatables.insert(
                    m.fresh,
                    field(m.tables[0], Val::Integer(id as i64)),
                ),
                fresh: m.fresh + 1,
                ..m
            },
        ),
{
    let plan = userdata_plan(registered_plan(id).steps);
    let code = plan.steps;
    let metatable = field(m.tables[0], Val::Integer(id as i64));
    let m2 = Machine { fresh: m.fresh + 1, ..m.push(Val::UserData(m.fresh)) };
    lemma_next(m, code, 0, m);
    lemma_next(m, code, 1, m2);
    let m3 = m2.push(metatable);
    lemma_next(m2, code, 2, m3);
    let m4 = Machine { metatables: m.metatables.insert(m.fresh, metatable), ..m2 };
    assert(m3.stack[m3.height() - 2] == Val::UserData(m.fresh));
    assert(m3.stack.take(m3.height() - 1) =~= m2.stack);
    assert(code[3] == Op::SetMetatable(Index::FromTop(2)));
    lemma_next(m3, code, 3, m4);
    lemma_done(m4, code, 4);
    law_userdata_is_sound(
        0,
        id,
        MethodsView {
            methods: Seq::empty(),
            async_methods: Seq::empty(),
            meta_methods: Seq::empty(),
        },
        FieldsView {
            field_getters: Seq::empty(),
            field_setters: Seq::empty(),
            meta_fields: Seq::empty(),
        },
    );
    lemma_hands_out(m, plan, slots, has_room, m4);
}

/// The metatable of a userdata type, when it is made, is left on top of the stack, and the integer
/// under which it is in the registry is given.
pub proof fn law_created_metatable(
    m: Machine,
    methods: MethodsView,
    fields: FieldsView,
    slots: RefSlots,
    has_room: Room,
)
    requires
        m.roomy(),
        m.wf(),
        m.height() <= i32::MAX - 4,
        unrestricted(meta_fillings(methods, fields)),
        wants_async(methods, fields) ==> async_ready(m),
        all_computable(m.world, meta_fillings(methods, fields)),
    ensures
        ({
            let ended = metatable_plan(m.height(), methods, fields).end(m, slots, has_room);
            &&& ended.slots == slots
            &&& ended.machine.stack == m.stack.push(Val::Table(m.fresh))
            &&& ended.given matches Given::RegistryId(id) && field(
                ended.machine.tables[0],
                Val::Integer(id as i64),
            ) == Val::Table(m.fresh)
        }),
{
    let plan = metatable_plan(m.height(), methods, fields);
    law_metatable(m, methods, fields);
    lemma_ends(m, plan, slots, has_room, m.run(plan.steps)->0);
}

/// Setting a state up leaves nothing on the stack, whether it succeeds or fails, and gives nothing.
pub proof fn law_setup_leaves_nothing(
    m: Machine,
    version: Version,
    slots: RefSlots,
    has_room: Room,
)
    ensures
        ({
            let disabled = disable_plan(version).end(m, slots, has_room);
            let replaced = options_plan(version).end(m, slots, has_room);
            &&& disabled.machine.stack == m.stack && disabled.slots == slots
            &&& disabled.given is Unit || disabled.given is Failed
            &&& replaced.machine.stack == m.stack && replaced.slots == slots
            &&& replaced.given is Unit || replaced.given is Failed
        }),
{
    law_construction_is_sound(
        version,
        Features { asynchronous: false, serialize: false },
        StdLib { bits: 0 },
    );
    law_guarded_plan_restores_the_stack(m, disable_plan(version), slots, has_room);
    law_guarded_plan_restores_the_stack(m, options_plan(version), slots, has_room);
}

/// Loading modules, opening the basic functions and storing the shared data give nothing and are
/// carried out as they are; preparing the registry gives the integer of the reference thread.
pub proof fn law_setup_outcomes(version: Version, features: Features, libs: StdLib, id: i32)
    ensures
        load_plan(version, libs).outcome == Outcome::Unit && load_plan(version, libs).guard is None,
        base_plan().outcome == Outcome::Unit && base_plan().guard is None,
        store_plan().outcome == Outcome::Unit && store_plan().guard is None,
        registered_plan(id).outcome == Outcome::Unit && registered_plan(id).guard is None,
        prepare_plan(features).outcome == Outcome::RegistryId && prepare_plan(features).guard is None,
        base_plan().steps == seq![Op::OpenBase, Op::Pop(1)],
{
}

} // verus!
