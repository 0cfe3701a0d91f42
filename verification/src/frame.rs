use vstd::prelude::*;

use crate::asynchronous::{
    environment_plan, get_poll_plan, pending_ops, ready_ops, yield_plan,
};
use crate::callback::{callback_plan, closure_ops, push_all_ops, return_ops};
use crate::chunk::{accepted_mode, env_ops, load_chunk_plan, ChunkView};
use crate::construct::{
    base_plan, common_ops, disable_plan, load_plan, open_ops, options_plan, prepare_plan,
    ref_thread_ops, serde_ops, store_plan, waker_ops, Features,
};
use crate::create::{
    begin_ops, capacity_plan, current_thread_plan, element_ops, elements_ops, entries_ops,
    entry_ops, globals_plan, sequence_plan, string_plan, table_from_plan, table_plan,
    thread_plan, to_number_plan, to_string_plan,
};
use crate::machine::{
    depth_after, in_frame, pops, pushes, reach, CFunction, Callback, GcValue, Index, InstrOf,
    Op, Outcome,
};
use crate::metatable::{
    callbacks, complete_ops, count, extra_table_ops, fill_ops, meta_fillings, metatable_ops,
    metatable_plan, method_fillings, registered_plan, slot_of, userdata_attach_plan,
    userdata_plan, userdata_push_plan, Filling,
};
use crate::registry::{
    create_value_plan, named_plan, remove_plan, set_named_plan, unref_ops, value_plan,
};
use crate::stack::{push_ops, push_ref_ops};
use crate::stdlib::{selected, Library, StdLib};
use crate::userdata::{FieldsView, MethodsView};
use crate::value::{LuaRef, Value};
use crate::version::Version;

verus! {

/// The most values that instructions from position `i` on have on the stack at a time, given the
/// `depth` values that they start with.
pub open spec fn highest(code: Seq<Op>, i: int, depth: int) -> int
    decreases code.len() - i,
{
    if i >= code.len() {
        depth
    } else {
        let rest = highest(code, i + 1, depth - pops(code[i]) + pushes(code[i]));
        if depth > rest {
            depth
        } else {
            rest
        }
    }
}

/// Instructions that, given `depth` values of their own, touch no others, leave `delta` more of
/// their own, and never have more than `peak` more.
pub open spec fn keeps(code: Seq<Op>, depth: int, delta: int, peak: int) -> bool {
    &&& in_frame(code, 0, depth)
    &&& depth_after(code, 0, depth) == depth + delta
    &&& highest(code, 0, depth) <= depth + peak
}

/// Instructions that first ask for stack room, for as many values as they ever have there at least.
pub open spec fn asks_enough(code: Seq<Op>) -> bool {
    &&& code.len() > 0
    &&& match code[0] {
        InstrOf::CheckStack(n) => highest(code, 0, 0) <= n,
        InstrOf::AssertStack(n) => highest(code, 0, 0) <= n,
        _ => false,
    }
}

proof fn lemma_chain(a: Seq<Op>, b: Seq<Op>, depth: int, x: int, y: int, peak: int)
    requires
        keeps(a, depth, x, peak),
        keeps(b, depth + x, y, peak - x),
    ensures
        keeps(a + b, depth, x + y, peak),
{
    lemma_chain_from(a, b, 0, depth);
}

proof fn lemma_chain_from(a: Seq<Op>, b: Seq<Op>, i: int, depth: int)
    requires
        0 <= i <= a.len(),
        in_frame(a, i, depth),
        in_frame(b, 0, depth_after(a, i, depth)),
    ensures
        in_frame(a + b, i, depth),
        depth_after(a + b, i, depth) == depth_after(b, 0, depth_after(a, i, depth)),
        highest(a + b, i, depth) <= highest(a, i, depth) || highest(a + b, i, depth) <= highest(
            b,
            0,
            depth_after(a, i, depth),
        ),
    decreases a.len() - i,
{
    if i == a.len() {
        lemma_shift(a, b, 0, depth);
    } else {
        assert((a + b)[i] == a[i]);
        lemma_chain_from(a, b, i + 1, depth - pops(a[i]) + pushes(a[i]));
    }
}

proof fn lemma_shift(a: Seq<Op>, b: Seq<Op>, i: int, depth: int)
    requires
        0 <= i <= b.len(),
    ensures
        in_frame(a + b, a.len() + i, depth) == in_frame(b, i, depth),
        depth_after(a + b, a.len() + i, depth) == depth_after(b, i, depth),
        highest(a + b, a.len() + i, depth) == highest(b, i, depth),
    decreases b.len() - i,
{
    if i < b.len() {
        assert((a + b)[a.len() + i] == b[i]);
        lemma_shift(a, b, i + 1, depth - pops(b[i]) + pushes(b[i]));
    }
}

proof fn lemma_one(op: Op, depth: int)
    requires
        0 <= pops(op) <= depth,
        reach(op) <= depth,
    ensures
        keeps(seq![op], depth, pushes(op) - pops(op), if pushes(op) > pops(op) {
            pushes(op) - pops(op)
        } else {
            0
        }),
{
    reveal_with_fuel(in_frame, 2);
    reveal_with_fuel(depth_after, 2);
    reveal_with_fuel(highest, 2);
}

proof fn lemma_push_ref(index: i32, depth: int)
    requires
        0 <= depth,
    ensures
        keeps(push_ref_ops(index), depth, 1, 1),
{
    reveal_with_fuel(in_frame, 3);
    reveal_with_fuel(depth_after, 3);
    reveal_with_fuel(highest, 3);
}

proof fn lemma_push(value: Value, depth: int)
    requires
        0 <= depth,
    ensures
        keeps(push_ops(value), depth, 1, 1),
{
    match value.handle() {
        Some(r) => lemma_push_ref(r.index, depth),
        None => {
            reveal_with_fuel(in_frame, 2);
            reveal_with_fuel(depth_after, 2);
            reveal_with_fuel(highest, 2);
        },
    }
}

proof fn lemma_push_all(values: Seq<Value>, depth: int)
    requires
        0 <= depth,
    ensures
        keeps(push_all_ops(values), depth, values.len() as int, values.len() as int),
    decreases values.len(),
{
    if values.len() > 0 {
        lemma_push_all(values.drop_last(), depth);
        lemma_push(values.last(), depth + values.len() - 1);
        lemma_chain(
            push_all_ops(values.drop_last()),
            push_ops(values.last()),
            depth,
            values.len() - 1,
            1,
            values.len() as int,
        );
    }
}

proof fn lemma_entries(entries: Seq<(Value, Value)>, depth: int)
    requires
        1 <= depth,
    ensures
        keeps(entries_ops(entries), depth, 0, 2),
    decreases entries.len(),
{
    if entries.len() > 0 {
        let (key, value) = entries.last();
        let set: Seq<Op> = seq![InstrOf::RawSet(Index::FromTop(3))];
        lemma_entries(entries.drop_last(), depth);
        lemma_push(key, depth);
        lemma_push(value, depth + 1);
        lemma_chain(push_ops(key), push_ops(value), depth, 1, 1, 2);
        lemma_one(set[0], depth + 2);
        lemma_chain(push_ops(key) + push_ops(value), set, depth, 2, -2, 2);
        lemma_chain(entries_ops(entries.drop_last()), entry_ops(key, value), depth, 0, 0, 2);
    }
}

proof fn lemma_elements(values: Seq<Value>, depth: int)
    requires
        1 <= depth,
    ensures
        keeps(elements_ops(values), depth, 0, 1),
    decreases values.len(),
{
    if values.len() > 0 {
        let set: Seq<Op> = seq![InstrOf::RawSetI(Index::FromTop(2), values.len() as i64)];
        lemma_elements(values.drop_last(), depth);
        lemma_push(values.last(), depth);
        lemma_one(set[0], depth + 1);
        lemma_chain(push_ops(values.last()), set, depth, 1, -1, 1);
        lemma_chain(
            elements_ops(values.drop_last()),
            element_ops(values.len() as int, values.last()),
            depth,
            0,
            0,
            1,
        );
    }
}

proof fn lemma_fill(fillings: Seq<Filling>, depth: int)
    requires
        1 <= depth,
        forall|i: int| 0 <= i < fillings.len() ==> (#[trigger] fillings[i]).restricted is None,
    ensures
        keeps(fill_ops(fillings), depth, 0, 1),
    decreases fillings.len(),
{
    if fillings.len() > 0 {
        let rest = fillings.drop_last();
        let last = fillings.last();
        assert(fillings[fillings.len() - 1] == last);
        assert forall|i: int| 0 <= i < rest.len() implies (#[trigger] rest[i]).restricted is None by {
            assert(rest[i] == fillings[i]);
        }
        lemma_fill(rest, depth);
        let code = seq![last.push_op(), last.set_op()];
        assert(keeps(code, depth, 0, 1)) by {
            reveal_with_fuel(in_frame, 3);
            reveal_with_fuel(depth_after, 3);
            reveal_with_fuel(highest, 3);
        }
        lemma_chain(fill_ops(rest), code, depth, 0, 0, 1);
    }
}

proof fn lemma_open(libs: Seq<Library>)
    ensures
        keeps(open_ops(libs), 0, 0, 1),
    decreases libs.len(),
{
    if libs.len() > 0 {
        lemma_open(libs.drop_last());
        let code = seq![Op::OpenLibrary(libs.last()), Op::Pop(1)];
        assert(keeps(code, 0, 0, 1)) by {
            reveal_with_fuel(in_frame, 3);
            reveal_with_fuel(depth_after, 3);
            reveal_with_fuel(highest, 3);
        }
        lemma_chain(open_ops(libs.drop_last()), code, 0, 0, 0, 1);
    }
}

proof fn lemma_unref(ids: Seq<i32>, i: int)
    requires
        0 <= i <= ids.len(),
    ensures
        in_frame(unref_ops(ids), i, 0),
        depth_after(unref_ops(ids), i, 0) == 0,
    decreases ids.len() - i,
{
    if i < ids.len() {
        lemma_unref(ids, i + 1);
    }
}

proof fn lemma_extra_table(fillings: Seq<Filling>, depth: int)
    requires
        0 <= depth,
        forall|i: int| 0 <= i < fillings.len() ==> (#[trigger] fillings[i]).restricted is None,
    ensures
        keeps(extra_table_ops(fillings), depth, count(fillings), 2),
{
    if fillings.len() > 0 {
        let first: Seq<Op> = seq![InstrOf::CreateTable(0, fillings.len() as i32)];
        lemma_one(first[0], depth);
        lemma_fill(fillings, depth + 1);
        lemma_chain(first, fill_ops(fillings), depth, 1, 0, 2);
    }
}

/// Plans that make a value with no other values at hand touch no stack values but their own, and
/// ask for room for all of them.
pub proof fn law_simple_plans_are_sound(
    s: Seq<u8>,
    narr: i32,
    nrec: i32,
    version: Version,
    func: LuaRef,
    c: Callback,
)
    ensures
        string_plan(s).sound(),
        table_plan().sound(),
        capacity_plan(narr, nrec).sound(),
        globals_plan(version).sound(),
        current_thread_plan().sound(),
        thread_plan(func).sound(),
        callback_plan(c).sound(),
        get_poll_plan(c).sound(),
        yield_plan(version).sound(),
        userdata_push_plan().sound(),
        asks_enough(string_plan(s).steps),
        asks_enough(table_plan().steps),
        asks_enough(capacity_plan(narr, nrec).steps),
        asks_enough(globals_plan(version).steps),
        asks_enough(current_thread_plan().steps),
        asks_enough(thread_plan(func).steps),
        asks_enough(callback_plan(c).steps),
        asks_enough(get_poll_plan(c).steps),
        asks_enough(yield_plan(version).steps),
        asks_enough(userdata_push_plan().steps),
{
    assert(string_plan(s).sound() && asks_enough(string_plan(s).steps)) by {
        reveal_with_fuel(in_frame, 3);
        reveal_with_fuel(depth_after, 3);
        reveal_with_fuel(highest, 3);
    }
    assert(table_plan().sound() && asks_enough(table_plan().steps)) by {
        reveal_with_fuel(in_frame, 3);
        reveal_with_fuel(depth_after, 3);
        reveal_with_fuel(highest, 3);
    }
    assert(capacity_plan(narr, nrec).sound() && asks_enough(capacity_plan(narr, nrec).steps)) by {
        reveal_with_fuel(in_frame, 3);
        reveal_with_fuel(depth_after, 3);
        reveal_with_fuel(highest, 3);
    }
    assert(globals_plan(version).sound() && asks_enough(globals_plan(version).steps)) by {
        reveal_with_fuel(in_frame, 3);
        reveal_with_fuel(depth_after, 3);
        reveal_with_fuel(highest, 3);
    }
    assert(current_thread_plan().sound() && asks_enough(current_thread_plan().steps)) by {
        reveal_with_fuel(in_frame, 3);
        reveal_with_fuel(depth_after, 3);
        reveal_with_fuel(highest, 3);
    }
    assert(userdata_push_plan().sound() && asks_enough(userdata_push_plan().steps)) by {
        reveal_with_fuel(in_frame, 3);
        reveal_with_fuel(depth_after, 3);
        reveal_with_fuel(highest, 3);
    }
    assert(thread_plan(func).sound() && asks_enough(thread_plan(func).steps)) by {
        reveal_with_fuel(in_frame, 6);
        reveal_with_fuel(depth_after, 6);
        reveal_with_fuel(highest, 6);
    }
    assert(callback_plan(c).sound() && asks_enough(callback_plan(c).steps)) by {
        reveal_with_fuel(in_frame, 5);
        reveal_with_fuel(depth_after, 5);
        reveal_with_fuel(highest, 5);
    }
    assert(yield_plan(version).sound() && asks_enough(yield_plan(version).steps)) by {
        reveal_with_fuel(in_frame, 7);
        reveal_with_fuel(depth_after, 7);
        reveal_with_fuel(highest, 7);
    }
    assert(get_poll_plan(c).sound() && asks_enough(get_poll_plan(c).steps)) by {
        reveal_with_fuel(in_frame, 5);
        reveal_with_fuel(depth_after, 5);
        reveal_with_fuel(highest, 5);
    }
}

/// Plans that work on given values touch no stack values but their own. Those that push values ask
/// for room for all of them, but for the one that gets a registered metatable, which counts on the
/// room that making a userdata asks for.
pub proof fn law_value_plans_are_sound(
    v: Value,
    name: Seq<u8>,
    id: i32,
    ids: Seq<i32>,
    outcome: Outcome,
)
    ensures
        to_string_plan(v).sound(),
        to_number_plan(v, outcome).sound(),
        set_named_plan(name, v).sound(),
        named_plan(name).sound(),
        create_value_plan(v).sound(),
        value_plan(id).sound(),
        remove_plan(id).sound(),
        registered_plan(id).sound(),
        in_frame(unref_ops(ids), 0, 0),
        asks_enough(to_string_plan(v).steps),
        asks_enough(to_number_plan(v, outcome).steps),
        asks_enough(set_named_plan(name, v).steps),
        asks_enough(named_plan(name).steps),
        asks_enough(create_value_plan(v).steps),
        asks_enough(value_plan(id).steps),
{
    lemma_push(v, 0);
    let five: Seq<Op> = seq![InstrOf::CheckStack(5)];
    let four: Seq<Op> = seq![InstrOf::CheckStack(4)];
    let two: Seq<Op> = seq![InstrOf::CheckStack(2)];
    lemma_one(five[0], 0);
    lemma_one(four[0], 0);
    lemma_one(two[0], 0);
    lemma_chain(five, push_ops(v), 0, 0, 1, 1);
    lemma_chain(four, push_ops(v), 0, 0, 1, 1);
    lemma_chain(two, push_ops(v), 0, 0, 1, 1);
    let text: Seq<Op> = seq![InstrOf::ToText];
    lemma_one(text[0], 1);
    lemma_chain(five + push_ops(v), text, 0, 1, 0, 1);
    let set: Seq<Op> = seq![InstrOf::RawSetField(Index::Registry, name)];
    lemma_one(set[0], 1);
    lemma_chain(five + push_ops(v), set, 0, 1, -1, 1);
    let make: Seq<Op> = seq![InstrOf::MakeRef];
    lemma_one(make[0], 1);
    lemma_chain(four + push_ops(v), make, 0, 1, -1, 1);
    lemma_unref(ids, 0);
    lemma_one(Op::Unref(id), 0);
    lemma_one(Op::RawGetI(Index::Registry, id as i64), 0);
    assert(named_plan(name).sound() && asks_enough(named_plan(name).steps)) by {
        reveal_with_fuel(in_frame, 4);
        reveal_with_fuel(depth_after, 4);
        reveal_with_fuel(highest, 4);
    }
    assert(value_plan(id).sound() && asks_enough(value_plan(id).steps)) by {
        reveal_with_fuel(in_frame, 3);
        reveal_with_fuel(depth_after, 3);
        reveal_with_fuel(highest, 3);
    }
}

proof fn lemma_environment(get_poll: LuaRef, yielding: LuaRef, pending: u64)
    ensures
        environment_plan(get_poll, yielding, pending).sound(),
        asks_enough(environment_plan(get_poll, yielding, pending).steps),
{
    let code = environment_plan(get_poll, yielding, pending).steps;
    let first: Seq<Op> = seq![code[0], code[1]];
    let second: Seq<Op> = seq![code[4]];
    let third: Seq<Op> = seq![code[7], code[8], code[9], code[10], code[11]];
    let (p, q) = (push_ref_ops(get_poll.index), push_ref_ops(yielding.index));
    assert(keeps(first, 0, 1, 1)) by {
        reveal_with_fuel(in_frame, 3);
        reveal_with_fuel(depth_after, 3);
        reveal_with_fuel(highest, 3);
    }
    lemma_push_ref(get_poll.index, 1);
    lemma_push_ref(yielding.index, 1);
    lemma_one(second[0], 2);
    assert(keeps(third, 2, -1, 0)) by {
        reveal_with_fuel(in_frame, 6);
        reveal_with_fuel(depth_after, 6);
        reveal_with_fuel(highest, 6);
    }
    lemma_chain(first, p, 0, 1, 1, 2);
    lemma_chain(first + p, second, 0, 2, -1, 2);
    lemma_chain(first + p + second, q, 0, 1, 1, 2);
    lemma_chain(first + p + second + q, third, 0, 2, -1, 2);
    assert(code =~= first + p + second + q + third);
}

/// Plans that fill tables touch no stack values but their own, and ask for room for all of them.
pub proof fn law_table_plans_are_sound(
    lower_bound: usize,
    entries: Seq<(Value, Value)>,
    values: Seq<Value>,
    get_poll: LuaRef,
    yielding: LuaRef,
    pending: u64,
)
    ensures
        table_from_plan(lower_bound, entries).sound(),
        sequence_plan(lower_bound, values).sound(),
        environment_plan(get_poll, yielding, pending).sound(),
        asks_enough(table_from_plan(lower_bound, entries).steps),
        asks_enough(sequence_plan(lower_bound, values).steps),
        asks_enough(environment_plan(get_poll, yielding, pending).steps),
{
    let records = begin_ops(0, lower_bound as i32);
    let array = begin_ops(lower_bound as i32, 0);
    assert(keeps(records, 0, 1, 1)) by {
        reveal_with_fuel(in_frame, 3);
        reveal_with_fuel(depth_after, 3);
        reveal_with_fuel(highest, 3);
    }
    assert(keeps(array, 0, 1, 1)) by {
        reveal_with_fuel(in_frame, 3);
        reveal_with_fuel(depth_after, 3);
        reveal_with_fuel(highest, 3);
    }
    lemma_entries(entries, 1);
    lemma_elements(values, 1);
    lemma_chain(records, entries_ops(entries), 0, 1, 0, 3);
    lemma_chain(array, elements_ops(values), 0, 1, 0, 2);
    lemma_environment(get_poll, yielding, pending);
}

/// Answers to Lua touch no stack values but their own, push as many values as they say, and ask for
/// room for all of them; a future is returned in the room that the arguments have left.
pub proof fn law_answers_are_sound(values: Seq<Value>, table: LuaRef, nresults: i64)
    ensures
        keeps(return_ops(values), 0, values.len() as int, values.len() as int),
        keeps(pending_ops(), 0, 1, 1),
        keeps(ready_ops(table, nresults), 0, 3, 3),
        keeps(closure_ops(GcValue::Future, CFunction::PollFuture), 0, 1, 2),
        values.len() <= i32::MAX ==> asks_enough(return_ops(values)),
        asks_enough(pending_ops()),
        asks_enough(ready_ops(table, nresults)),
{
    let check: Seq<Op> = seq![InstrOf::CheckStack(values.len() as i32)];
    lemma_one(check[0], 0);
    lemma_push_all(values, 0);
    lemma_chain(
        check,
        push_all_ops(values),
        0,
        0,
        values.len() as int,
        values.len() as int,
    );
    assert(keeps(pending_ops(), 0, 1, 1)) by {
        reveal_with_fuel(in_frame, 3);
        reveal_with_fuel(depth_after, 3);
        reveal_with_fuel(highest, 3);
    }
    assert(keeps(ready_ops(table, nresults), 0, 3, 3)) by {
        reveal_with_fuel(in_frame, 6);
        reveal_with_fuel(depth_after, 6);
        reveal_with_fuel(highest, 6);
    }
    assert(keeps(closure_ops(GcValue::Future, CFunction::PollFuture), 0, 1, 2)) by {
        reveal_with_fuel(in_frame, 4);
        reveal_with_fuel(depth_after, 4);
        reveal_with_fuel(highest, 4);
    }
}

/// Loading a chunk touches no stack values but its own, and asks for room for the function that it
/// makes.
pub proof fn law_load_chunk_is_sound(chunk: ChunkView)
    ensures
        in_frame(load_chunk_plan(chunk).steps, 0, 0),
        accepted_mode(chunk.lua.safe, chunk.lua.version, chunk.source, chunk.mode) is Some
            ==> load_chunk_plan(chunk).sound(),
        accepted_mode(chunk.lua.safe, chunk.lua.version, chunk.source, chunk.mode) is Some
            && chunk.env is None ==> asks_enough(load_chunk_plan(chunk).steps),
{
    match accepted_mode(chunk.lua.safe, chunk.lua.version, chunk.source, chunk.mode) {
        Some(mode) => {
            let first = seq![
                Op::CheckStack(1),
                Op::LoadBuffer { source: chunk.source, name: chunk.name, mode },
            ];
            assert(keeps(first, 0, 1, 1)) by {
                reveal_with_fuel(in_frame, 3);
                reveal_with_fuel(depth_after, 3);
                reveal_with_fuel(highest, 3);
            }
            match chunk.env {
                Some(value) => {
                    let code = env_ops(chunk.lua.version, chunk.env);
                    let last = seq![code.last()];
                    assert(code =~= push_ops(value) + last);
                    lemma_push(value, 1);
                    lemma_one(last[0], 2);
                    lemma_chain(push_ops(value), last, 1, 1, -1, 1);
                    lemma_chain(first, code, 0, 1, 0, 2);
                },
                None => {
                    assert(first + env_ops(chunk.lua.version, chunk.env) =~= first);
                },
            }
        },
        None => {
            reveal_with_fuel(in_frame, 3);
        },
    }
}

/// Making a state touches no stack values but its own, and leaves none behind.
pub proof fn law_construction_is_sound(version: Version, features: Features, libs: StdLib)
    ensures
        base_plan().sound(),
        prepare_plan(features).sound(),
        store_plan().sound(),
        load_plan(version, libs).sound(),
        disable_plan(version).sound(),
        options_plan(version).sound(),
        depth_after(prepare_plan(features).steps, 0, 0) == 0,
        depth_after(store_plan().steps, 0, 0) == 0,
        depth_after(load_plan(version, libs).steps, 0, 0) == 0,
        asks_enough(disable_plan(version).steps),
{
    assert(base_plan().sound()) by {
        reveal_with_fuel(in_frame, 3);
        reveal_with_fuel(depth_after, 3);
        reveal_with_fuel(highest, 3);
    }
    assert(keeps(store_plan().steps, 0, 0, 1)) by {
        reveal_with_fuel(in_frame, 4);
        reveal_with_fuel(depth_after, 4);
        reveal_with_fuel(highest, 4);
    }
    assert(disable_plan(version).sound() && asks_enough(disable_plan(version).steps)) by {
        reveal_with_fuel(in_frame, 12);
        reveal_with_fuel(depth_after, 12);
        reveal_with_fuel(highest, 12);
    }
    assert(options_plan(version).sound()) by {
        reveal_with_fuel(in_frame, 6);
        reveal_with_fuel(depth_after, 6);
        reveal_with_fuel(highest, 6);
    }
    let open = open_ops(selected(version, libs));
    lemma_open(selected(version, libs));
    if version == Version::LuaJit {
        let stop: Seq<Op> = seq![load_plan(version, libs).steps[0]];
        let restart: Seq<Op> = seq![load_plan(version, libs).steps.last()];
        lemma_one(stop[0], 0);
        lemma_one(restart[0], 0);
        lemma_chain(stop, open, 0, 0, 0, 1);
        lemma_chain(stop + open, restart, 0, 0, 0, 1);
        assert(load_plan(version, libs).steps =~= stop + open + restart);
    }
    let (a, b, c, d) = (common_ops(), waker_ops(features), serde_ops(features), ref_thread_ops());
    assert(keeps(a, 0, 0, 1)) by {
        reveal_with_fuel(in_frame, 5);
        reveal_with_fuel(depth_after, 5);
        reveal_with_fuel(highest, 5);
    }
    assert(keeps(b, 0, 0, 1)) by {
        reveal_with_fuel(in_frame, 6);
        reveal_with_fuel(depth_after, 6);
        reveal_with_fuel(highest, 6);
    }
    assert(keeps(c, 0, 0, 1)) by {
        reveal_with_fuel(in_frame, 2);
        reveal_with_fuel(depth_after, 2);
        reveal_with_fuel(highest, 2);
    }
    assert(keeps(d, 0, 0, 1)) by {
        reveal_with_fuel(in_frame, 3);
        reveal_with_fuel(depth_after, 3);
        reveal_with_fuel(highest, 3);
    }
    lemma_chain(a, b, 0, 0, 0, 1);
    lemma_chain(a + b, c, 0, 0, 0, 1);
    lemma_chain(a + b + c, d, 0, 0, 0, 1);
}

proof fn lemma_metatable_tail(tail: Seq<Op>, n: int)
    requires
        0 <= n <= 3,
        tail.len() == 4,
        tail[0] is InitUserDataMetatable,
        tail[1] == Op::Pop(n as i32),
        tail[2] == Op::PushValue(Index::FromTop(1)),
        tail[3] == Op::MakeRef,
    ensures
        keeps(tail, 1 + n, -n, 1),
{
    assert(in_frame(tail, 4, 1) && depth_after(tail, 4, 1) == 1 && highest(tail, 4, 1) == 1);
    assert(in_frame(tail, 3, 2) && depth_after(tail, 3, 2) == 1 && highest(tail, 3, 2) == 2);
    assert(in_frame(tail, 2, 1) && depth_after(tail, 2, 1) == 1 && highest(tail, 2, 1) == 2);
    assert(in_frame(tail, 1, 1 + n) && depth_after(tail, 1, 1 + n) == 1 && highest(tail, 1, 1 + n)
        <= 2 + n);
}

/// Making a metatable touches no stack values but its own, leaves the metatable alone of them, and
/// asks for room for all of them.
pub proof fn law_metatable_is_sound(base: int, methods: MethodsView, fields: FieldsView)
    requires
        forall|i: int|
            0 <= i < meta_fillings(methods, fields).len() ==> (#[trigger] meta_fillings(
                methods,
                fields,
            )[i]).restricted is None,
    ensures
        metatable_plan(base, methods, fields).sound(),
        depth_after(metatable_plan(base, methods, fields).steps, 0, 0) == 1,
        asks_enough(metatable_plan(base, methods, fields).steps),
{
    let meta = meta_fillings(methods, fields);
    let getters = callbacks(fields.field_getters);
    let setters = callbacks(fields.field_setters);
    let calls = method_fillings(methods);
    let first: Seq<Op> = seq![InstrOf::CheckStack(13), InstrOf::CreateTable(0, meta.len() as i32)];
    let (x, y, z) = (count(getters), count(setters), count(calls));
    assert(keeps(first, 0, 1, 1)) by {
        reveal_with_fuel(in_frame, 3);
        reveal_with_fuel(depth_after, 3);
        reveal_with_fuel(highest, 3);
    }
    lemma_fill(meta, 1);
    lemma_chain(first, fill_ops(meta), 0, 1, 0, 5);
    lemma_extra_table(getters, 1);
    let c1 = first + fill_ops(meta);
    lemma_chain(c1, extra_table_ops(getters), 0, 1, x, 5);
    let c2 = c1 + extra_table_ops(getters);
    lemma_extra_table(setters, 1 + x);
    lemma_chain(c2, extra_table_ops(setters), 0, 1 + x, y, 5);
    let c3 = c2 + extra_table_ops(setters);
    lemma_extra_table(calls, 1 + x + y);
    lemma_chain(c3, extra_table_ops(calls), 0, 1 + x + y, z, 5);
    let c4 = c3 + extra_table_ops(calls);
    let tail = complete_ops(
        (base + 1) as i32,
        slot_of(getters, base + 2),
        slot_of(setters, base + 2 + x),
        slot_of(calls, base + 2 + x + y),
        (x + y + z) as i32,
    );
    lemma_metatable_tail(tail, x + y + z);
    lemma_chain(c4, tail, 0, 1 + x + y + z, -(x + y + z), 5);
    assert(metatable_ops(base, methods, fields) =~= c4 + tail);
}

/// Instructions that, given `depth` values of their own, touch no others and leave `delta` more of
/// their own at least.
pub open spec fn stays(code: Seq<Op>, depth: int, delta: int) -> bool {
    in_frame(code, 0, depth) && depth_after(code, 0, depth) >= depth + delta
}

proof fn lemma_deeper(code: Seq<Op>, i: int, depth: int, more: int)
    requires
        0 <= i <= code.len(),
        depth <= more,
        in_frame(code, i, depth),
    ensures
        in_frame(code, i, more),
        depth_after(code, i, more) == depth_after(code, i, depth) + more - depth,
    decreases code.len() - i,
{
    if i < code.len() {
        let step = pushes(code[i]) - pops(code[i]);
        lemma_deeper(code, i + 1, depth + step, more + step);
    }
}

proof fn lemma_stay(a: Seq<Op>, b: Seq<Op>, depth: int, x: int, y: int)
    requires
        stays(a, depth, x),
        stays(b, depth + x, y),
    ensures
        stays(a + b, depth, x + y),
{
    lemma_deeper(b, 0, depth + x, depth_after(a, 0, depth));
    lemma_chain_from(a, b, 0, depth);
}

proof fn lemma_fill_stays(fillings: Seq<Filling>, depth: int)
    requires
        1 <= depth,
    ensures
        stays(fill_ops(fillings), depth, 0),
    decreases fillings.len(),
{
    if fillings.len() > 0 {
        let last = fillings.last();
        let code = seq![last.push_op(), last.set_op()];
        lemma_fill_stays(fillings.drop_last(), depth);
        assert(stays(code, depth, 0)) by {
            reveal_with_fuel(in_frame, 3);
            reveal_with_fuel(depth_after, 3);
        }
        lemma_stay(fill_ops(fillings.drop_last()), code, depth, 0, 0);
    }
}

proof fn lemma_extra_table_stays(fillings: Seq<Filling>, depth: int)
    requires
        0 <= depth,
    ensures
        stays(extra_table_ops(fillings), depth, count(fillings)),
{
    if fillings.len() > 0 {
        let first: Seq<Op> = seq![InstrOf::CreateTable(0, fillings.len() as i32)];
        lemma_one(first[0], depth);
        lemma_fill_stays(fillings, depth + 1);
        lemma_stay(first, fill_ops(fillings), depth, 1, 0);
    }
}

proof fn lemma_metatable_stays(base: int, methods: MethodsView, fields: FieldsView)
    ensures
        stays(metatable_ops(base, methods, fields), 0, 1),
{
    let meta = meta_fillings(methods, fields);
    let getters = callbacks(fields.field_getters);
    let setters = callbacks(fields.field_setters);
    let calls = method_fillings(methods);
    let first: Seq<Op> = seq![InstrOf::CheckStack(13), InstrOf::CreateTable(0, meta.len() as i32)];
    let (x, y, z) = (count(getters), count(setters), count(calls));
    assert(stays(first, 0, 1)) by {
        reveal_with_fuel(in_frame, 3);
        reveal_with_fuel(depth_after, 3);
    }
    lemma_fill_stays(meta, 1);
    lemma_stay(first, fill_ops(meta), 0, 1, 0);
    let c1 = first + fill_ops(meta);
    lemma_extra_table_stays(getters, 1);
    lemma_stay(c1, extra_table_ops(getters), 0, 1, x);
    let c2 = c1 + extra_table_ops(getters);
    lemma_extra_table_stays(setters, 1 + x);
    lemma_stay(c2, extra_table_ops(setters), 0, 1 + x, y);
    let c3 = c2 + extra_table_ops(setters);
    lemma_extra_table_stays(calls, 1 + x + y);
    lemma_stay(c3, extra_table_ops(calls), 0, 1 + x + y, z);
    let c4 = c3 + extra_table_ops(calls);
    let tail = complete_ops(
        (base + 1) as i32,
        slot_of(getters, base + 2),
        slot_of(setters, base + 2 + x),
        slot_of(calls, base + 2 + x + y),
        (x + y + z) as i32,
    );
    lemma_metatable_tail(tail, x + y + z);
    lemma_stay(c4, tail, 0, 1 + x + y + z, -(x + y + z));
    assert(metatable_ops(base, methods, fields) =~= c4 + tail);
}

/// Making a userdata as a whole, with a metatable that is made or taken from the registry, touches no
/// stack values but its own and leaves the userdata; the same holds of making the metatable alone,
/// also if one of its fields may not be set.
pub proof fn law_userdata_is_sound(base: int, id: i32, methods: MethodsView, fields: FieldsView)
    ensures
        metatable_plan(base, methods, fields).sound(),
        userdata_plan(metatable_plan(base, methods, fields).steps).sound(),
        userdata_plan(registered_plan(id).steps).sound(),
{
    let push = userdata_push_plan().steps;
    let attach = userdata_attach_plan().steps;
    let made = metatable_plan(base, methods, fields).steps;
    let found = registered_plan(id).steps;
    assert(stays(push, 0, 1)) by {
        reveal_with_fuel(in_frame, 3);
        reveal_with_fuel(depth_after, 3);
    }
    lemma_one(attach[0], 2);
    assert(attach =~= seq![attach[0]]);
    lemma_one(found[0], 1);
    assert(found =~= seq![found[0]]);
    lemma_metatable_stays(base, methods, fields);
    lemma_deeper(made, 0, 0, 1);
    lemma_stay(push, made, 0, 1, 1);
    lemma_stay(push + made, attach, 0, 2, -1);
    lemma_stay(push, found, 0, 1, 1);
    lemma_stay(push + found, attach, 0, 2, -1);
}

} // verus!
