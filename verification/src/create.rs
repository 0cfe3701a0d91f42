use vstd::prelude::*;
use vstd::slice::*;

use crate::construct::{globals_instr, globals_op};
use crate::lua::Lua;
use crate::machine::{
    emit, field, globals, lemma_done, lemma_pair, lemma_run_concat, lemma_single,
    ops, table_key, with_field, Index, Instr, InstrOf, Machine, Op, Outcome, Plan, PlanView,
    Val,
};
use crate::stack::{denoted, law_push_value, push_ops, push_ref_ops, pushable};
use crate::startup::globals_found;
use crate::value::{LuaRef, RefKind, Value};
use crate::version::Version;

verus! {

/// A conversion that may need no work.
#[derive(Debug, PartialEq, Eq)]
pub enum Coerced<T> {
    /// The value is of the wanted type already.
    Known(T),
    /// Lua has to be asked.
    Ask(Plan),
}

/// A guarded plan with an outcome.
pub open spec fn guarded(steps: Seq<Op>, outcome: Outcome) -> PlanView {
    PlanView { steps, outcome, guard: Some(0) }
}

/// A guarded plan whose result is a handle.
pub open spec fn making(steps: Seq<Op>, kind: RefKind) -> PlanView {
    guarded(steps, Outcome::Reference(kind))
}

/// The plan that makes a string.
pub open spec fn string_plan(s: Seq<u8>) -> PlanView {
    making(seq![InstrOf::CheckStack(3), InstrOf::PushString(s)], RefKind::String)
}

/// The plan that makes an empty table.
pub open spec fn table_plan() -> PlanView {
    making(seq![InstrOf::CheckStack(2), InstrOf::NewTable], RefKind::Table)
}

/// The plan that makes an empty table with room for elements.
pub open spec fn capacity_plan(narr: i32, nrec: i32) -> PlanView {
    making(seq![InstrOf::CheckStack(4), InstrOf::CreateTable(narr, nrec)], RefKind::Table)
}

/// Instructions that begin a table that is to be filled.
pub open spec fn begin_ops(narr: i32, nrec: i32) -> Seq<Op> {
    seq![InstrOf::CheckStack(6), InstrOf::CreateTable(narr, nrec)]
}

/// Instructions that set a field of the table on top of the stack.
pub open spec fn entry_ops(key: Value, value: Value) -> Seq<Op> {
    push_ops(key) + push_ops(value) + seq![InstrOf::RawSet(Index::FromTop(3))]
}

/// Instructions that set fields of the table on top of the stack, in order.
pub open spec fn entries_ops(entries: Seq<(Value, Value)>) -> Seq<Op>
    decreases entries.len(),
{
    if entries.len() == 0 {
        Seq::empty()
    } else {
        entries_ops(entries.drop_last()) + entry_ops(entries.last().0, entries.last().1)
    }
}

/// Instructions that set an element of the sequence on top of the stack.
pub open spec fn element_ops(position: int, value: Value) -> Seq<Op> {
    push_ops(value) + seq![InstrOf::RawSetI(Index::FromTop(2), position as i64)]
}

/// Instructions that set the elements of the sequence on top of the stack, from one on.
pub open spec fn elements_ops(values: Seq<Value>) -> Seq<Op>
    decreases values.len(),
{
    if values.len() == 0 {
        Seq::empty()
    } else {
        elements_ops(values.drop_last()) + element_ops(values.len() as int, values.last())
    }
}

/// The plan that makes a table out of entries.
pub open spec fn table_from_plan(lower_bound: usize, entries: Seq<(Value, Value)>) -> PlanView {
    making(begin_ops(0, lower_bound as i32) + entries_ops(entries), RefKind::Table)
}

/// The plan that makes a sequence out of values.
pub open spec fn sequence_plan(lower_bound: usize, values: Seq<Value>) -> PlanView {
    making(begin_ops(lower_bound as i32, 0) + elements_ops(values), RefKind::Table)
}

/// The plan that makes a thread out of a function.
pub open spec fn thread_plan(func: LuaRef) -> PlanView {
    making(
        seq![InstrOf::CheckStack(2), InstrOf::NewThread] + push_ref_ops(func.index) + seq![
            InstrOf::MoveToThread(1),
        ],
        RefKind::Thread,
    )
}

/// The plan that gets the globals.
pub open spec fn globals_plan(version: Version) -> PlanView {
    making(seq![InstrOf::AssertStack(1), globals_op(version)], RefKind::Table)
}

/// The plan that gets the running thread.
pub open spec fn current_thread_plan() -> PlanView {
    making(seq![InstrOf::AssertStack(1), InstrOf::PushThread], RefKind::Thread)
}

/// The plan that converts a value to a string.
pub open spec fn to_string_plan(v: Value) -> PlanView {
    guarded(seq![InstrOf::CheckStack(5)] + push_ops(v) + seq![InstrOf::ToText], Outcome::Text)
}

/// The plan that converts a value to a number of some type.
pub open spec fn to_number_plan(v: Value, outcome: Outcome) -> PlanView {
    guarded(seq![InstrOf::CheckStack(2)] + push_ops(v), outcome)
}

impl Lua {
    /// Creates a Lua string, which can hold arbitrary bytes.
    pub fn create_string(&self, s: &[u8]) -> (plan: Plan)
        ensures
            plan@.steps[0] == Op::CheckStack(3),
            plan.outcome == Outcome::Reference(RefKind::String),
            plan.guard == Some(0usize),
            plan@ == string_plan(s@),
    {
        let mut steps: Vec<Instr> = Vec::new();
        emit(&mut steps, InstrOf::CheckStack(3));
        emit(&mut steps, InstrOf::PushString(slice_to_vec(s)));
        assert(ops(steps@) =~= string_plan(s@).steps);
        Plan { steps, outcome: Outcome::Reference(RefKind::String), guard: Some(0) }
    }

    /// Creates a new empty table.
    pub fn create_table(&self) -> (plan: Plan)
        ensures
            plan@.steps[0] == Op::CheckStack(2),
            plan.outcome == Outcome::Reference(RefKind::Table),
            plan.guard == Some(0usize),
            plan@ == table_plan(),
    {
        let mut steps: Vec<Instr> = Vec::new();
        emit(&mut steps, InstrOf::CheckStack(2));
        emit(&mut steps, InstrOf::NewTable);
        assert(ops(steps@) =~= table_plan().steps);
        Plan { steps, outcome: Outcome::Reference(RefKind::Table), guard: Some(0) }
    }

    /// Creates a new empty table, with room for `narr` elements of a sequence and `nrec` others.
    pub fn create_table_with_capacity(&self, narr: i32, nrec: i32) -> (plan: Plan)
        ensures
            plan@.steps[0] == Op::CheckStack(4),
            plan.outcome == Outcome::Reference(RefKind::Table),
            plan.guard == Some(0usize),
            plan@ == capacity_plan(narr, nrec),
    {
        let mut steps: Vec<Instr> = Vec::new();
        emit(&mut steps, InstrOf::CheckStack(4));
        emit(&mut steps, InstrOf::CreateTable(narr, nrec));
        assert(ops(steps@) =~= capacity_plan(narr, nrec).steps);
        Plan { steps, outcome: Outcome::Reference(RefKind::Table), guard: Some(0) }
    }

    /// Begins a table that is filled entry by entry; at least `lower_bound` entries are expected.
    pub fn begin_table(&self, lower_bound: usize) -> (steps: Vec<Instr>)
        ensures
            ops(steps@) == begin_ops(0, lower_bound as i32),
            ops(steps@) == seq![Op::CheckStack(6), Op::CreateTable(0, lower_bound as i32)],
    {
        let mut steps: Vec<Instr> = Vec::new();
        emit(&mut steps, InstrOf::CheckStack(6));
        emit(&mut steps, InstrOf::CreateTable(0, #[verifier::truncate] (lower_bound as i32)));
        assert(ops(steps@) =~= begin_ops(0, lower_bound as i32));
        steps
    }

    /// Begins a sequence that is filled value by value; at least `lower_bound` values are expected.
    pub fn begin_sequence(&self, lower_bound: usize) -> (steps: Vec<Instr>)
        ensures
            ops(steps@) == begin_ops(lower_bound as i32, 0),
            ops(steps@) == seq![Op::CheckStack(6), Op::CreateTable(lower_bound as i32, 0)],
    {
        let mut steps: Vec<Instr> = Vec::new();
        emit(&mut steps, InstrOf::CheckStack(6));
        emit(&mut steps, InstrOf::CreateTable(#[verifier::truncate] (lower_bound as i32), 0));
        assert(ops(steps@) =~= begin_ops(lower_bound as i32, 0));
        steps
    }

    /// Adds the instructions for the next entry of a table.
    pub fn table_entry(&self, steps: &mut Vec<Instr>, key: Value, value: Value)
        requires
            key.owned_by(self.extra),
            value.owned_by(self.extra),
        ensures
            ops(final(steps)@) == ops(old(steps)@) + entry_ops(key, value),
    {
        let ghost before = ops(steps@);
        self.push_value(steps, key);
        self.push_value(steps, value);
        emit(steps, InstrOf::RawSet(Index::FromTop(3)));
        assert(ops(steps@) =~= before + entry_ops(key, value));
    }

    /// Adds the instructions for the value that follows `count` others in a sequence.
    pub fn sequence_element(&self, steps: &mut Vec<Instr>, count: usize, value: Value)
        requires
            value.owned_by(self.extra),
            count < i64::MAX,
        ensures
            ops(final(steps)@) == ops(old(steps)@) + element_ops(count + 1, value),
    {
        let ghost before = ops(steps@);
        self.push_value(steps, value);
        emit(steps, InstrOf::RawSetI(Index::FromTop(2), count as i64 + 1));
        assert(ops(steps@) =~= before + element_ops(count + 1, value));
    }

    /// Creates a table and fills it with entries; at least `lower_bound` were announced.
    pub fn create_table_from(&self, lower_bound: usize, entries: &[(Value, Value)]) -> (plan: Plan)
        requires
            forall|i: int|
                0 <= i < entries@.len() ==> (#[trigger] entries@[i]).0.owned_by(self.extra)
                    && entries@[i].1.owned_by(self.extra),
        ensures
            plan.outcome == Outcome::Reference(RefKind::Table),
            plan.guard == Some(0usize),
            plan@ == table_from_plan(lower_bound, entries@),
    {
        let mut steps = self.begin_table(lower_bound);
        let ghost start = ops(steps@);
        let mut i: usize = 0;
        proof {
            assert(start + entries_ops(entries@.take(0)) =~= start);
        }
        while i < entries.len()
            invariant
                i <= entries@.len(),
                forall|i: int|
                    0 <= i < entries@.len() ==> (#[trigger] entries@[i]).0.owned_by(self.extra)
                        && entries@[i].1.owned_by(self.extra),
                ops(steps@) == start + entries_ops(entries@.take(i as int)),
            decreases entries@.len() - i,
        {
            let (key, value) = entries[i];
            self.table_entry(&mut steps, key, value);
            proof {
                let next = entries@.take(i + 1);
                assert(next.drop_last() =~= entries@.take(i as int));
                assert(next.last() == (key, value));
                assert(ops(steps@) =~= start + entries_ops(next));
            }
            i = i + 1;
        }
        assert(entries@.take(entries@.len() as int) =~= entries@);
        Plan { steps, outcome: Outcome::Reference(RefKind::Table), guard: Some(0) }
    }

    /// Creates a table from values, using `1..` as the keys; at least `lower_bound` values were
    /// announced.
    pub fn create_sequence_from(&self, lower_bound: usize, values: &[Value]) -> (plan: Plan)
        requires
            forall|i: int| 0 <= i < values@.len() ==> (#[trigger] values@[i]).owned_by(self.extra),
            values@.len() <= i64::MAX,
        ensures
            plan.outcome == Outcome::Reference(RefKind::Table),
            plan.guard == Some(0usize),
            plan@ == sequence_plan(lower_bound, values@),
    {
        let mut steps = self.begin_sequence(lower_bound);
        let ghost start = ops(steps@);
        let mut i: usize = 0;
        proof {
            assert(start + elements_ops(values@.take(0)) =~= start);
        }
        while i < values.len()
            invariant
                i <= values@.len() <= i64::MAX,
                forall|i: int|
                    0 <= i < values@.len() ==> (#[trigger] values@[i]).owned_by(self.extra),
                ops(steps@) == start + elements_ops(values@.take(i as int)),
            decreases values@.len() - i,
        {
            let value = values[i];
            self.sequence_element(&mut steps, i, value);
            proof {
                let next = values@.take(i + 1);
                assert(next.drop_last() =~= values@.take(i as int));
                assert(next.last() == value);
                assert(ops(steps@) =~= start + elements_ops(next));
            }
            i = i + 1;
        }
        assert(values@.take(values@.len() as int) =~= values@);
        Plan { steps, outcome: Outcome::Reference(RefKind::Table), guard: Some(0) }
    }

    /// Wraps a Lua function into a new thread (or coroutine).
    pub fn create_thread(&self, func: &LuaRef) -> (plan: Plan)
        requires
            func.extra == self.extra,
        ensures
            plan@.steps[0] == Op::CheckStack(2),
            plan.outcome == Outcome::Reference(RefKind::Thread),
            plan.guard == Some(0usize),
            plan@ == thread_plan(*func),
    {
        let mut steps: Vec<Instr> = Vec::new();
        emit(&mut steps, InstrOf::CheckStack(2));
        emit(&mut steps, InstrOf::NewThread);
        self.push_ref(&mut steps, func);
        emit(&mut steps, InstrOf::MoveToThread(1));
        assert(ops(steps@) =~= thread_plan(*func).steps);
        Plan { steps, outcome: Outcome::Reference(RefKind::Thread), guard: Some(0) }
    }

    /// Gets the global environment.
    pub fn globals(&self) -> (plan: Plan)
        ensures
            plan@.steps[0] == Op::AssertStack(1),
            plan.outcome == Outcome::Reference(RefKind::Table),
            plan.guard == Some(0usize),
            plan@ == globals_plan(self.version),
    {
        let mut steps: Vec<Instr> = Vec::new();
        emit(&mut steps, InstrOf::AssertStack(1));
        emit(&mut steps, globals_instr(self.version));
        assert(ops(steps@) =~= globals_plan(self.version).steps);
        Plan { steps, outcome: Outcome::Reference(RefKind::Table), guard: Some(0) }
    }

    /// Gets the active thread.
    pub fn current_thread(&self) -> (plan: Plan)
        ensures
            plan@.steps[0] == Op::AssertStack(1),
            plan.outcome == Outcome::Reference(RefKind::Thread),
            plan.guard == Some(0usize),
            plan@ == current_thread_plan(),
    {
        let mut steps: Vec<Instr> = Vec::new();
        emit(&mut steps, InstrOf::AssertStack(1));
        emit(&mut steps, InstrOf::PushThread);
        assert(ops(steps@) =~= current_thread_plan().steps);
        Plan { steps, outcome: Outcome::Reference(RefKind::Thread), guard: Some(0) }
    }

    /// Attempts to coerce a Lua value into a string; a string is one already.
    pub fn coerce_string(&self, v: Value) -> (r: Coerced<LuaRef>)
        requires
            v.owned_by(self.extra),
        ensures
            match v {
                Value::String(s) => r == Coerced::Known(s),
                _ => r matches Coerced::Ask(plan) && plan@ == to_string_plan(v),
            },
            r matches Coerced::Ask(plan) ==> plan@.steps[0] == Op::CheckStack(5) && plan.outcome
                == Outcome::Text && plan.guard == Some(0usize),
    {
        match v {
            Value::String(s) => Coerced::Known(s),
            _ => {
                let mut steps: Vec<Instr> = Vec::new();
                emit(&mut steps, InstrOf::CheckStack(5));
                self.push_value(&mut steps, v);
                emit(&mut steps, InstrOf::ToText);
                assert(ops(steps@) =~= to_string_plan(v).steps);
                Coerced::Ask(Plan { steps, outcome: Outcome::Text, guard: Some(0) })
            },
        }
    }

    fn number_plan(&self, v: Value, outcome: Outcome) -> (plan: Plan)
        requires
            v.owned_by(self.extra),
        ensures
            plan@.steps[0] == Op::CheckStack(2),
            plan@ == to_number_plan(v, outcome),
            plan.outcome == outcome,
            plan.guard == Some(0usize),
    {
        let mut steps: Vec<Instr> = Vec::new();
        emit(&mut steps, InstrOf::CheckStack(2));
        self.push_value(&mut steps, v);
        assert(ops(steps@) =~= to_number_plan(v, outcome).steps);
        Plan { steps, outcome, guard: Some(0) }
    }

    /// Attempts to coerce a Lua value into an integer; an integer is one already.
    pub fn coerce_integer(&self, v: Value) -> (r: Coerced<i64>)
        requires
            v.owned_by(self.extra),
        ensures
            match v {
                Value::Integer(i) => r == Coerced::Known(i),
                _ => r matches Coerced::Ask(plan) && plan@ == to_number_plan(v, Outcome::Integer),
            },
            r matches Coerced::Ask(plan) ==> plan.outcome == Outcome::Integer,
    {
        match v {
            Value::Integer(i) => Coerced::Known(i),
            _ => Coerced::Ask(self.number_plan(v, Outcome::Integer)),
        }
    }

    /// Attempts to coerce a Lua value into a number, which is held by its bits; a number is one
    /// already.
    pub fn coerce_number(&self, v: Value) -> (r: Coerced<u64>)
        requires
            v.owned_by(self.extra),
        ensures
            match v {
                Value::Number(n) => r == Coerced::Known(n),
                _ => r matches Coerced::Ask(plan) && plan@ == to_number_plan(v, Outcome::Number),
            },
            r matches Coerced::Ask(plan) ==> plan.outcome == Outcome::Number,
    {
        match v {
            Value::Number(n) => Coerced::Known(n),
            _ => Coerced::Ask(self.number_plan(v, Outcome::Number)),
        }
    }

    /// The integer, or the bits of the number, that Lua converts a value to, if it says that it can.
    pub fn coerced<T>(converted: i32, value: T) -> (r: Option<T>)
        ensures
            r == (if converted == 0 {
                None
            } else {
                Some(value)
            }),
    {
        if converted == 0 {
            None
        } else {
            Some(value)
        }
    }
}

/// A new table on top of the stack.
pub open spec fn with_table(m: Machine) -> Machine {
    Machine {
        tables: m.tables.insert(m.fresh, Map::empty()),
        fresh: m.fresh + 1,
        ..m.push(Val::Table(m.fresh))
    }
}

/// The key that an entry sets.
pub open spec fn entry_key(m: Machine, entry: (Value, Value)) -> Option<Val> {
    table_key(denoted(m, entry.0))
}

/// Entries that a table can be filled with: no key is nil or no number.
pub open spec fn entries_fit(m: Machine, entries: Seq<(Value, Value)>) -> bool {
    forall|i: int|
        0 <= i < entries.len() ==> pushable(m, (#[trigger] entries[i]).0) && pushable(
            m,
            entries[i].1,
        ) && entry_key(m, entries[i]) is Some
}

/// The fields that entries give a table, the later ones prevailing.
pub open spec fn fields_of(m: Machine, entries: Seq<(Value, Value)>) -> Map<Val, Val>
    decreases entries.len(),
{
    if entries.len() == 0 {
        Map::empty()
    } else {
        with_field(
            fields_of(m, entries.drop_last()),
            entry_key(m, entries.last())->0,
            denoted(m, entries.last().1),
        )
    }
}

/// A table of values under the keys from one on.
pub open spec fn sequence_of(m: Machine, values: Seq<Value>) -> Map<Val, Val>
    decreases values.len(),
{
    if values.len() == 0 {
        Map::empty()
    } else {
        with_field(
            sequence_of(m, values.drop_last()),
            Val::Integer(values.len() as i64),
            denoted(m, values.last()),
        )
    }
}

proof fn lemma_begin(m: Machine, narr: i32, nrec: i32)
    requires
        m.roomy(),
    ensures
        m.run(begin_ops(narr, nrec)) == Some(with_table(m)),
{
    lemma_pair(m, begin_ops(narr, nrec), m, with_table(m));
}

/// A machine with a table of given fields on top of the stack.
pub open spec fn holding(m: Machine, fields: Map<Val, Val>) -> Machine {
    Machine { tables: m.tables.insert(m.fresh, fields), ..with_table(m) }
}

proof fn lemma_entry(m: Machine, fields: Map<Val, Val>, key: Value, value: Value)
    requires
        pushable(m, key),
        pushable(m, value),
        entry_key(m, (key, value)) is Some,
    ensures
        holding(m, fields).run(entry_ops(key, value)) == Some(
            holding(m, with_field(fields, entry_key(m, (key, value))->0, denoted(m, value))),
        ),
{
    let h = holding(m, fields);
    let last: Seq<Op> = seq![InstrOf::RawSet(Index::FromTop(3))];
    lemma_run_concat(h, push_ops(key) + push_ops(value), last);
    lemma_run_concat(h, push_ops(key), push_ops(value));
    law_push_value(h, key);
    let h1 = h.push(denoted(m, key));
    law_push_value(h1, value);
    let h2 = h1.push(denoted(m, value));
    let set = entry_key(m, (key, value))->0;
    let after = holding(m, with_field(fields, set, denoted(m, value)));
    assert(h2.stack[h2.height() - 2] == denoted(m, key));
    assert(h2.stack[h2.height() - 3] == Val::Table(m.fresh));
    assert(h2.stack.take(h2.height() - 2) =~= h.stack);
    assert((h2.step(last[0])->0).tables =~= after.tables);
    lemma_single(h2, last[0], after);
}

proof fn lemma_entries(m: Machine, entries: Seq<(Value, Value)>)
    requires
        entries_fit(m, entries),
    ensures
        with_table(m).run(entries_ops(entries)) == Some(holding(m, fields_of(m, entries))),
    decreases entries.len(),
{
    if entries.len() == 0 {
        assert(holding(m, Map::empty()).tables =~= with_table(m).tables);
        lemma_done(with_table(m), entries_ops(entries), 0);
    } else {
        let rest = entries.drop_last();
        let (key, value) = entries.last();
        assert(entries[entries.len() - 1] == (key, value));
        assert(entries_fit(m, rest)) by {
            assert forall|i: int| 0 <= i < rest.len() implies pushable(m, (#[trigger] rest[i]).0)
                && pushable(m, rest[i].1) && entry_key(m, rest[i]) is Some by {
                assert(rest[i] == entries[i]);
            }
        }
        lemma_entries(m, rest);
        lemma_run_concat(with_table(m), entries_ops(rest), entry_ops(key, value));
        lemma_entry(m, fields_of(m, rest), key, value);
    }
}

/// Entry `i` is the last one that sets its key.
pub open spec fn last_of_its_key(m: Machine, entries: Seq<(Value, Value)>, i: int) -> bool {
    &&& 0 <= i < entries.len()
    &&& forall|j: int|
        i < j < entries.len() ==> entry_key(m, #[trigger] entries[j]) != entry_key(m, entries[i])
}

proof fn lemma_last_entry_prevails(m: Machine, entries: Seq<(Value, Value)>, i: int)
    requires
        entries_fit(m, entries),
        last_of_its_key(m, entries, i),
    ensures
        field(fields_of(m, entries), entry_key(m, entries[i])->0) == denoted(m, entries[i].1),
    decreases entries.len(),
{
    let rest = entries.drop_last();
    let last = entries[entries.len() - 1];
    if i < rest.len() {
        assert forall|j: int| i < j < rest.len() implies entry_key(m, #[trigger] rest[j])
            != entry_key(m, rest[i]) by {
            assert(rest[j] == entries[j]);
        }
        assert forall|k: int| 0 <= k < rest.len() implies pushable(m, (#[trigger] rest[k]).0)
            && pushable(m, rest[k].1) && entry_key(m, rest[k]) is Some by {
            assert(rest[k] == entries[k]);
        }
        lemma_last_entry_prevails(m, rest, i);
        assert(entry_key(m, last) != entry_key(m, entries[i]));
        assert(entry_key(m, last) is Some);
    }
}

proof fn lemma_no_other_fields(m: Machine, entries: Seq<(Value, Value)>, key: Val)
    requires
        entries_fit(m, entries),
        field(fields_of(m, entries), key) != Val::Nil,
    ensures
        exists|i: int|
            0 <= i < entries.len() && entry_key(m, #[trigger] entries[i]) == Some(key),
    decreases entries.len(),
{
    if entries.len() > 0 {
        let rest = entries.drop_last();
        let last = entries[entries.len() - 1];
        assert(entry_key(m, last) is Some);
        if entry_key(m, last) != Some(key) {
            assert forall|k: int| 0 <= k < rest.len() implies pushable(m, (#[trigger] rest[k]).0)
                && pushable(m, rest[k].1) && entry_key(m, rest[k]) is Some by {
                assert(rest[k] == entries[k]);
            }
            lemma_no_other_fields(m, rest, key);
            let i = choose|i: int|
                0 <= i < rest.len() && entry_key(m, #[trigger] rest[i]) == Some(key);
            assert(entries[i] == rest[i]);
        }
    }
}

/// A table made out of entries is new and has the fields that the entries give it: of the entries
/// that set the same key the last prevails, one that sets nil leaves no field, and there are no
/// other fields. Nothing else has changed.
pub proof fn law_table_from(m: Machine, lower_bound: usize, entries: Seq<(Value, Value)>)
    requires
        m.roomy(),
        entries_fit(m, entries),
    ensures
        m.run(table_from_plan(lower_bound, entries).steps) == Some(
            holding(m, fields_of(m, entries)),
        ),
        forall|i: int| #[trigger]
            last_of_its_key(m, entries, i) ==> field(
                fields_of(m, entries),
                entry_key(m, entries[i])->0,
            ) == denoted(m, entries[i].1),
        forall|key: Val| #[trigger]
            field(fields_of(m, entries), key) != Val::Nil ==> exists|i: int|
                0 <= i < entries.len() && entry_key(m, #[trigger] entries[i]) == Some(key),
{
    assert forall|i: int| #[trigger] last_of_its_key(m, entries, i) implies field(
        fields_of(m, entries),
        entry_key(m, entries[i])->0,
    ) == denoted(m, entries[i].1) by {
        lemma_last_entry_prevails(m, entries, i);
    }
    assert forall|key: Val| #[trigger]
        field(fields_of(m, entries), key) != Val::Nil implies exists|i: int|
        0 <= i < entries.len() && entry_key(m, #[trigger] entries[i]) == Some(key) by {
        lemma_no_other_fields(m, entries, key);
    }
    lemma_begin(m, 0, lower_bound as i32);
    lemma_run_concat(m, begin_ops(0, lower_bound as i32), entries_ops(entries));
    lemma_entries(m, entries);
}

proof fn lemma_entry_without_key(m: Machine, fields: Map<Val, Val>, key: Value, value: Value)
    requires
        pushable(m, key),
        pushable(m, value),
        entry_key(m, (key, value)) is None,
    ensures
        holding(m, fields).run(entry_ops(key, value)) is None,
{
    let h = holding(m, fields);
    let last: Seq<Op> = seq![InstrOf::RawSet(Index::FromTop(3))];
    lemma_run_concat(h, push_ops(key) + push_ops(value), last);
    lemma_run_concat(h, push_ops(key), push_ops(value));
    law_push_value(h, key);
    let h1 = h.push(denoted(m, key));
    law_push_value(h1, value);
    let h2 = h1.push(denoted(m, value));
    assert(h2.stack[h2.height() - 2] == denoted(m, key));
    assert(h2.step(last[0]) is None);
    reveal(Machine::run_from);
}

proof fn lemma_entries_without_key(m: Machine, entries: Seq<(Value, Value)>, i: int)
    requires
        forall|k: int|
            0 <= k < entries.len() ==> pushable(m, (#[trigger] entries[k]).0) && pushable(
                m,
                entries[k].1,
            ),
        0 <= i < entries.len(),
        entry_key(m, entries[i]) is None,
    ensures
        with_table(m).run(entries_ops(entries)) is None,
    decreases entries.len(),
{
    let rest = entries.drop_last();
    let (key, value) = entries.last();
    assert(entries[entries.len() - 1] == (key, value));
    lemma_run_concat(with_table(m), entries_ops(rest), entry_ops(key, value));
    assert forall|k: int| 0 <= k < rest.len() implies pushable(m, (#[trigger] rest[k]).0)
        && pushable(m, rest[k].1) by {
        assert(rest[k] == entries[k]);
    }
    if exists|k: int| 0 <= k < rest.len() && entry_key(m, #[trigger] rest[k]) is None {
        let k = choose|k: int| 0 <= k < rest.len() && entry_key(m, #[trigger] rest[k]) is None;
        lemma_entries_without_key(m, rest, k);
    } else {
        assert(entries_fit(m, rest));
        lemma_entries(m, rest);
        if i < rest.len() {
            assert(rest[i] == entries[i]);
        }
        lemma_entry_without_key(m, fields_of(m, rest), key, value);
    }
}

/// No table is made out of entries one of which has a key that is nil or no number.
pub proof fn law_no_table_without_keys(
    m: Machine,
    lower_bound: usize,
    entries: Seq<(Value, Value)>,
    i: int,
)
    requires
        m.roomy(),
        forall|k: int|
            0 <= k < entries.len() ==> pushable(m, (#[trigger] entries[k]).0) && pushable(
                m,
                entries[k].1,
            ),
        0 <= i < entries.len(),
        entry_key(m, entries[i]) is None,
    ensures
        m.run(table_from_plan(lower_bound, entries).steps) is None,
{
    lemma_begin(m, 0, lower_bound as i32);
    lemma_run_concat(m, begin_ops(0, lower_bound as i32), entries_ops(entries));
    lemma_entries_without_key(m, entries, i);
}

proof fn lemma_element(m: Machine, fields: Map<Val, Val>, position: int, value: Value)
    requires
        pushable(m, value),
    ensures
        holding(m, fields).run(element_ops(position, value)) == Some(
            holding(m, with_field(fields, Val::Integer(position as i64), denoted(m, value))),
        ),
{
    let h = holding(m, fields);
    let last: Seq<Op> = seq![InstrOf::RawSetI(Index::FromTop(2), position as i64)];
    lemma_run_concat(h, push_ops(value), last);
    law_push_value(h, value);
    let h1 = h.push(denoted(m, value));
    let after = holding(m, with_field(fields, Val::Integer(position as i64), denoted(m, value)));
    assert(h1.stack[h1.height() - 2] == Val::Table(m.fresh));
    assert(h1.stack.take(h1.height() - 1) =~= h.stack);
    assert((h1.step(last[0])->0).tables =~= after.tables);
    lemma_single(h1, last[0], after);
}

proof fn lemma_elements(m: Machine, values: Seq<Value>)
    requires
        forall|i: int| 0 <= i < values.len() ==> pushable(m, #[trigger] values[i]),
    ensures
        with_table(m).run(elements_ops(values)) == Some(holding(m, sequence_of(m, values))),
    decreases values.len(),
{
    if values.len() == 0 {
        assert(holding(m, Map::empty()).tables =~= with_table(m).tables);
        lemma_done(with_table(m), elements_ops(values), 0);
    } else {
        let rest = values.drop_last();
        let value = values.last();
        assert(values[values.len() - 1] == value);
        assert forall|i: int| 0 <= i < rest.len() implies pushable(m, #[trigger] rest[i]) by {
            assert(rest[i] == values[i]);
        }
        lemma_elements(m, rest);
        lemma_run_concat(
            with_table(m),
            elements_ops(rest),
            element_ops(values.len() as int, value),
        );
        lemma_element(m, sequence_of(m, rest), values.len() as int, value);
    }
}

/// In a sequence, the value at position `i` is the field under the key `i + 1`, and there are no
/// other fields.
pub proof fn lemma_sequence_fields(m: Machine, values: Seq<Value>, key: Val)
    requires
        values.len() <= i64::MAX,
    ensures
        field(sequence_of(m, values), key) == match key {
            Val::Integer(k) => if 1 <= k <= values.len() {
                denoted(m, values[k - 1])
            } else {
                Val::Nil
            },
            _ => Val::Nil,
        },
    decreases values.len(),
{
    if values.len() > 0 {
        lemma_sequence_fields(m, values.drop_last(), key);
    }
}

/// A sequence made out of values is a new table with the values under the keys from one on and no
/// other fields; nothing else has changed.
pub proof fn law_sequence_from(m: Machine, lower_bound: usize, values: Seq<Value>)
    requires
        m.roomy(),
        forall|i: int| 0 <= i < values.len() ==> pushable(m, #[trigger] values[i]),
        values.len() <= i64::MAX,
    ensures
        m.run(sequence_plan(lower_bound, values).steps) == Some(
            holding(m, sequence_of(m, values)),
        ),
        forall|i: int|
            #![trigger values[i]]
            0 <= i < values.len() ==> field(sequence_of(m, values), Val::Integer((i + 1) as i64))
                == denoted(m, values[i]),
        forall|k: i64| #[trigger]
            field(sequence_of(m, values), Val::Integer(k)) != Val::Nil ==> 1 <= k <= values.len(),
{
    lemma_begin(m, lower_bound as i32, 0);
    lemma_run_concat(m, begin_ops(lower_bound as i32, 0), elements_ops(values));
    lemma_elements(m, values);
    assert forall|i: int|
        #![trigger values[i]]
        0 <= i < values.len() implies field(sequence_of(m, values), Val::Integer((i + 1) as i64))
        == denoted(m, values[i]) by {
        lemma_sequence_fields(m, values, Val::Integer((i + 1) as i64));
    }
    assert forall|k: i64| #[trigger]
        field(sequence_of(m, values), Val::Integer(k)) != Val::Nil implies 1 <= k
        <= values.len() by {
        lemma_sequence_fields(m, values, Val::Integer(k));
    }
}

/// A thread made out of a function is new and has the function, and nothing else, on its stack.
pub proof fn law_thread_has_its_function(m: Machine, func: LuaRef)
    requires
        m.roomy(),
        0 < func.index <= m.refs.len(),
    ensures
        m.run(thread_plan(func).steps) is Some,
        ({
            let after = m.run(thread_plan(func).steps)->0;
            &&& after.stack == m.stack.push(Val::Thread(m.fresh))
            &&& after.threads[m.fresh] == seq![m.refs[func.index - 1]]
            &&& after == (Machine {
                threads: m.threads.insert(m.fresh, seq![m.refs[func.index - 1]]),
                fresh: m.fresh + 1,
                ..m.push(Val::Thread(m.fresh))
            })
        }),
{
    let first: Seq<Op> = seq![InstrOf::CheckStack(2), InstrOf::NewThread];
    let push = push_ref_ops(func.index);
    let last: Seq<Op> = seq![InstrOf::MoveToThread(1)];
    let moved = m.refs[func.index - 1];
    lemma_run_concat(m, first + push, last);
    lemma_run_concat(m, first, push);
    let begun = Machine {
        threads: m.threads.insert(m.fresh, Seq::empty()),
        fresh: m.fresh + 1,
        ..m.push(Val::Thread(m.fresh))
    };
    lemma_pair(m, first, m, begun);
    law_push_value(begun, Value::Function(func));
    let pushed = begun.push(moved);
    let end = Machine { threads: m.threads.insert(m.fresh, seq![moved]), ..begun };
    assert(pushed.stack[pushed.height() - 2] == Val::Thread(m.fresh));
    assert(pushed.stack.take(pushed.height() - 1) =~= begun.stack);
    assert(pushed.threads[m.fresh] + pushed.stack.skip(pushed.height() - 1) =~= seq![moved]);
    assert(pushed.threads.insert(m.fresh, seq![moved]) =~= end.threads);
    lemma_single(pushed, last[0], end);
}

/// The globals are the table of globals, wherever the version of Lua keeps it.
pub proof fn law_globals(m: Machine, version: Version)
    requires
        globals_found(m, version),
    ensures
        m.run(globals_plan(version).steps) == Some(m.push(Val::Table(globals()))),
{
    lemma_pair(m, globals_plan(version).steps, m, m.push(Val::Table(globals())));
}

/// Converting to a string turns an integer or a number into its text and leaves every other value
/// what it is.
pub proof fn law_coerce_string(m: Machine, v: Value)
    requires
        m.roomy(),
        pushable(m, v),
    ensures
        m.run(to_string_plan(v).steps) is Some,
        (m.run(to_string_plan(v).steps)->0).top() == match denoted(m, v) {
            Val::Integer(_) | Val::Number(_) => Val::String(
                (m.world.numeral)(denoted(m, v)),
            ),
            other => other,
        },
        (m.run(to_string_plan(v).steps)->0).stack.drop_last() == m.stack,
{
    let first: Seq<Op> = seq![InstrOf::CheckStack(5)];
    let last: Seq<Op> = seq![InstrOf::ToText];
    lemma_run_concat(m, first + push_ops(v), last);
    lemma_run_concat(m, first, push_ops(v));
    law_push_value(m, v);
    lemma_single(m, first[0], m);
    let pushed = m.push(denoted(m, v));
    assert(pushed.stack.drop_last() =~= m.stack);
    assert(pushed.stack.take(pushed.height() - 1) =~= m.stack);
    let after = pushed.step(last[0])->0;
    lemma_single(pushed, last[0], after);
    assert(after.stack.drop_last() =~= m.stack);
}

} // verus!
