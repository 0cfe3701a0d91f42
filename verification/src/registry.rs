use vstd::prelude::*;
use vstd::slice::*;

use crate::create::guarded;
use crate::error::{refused, Error, ErrorOf, ErrorView};
use crate::lua::{ExtraData, ExtraView, Lua};
use crate::machine::{
    emit, field, lemma_done, lemma_next, lemma_run_concat, lemma_single, ops, registry, unused,
    Index, Instr, InstrOf, LUA_REFNIL, Machine, Op, Outcome, Plan, PlanView, Val,
};
use crate::stack::{denoted, law_push_value, push_ops, pushable};
use crate::value::Value;

verus! {

/// A key to a value in the registry.
///
/// `unref_list` identifies the list that the key goes to when it is dropped, and with it the main
/// state that the key belongs to.
#[derive(Debug, PartialEq, Eq, Structural)]
pub struct RegistryKey {
    pub registry_id: i32,
    pub unref_list: u64,
}

/// The key of the main state of a handle for a registry integer.
pub open spec fn key_of(lua: Lua, registry_id: i32) -> RegistryKey {
    RegistryKey { registry_id, unref_list: lua.extra }
}

/// Whether a key belongs to the main state of a handle.
pub open spec fn owns(lua: Lua, key: RegistryKey) -> bool {
    key.unref_list == lua.extra
}

/// The plan that sets a named value.
pub open spec fn set_named_plan(name: Seq<u8>, t: Value) -> PlanView {
    guarded(
        seq![InstrOf::CheckStack(5)] + push_ops(t) + seq![
            InstrOf::RawSetField(Index::Registry, name),
        ],
        Outcome::Unit,
    )
}

/// The plan that gets a named value.
pub open spec fn named_plan(name: Seq<u8>) -> PlanView {
    guarded(
        seq![InstrOf::CheckStack(3), InstrOf::PushString(name), InstrOf::RawGet(Index::Registry)],
        Outcome::Value,
    )
}

/// The plan that puts a value into the registry under a new integer.
pub open spec fn create_value_plan(t: Value) -> PlanView {
    guarded(
        seq![InstrOf::CheckStack(4)] + push_ops(t) + seq![InstrOf::MakeRef],
        Outcome::RegistryId,
    )
}

/// The plan that gets the value under a registry integer.
pub open spec fn value_plan(registry_id: i32) -> PlanView {
    guarded(
        seq![InstrOf::CheckStack(1), InstrOf::RawGetI(Index::Registry, registry_id as i64)],
        Outcome::Value,
    )
}

/// The plan that gives a registry integer back.
pub open spec fn remove_plan(registry_id: i32) -> PlanView {
    PlanView { steps: seq![InstrOf::Unref(registry_id)], outcome: Outcome::Unit, guard: None }
}

/// Instructions that give registry integers back.
pub open spec fn unref_ops(ids: Seq<i32>) -> Seq<Op> {
    ids.map_values(|id: i32| InstrOf::Unref(id))
}

impl ExtraView {
    /// After a key of this main state was dropped.
    pub open spec fn with_dropped_key(self, registry_id: i32) -> ExtraView {
        ExtraView {
            registry_unref_list: match self.registry_unref_list {
                Some(list) => Some(list.push(registry_id)),
                None => None,
            },
            ..self
        }
    }
}

impl ExtraData {
    /// Notes that a key of this main state was dropped; once the state is closed nothing is noted.
    pub fn drop_registry_key(&mut self, registry_id: i32)
        ensures
            final(self)@ == old(self)@.with_dropped_key(registry_id),
            old(self)@.registry_unref_list matches Some(list) ==> final(self)@ == (ExtraView {
                registry_unref_list: Some(list.push(registry_id)),
                ..old(self)@
            }),
            old(self)@.registry_unref_list is None ==> final(self)@ == old(self)@,
    {
        match self.registry_unref_list.take() {
            Some(list) => {
                let mut list = list;
                list.push(registry_id);
                self.registry_unref_list = Some(list);
            },
            None => {},
        }
    }
}

impl Lua {
    /// Sets a value in the registry under a name.
    pub fn set_named_registry_value(&self, name: &[u8], t: Value) -> (plan: Plan)
        requires
            t.owned_by(self.extra),
        ensures
            plan@.steps[0] == Op::CheckStack(5),
            plan.outcome == Outcome::Unit,
            plan.guard == Some(0usize),
            plan@ == set_named_plan(name@, t),
    {
        let mut steps: Vec<Instr> = Vec::new();
        emit(&mut steps, InstrOf::CheckStack(5));
        self.push_value(&mut steps, t);
        emit(&mut steps, InstrOf::RawSetField(Index::Registry, slice_to_vec(name)));
        assert(ops(steps@) =~= set_named_plan(name@, t).steps);
        Plan { steps, outcome: Outcome::Unit, guard: Some(0) }
    }

    /// Gets the value in the registry under a name.
    pub fn named_registry_value(&self, name: &[u8]) -> (plan: Plan)
        ensures
            plan@.steps[0] == Op::CheckStack(3),
            plan.outcome == Outcome::Value,
            plan.guard == Some(0usize),
            plan@ == named_plan(name@),
    {
        let mut steps: Vec<Instr> = Vec::new();
        emit(&mut steps, InstrOf::CheckStack(3));
        emit(&mut steps, InstrOf::PushString(slice_to_vec(name)));
        emit(&mut steps, InstrOf::RawGet(Index::Registry));
        assert(ops(steps@) =~= named_plan(name@).steps);
        Plan { steps, outcome: Outcome::Value, guard: Some(0) }
    }

    /// Removes the value in the registry under a name, which is the same as setting it to nil.
    pub fn unset_named_registry_value(&self, name: &[u8]) -> (plan: Plan)
        ensures
            plan@ == set_named_plan(name@, Value::Nil),
    {
        self.set_named_registry_value(name, Value::Nil)
    }

    /// Puts a value into the registry; see `registry_key` for the key.
    pub fn create_registry_value(&self, t: Value) -> (plan: Plan)
        requires
            t.owned_by(self.extra),
        ensures
            plan@.steps[0] == Op::CheckStack(4),
            plan.outcome == Outcome::RegistryId,
            plan.guard == Some(0usize),
            plan@ == create_value_plan(t),
    {
        let mut steps: Vec<Instr> = Vec::new();
        emit(&mut steps, InstrOf::CheckStack(4));
        self.push_value(&mut steps, t);
        emit(&mut steps, InstrOf::MakeRef);
        assert(ops(steps@) =~= create_value_plan(t).steps);
        Plan { steps, outcome: Outcome::RegistryId, guard: Some(0) }
    }

    /// The key of this main state for the registry integer that `create_registry_value` gave.
    pub fn registry_key(&self, registry_id: i32) -> (key: RegistryKey)
        ensures
            key == key_of(*self, registry_id),
            key == (RegistryKey { registry_id, unref_list: self.extra }),
    {
        RegistryKey { registry_id, unref_list: self.extra }
    }

    /// Gets the value in the registry that a key of this main state stands for.
    pub fn registry_value(&self, key: &RegistryKey) -> (r: Result<Plan, Error>)
        ensures
            if owns(*self, *key) {
                r is Ok && r->Ok_0@ == value_plan(key.registry_id)
            } else {
                refused(r, ErrorView::MismatchedRegistryKey)
            },
            r is Ok <==> key.unref_list == self.extra,
            r matches Ok(plan) ==> plan.outcome == Outcome::Value && plan.guard == Some(0usize)
                && plan@.steps == seq![
                Op::CheckStack(1),
                Op::RawGetI(Index::Registry, key.registry_id as i64),
            ],
    {
        if !self.owns_registry_value(key) {
            return Err(ErrorOf::MismatchedRegistryKey);
        }
        let mut steps: Vec<Instr> = Vec::new();
        emit(&mut steps, InstrOf::CheckStack(1));
        emit(&mut steps, InstrOf::RawGetI(Index::Registry, key.registry_id as i64));
        assert(ops(steps@) =~= value_plan(key.registry_id).steps);
        Ok(Plan { steps, outcome: Outcome::Value, guard: Some(0) })
    }

    /// Removes the value in the registry that a key of this main state stands for.
    pub fn remove_registry_value(&self, key: RegistryKey) -> (r: Result<Plan, Error>)
        ensures
            if owns(*self, key) {
                r is Ok && r->Ok_0@ == remove_plan(key.registry_id)
            } else {
                refused(r, ErrorView::MismatchedRegistryKey)
            },
            r is Ok <==> key.unref_list == self.extra,
            r matches Ok(plan) ==> plan.outcome == Outcome::Unit && plan.guard is None
                && plan@.steps == seq![Op::Unref(key.registry_id)],
    {
        if !self.owns_registry_value(&key) {
            return Err(ErrorOf::MismatchedRegistryKey);
        }
        let mut steps: Vec<Instr> = Vec::new();
        emit(&mut steps, InstrOf::Unref(key.registry_id));
        assert(ops(steps@) =~= remove_plan(key.registry_id).steps);
        Ok(Plan { steps, outcome: Outcome::Unit, guard: None })
    }

    /// Whether a key was created by a handle that shares its main state with this one.
    pub fn owns_registry_value(&self, key: &RegistryKey) -> (b: bool)
        ensures
            b == owns(*self, *key),
            b == (key.unref_list == self.extra),
    {
        key.unref_list == self.extra
    }

    /// Removes the values in the registry whose keys have been dropped.
    pub fn expire_registry_values(&self, extra: &mut ExtraData) -> (plan: Plan)
        requires
            old(extra)@.registry_unref_list is Some,
        ensures
            plan.outcome == Outcome::Unit,
            plan.guard is None,
            plan@ == (PlanView {
                steps: unref_ops(old(extra)@.registry_unref_list->0),
                outcome: Outcome::Unit,
                guard: None,
            }),
            final(extra)@ == (ExtraView {
                registry_unref_list: Some(Seq::empty()),
                ..old(extra)@
            }),
    {
        let mut steps: Vec<Instr> = Vec::new();
        if let Some(ids) = extra.registry_unref_list.take() {
            let mut i: usize = 0;
            while i < ids.len()
                invariant
                    i <= ids@.len(),
                    ops(steps@) == unref_ops(ids@.take(i as int)),
                decreases ids@.len() - i,
            {
                emit(&mut steps, InstrOf::Unref(ids[i]));
                assert(ops(steps@) =~= unref_ops(ids@.take(i + 1)));
                i = i + 1;
            }
            assert(ids@.take(ids@.len() as int) =~= ids@);
        }
        extra.registry_unref_list = Some(Vec::new());
        Plan { steps, outcome: Outcome::Unit, guard: None }
    }
}

/// The registry.
pub open spec fn entries(m: Machine) -> Map<Val, Val> {
    m.tables[registry()]
}

/// Setting a named value sets that field of the registry and leaves the stack and everything else
/// as it was.
pub proof fn law_set_named(m: Machine, name: Seq<u8>, t: Value)
    requires
        m.roomy(),
        m.wf(),
        pushable(m, t),
    ensures
        m.run(set_named_plan(name, t).steps) == Some(
            m.set(registry(), Val::String(name), denoted(m, t)),
        ),
{
    let first: Seq<Op> = seq![InstrOf::CheckStack(5)];
    let last: Seq<Op> = seq![InstrOf::RawSetField(Index::Registry, name)];
    lemma_run_concat(m, first + push_ops(t), last);
    lemma_run_concat(m, first, push_ops(t));
    law_push_value(m, t);
    lemma_single(m, first[0], m);
    let pushed = m.push(denoted(m, t));
    assert(pushed.stack.take(pushed.height() - 1) =~= m.stack);
    lemma_single(pushed, last[0], m.set(registry(), Val::String(name), denoted(m, t)));
}

proof fn lemma_named_pushed(m: Machine, name: Seq<u8>)
    requires
        m.roomy(),
        m.tables.dom().contains(registry()),
    ensures
        m.run(named_plan(name).steps) == Some(m.push(field(entries(m), Val::String(name)))),
{
    let code = named_plan(name).steps;
    let pushed = m.push(Val::String(name));
    let end = m.push(field(entries(m), Val::String(name)));
    lemma_next(m, code, 0, m);
    lemma_next(m, code, 1, pushed);
    assert(pushed.stack.take(pushed.height() - 1) =~= m.stack);
    lemma_next(pushed, code, 2, end);
    lemma_done(end, code, 3);
}

/// Getting a named value pushes that field of the registry.
pub proof fn law_get_named(m: Machine, name: Seq<u8>)
    requires
        m.roomy(),
        m.wf(),
    ensures
        m.run(named_plan(name).steps) == Some(m.push(field(entries(m), Val::String(name)))),
{
    lemma_named_pushed(m, name);
}

/// A named value is what was last set under that name, nil if it was unset; names do not disturb
/// each other.
pub proof fn law_named_value_round_trip(m: Machine, name: Seq<u8>, other: Seq<u8>, t: Value)
    requires
        m.roomy(),
        m.wf(),
        pushable(m, t),
    ensures
        ({
            let set = m.run(set_named_plan(name, t).steps)->0;
            &&& m.run(set_named_plan(name, t).steps) is Some
            &&& set.run(named_plan(name).steps) == Some(set.push(denoted(m, t)))
            &&& other != name ==> set.run(named_plan(other).steps) == Some(
                set.push(field(entries(m), Val::String(other))),
            )
        }),
{
    law_set_named(m, name, t);
    let set = m.set(registry(), Val::String(name), denoted(m, t));
    lemma_named_pushed(set, name);
    lemma_named_pushed(set, other);
}

/// The registry integer that putting a value into the registry gives.
pub open spec fn created_id(m: Machine, t: Value) -> i32 {
    m.push(denoted(m, t)).next_ref()
}

/// A value that was put into the registry is found there by the integer that was given; the integer
/// was not in use, and everything that was in the registry stays.
pub proof fn law_registry_value_round_trip(m: Machine, t: Value)
    requires
        m.roomy(),
        m.wf(),
        pushable(m, t),
    ensures
        ({
            let made = m.run(create_value_plan(t).steps)->0;
            let id = created_id(m, t);
            &&& m.run(create_value_plan(t).steps) is Some
            &&& made.stack == m.stack
            &&& made.made == id
            &&& made.run(value_plan(id).steps) == Some(made.push(denoted(m, t)))
            &&& denoted(m, t) != Val::Nil ==> unused(entries(m), id) && !unused(entries(made), id)
            &&& denoted(m, t) == Val::Nil ==> id == LUA_REFNIL
            &&& forall|key: Val| #[trigger]
                entries(m).dom().contains(key) ==> entries(made).dom().contains(key) && field(
                    entries(made),
                    key,
                ) == field(entries(m), key)
        }),
{
    let first: Seq<Op> = seq![InstrOf::CheckStack(4)];
    let last: Seq<Op> = seq![InstrOf::MakeRef];
    lemma_run_concat(m, first + push_ops(t), last);
    lemma_run_concat(m, first, push_ops(t));
    law_push_value(m, t);
    let pushed = m.push(denoted(m, t));
    let id = created_id(m, t);
    assert(pushed.stack.take(pushed.height() - 1) =~= m.stack);
    assert(pushed.tables == m.tables);
    if denoted(m, t) != Val::Nil {
        assert(unused(pushed.tables[registry()], id));
    }
    lemma_single(m, first[0], m);
    let made = pushed.step(last[0])->0;
    lemma_single(pushed, last[0], made);
    let get = value_plan(id).steps;
    lemma_next(made, get, 0, made);
    lemma_next(made, get, 1, made.push(denoted(m, t)));
    lemma_done(made.push(denoted(m, t)), get, 2);
}

/// After a value was removed its integer can be given out again, and all other entries stay.
pub proof fn law_removed_registry_value(m: Machine, id: i32)
    requires
        m.wf(),
        0 < id,
    ensures
        ({
            let removed = m.run(remove_plan(id).steps)->0;
            &&& m.run(remove_plan(id).steps) is Some
            &&& removed.stack == m.stack
            &&& unused(entries(removed), id)
            &&& forall|key: Val|
                key != Val::Integer(id as i64) ==> #[trigger] field(entries(removed), key) == field(
                    entries(m),
                    key,
                )
        }),
{
    lemma_single(
        m,
        InstrOf::Unref(id),
        m.set(registry(), Val::Integer(id as i64), Val::Nil),
    );
}

/// Removing the nil that was put into the registry does nothing.
pub proof fn law_removed_nil(m: Machine)
    ensures
        m.run(remove_plan(LUA_REFNIL).steps) == Some(m),
{
    lemma_single(m, InstrOf::Unref(LUA_REFNIL), m);
}

/// A key is good for exactly the handles that share their main state with the one that made it,
/// copies and handles that were entered in another state among them.
pub proof fn law_key_ownership(maker: Lua, user: Lua, registry_id: i32, state: u64)
    ensures
        owns(user, key_of(maker, registry_id)) <==> user.extra == maker.extra,
        owns(maker.ephemeral_copy(), key_of(maker, registry_id)),
        owns(Lua { state, ..maker }, key_of(maker, registry_id)),
{
}

/// A key that was dropped is expired the next time, together with those that were dropped before;
/// once the state is closed nothing is kept of it.
pub proof fn law_dropped_keys(extra: ExtraView, registry_id: i32, other: i32)
    ensures
        extra.registry_unref_list matches Some(list) ==> {
            &&& extra.with_dropped_key(registry_id).registry_unref_list == Some(
                list.push(registry_id),
            )
            &&& list.push(registry_id).contains(registry_id)
            &&& other != registry_id ==> list.push(registry_id).contains(other) == list.contains(
                other,
            )
        },
        extra.registry_unref_list is None ==> extra.with_dropped_key(registry_id) == extra,
{
    if let Some(list) = extra.registry_unref_list {
        let all = list.push(registry_id);
        assert(all[list.len() as int] == registry_id);
        if list.contains(other) {
            assert(all[list.index_of(other)] == other);
        }
        if other != registry_id && all.contains(other) {
            assert(list[all.index_of(other)] == other);
        }
    }
}

/// Whether a registry key is one of the given integers.
pub open spec fn among(ids: Seq<i32>, key: Val) -> bool {
    exists|id: i32| #[trigger] ids.contains(id) && key == Val::Integer(id as i64)
}

/// Expiring gives back the integers of all dropped keys, and all other entries stay.
pub proof fn law_expired_registry_values(m: Machine, ids: Seq<i32>)
    requires
        m.wf(),
    ensures
        ({
            let expired = m.run(unref_ops(ids))->0;
            &&& m.run(unref_ops(ids)) is Some
            &&& expired.stack == m.stack
            &&& forall|id: i32| 0 < id && #[trigger] ids.contains(id) ==> unused(entries(expired), id)
            &&& forall|key: Val|
                !among(ids, key) ==> #[trigger] field(entries(expired), key) == field(
                    entries(m),
                    key,
                )
        }),
{
    lemma_expired(m, ids, ids.len());
    assert(ids.take(ids.len() as int) =~= ids);
}

proof fn lemma_expired(m: Machine, ids: Seq<i32>, n: nat)
    requires
        m.wf(),
        n <= ids.len(),
    ensures
        ({
            let expired = m.run(unref_ops(ids.take(n as int)))->0;
            &&& m.run(unref_ops(ids.take(n as int))) is Some
            &&& expired.stack == m.stack
            &&& expired.world == m.world
            &&& expired.tables.dom().contains(registry())
            &&& forall|id: i32|
                0 < id && #[trigger] ids.take(n as int).contains(id) ==> unused(
                    entries(expired),
                    id,
                )
            &&& forall|key: Val|
                !among(ids.take(n as int), key) ==> #[trigger] field(entries(expired), key)
                    == field(entries(m), key)
            &&& forall|key: Val|
                !among(ids.take(n as int), key) ==> #[trigger] entries(expired).dom().contains(key)
                    == entries(m).dom().contains(key)
        }),
    decreases n,
{
    if n == 0 {
        lemma_done(m, unref_ops(ids.take(0)), 0);
    } else {
        let rest = ids.take(n - 1);
        let all = ids.take(n as int);
        let last = ids[n - 1];
        lemma_expired(m, ids, (n - 1) as nat);
        let one: Seq<Op> = seq![InstrOf::Unref(last)];
        assert(unref_ops(all) =~= unref_ops(rest) + one);
        lemma_run_concat(m, unref_ops(rest), one);
        let mid = m.run(unref_ops(rest))->0;
        let expired = mid.step(one[0])->0;
        lemma_single(mid, one[0], expired);
        assert(all[n - 1] == last);
        assert forall|id: i32| #[trigger] all.contains(id) implies id == last || rest.contains(
            id,
        ) by {
            let k = all.index_of(id);
            if k < n - 1 {
                assert(rest[k] == id);
            }
        }
        assert forall|id: i32| rest.contains(id) implies #[trigger] all.contains(id) by {
            let k = rest.index_of(id);
            assert(all[k] == id);
        }
        assert forall|id: i32| 0 < id && #[trigger] all.contains(id) implies unused(
            entries(expired),
            id,
        ) by {
            if rest.contains(id) {
                assert(unused(entries(mid), id));
            }
        }
        assert forall|key: Val| !among(all, key) implies #[trigger] field(entries(expired), key)
            == field(entries(m), key) by {
            assert(all.contains(last));
            if among(rest, key) {
                let id = choose|id: i32| #[trigger]
                    rest.contains(id) && key == Val::Integer(id as i64);
                assert(all.contains(id));
            }
            assert(field(entries(mid), key) == field(entries(m), key));
        }
        assert forall|key: Val| !among(all, key) implies #[trigger] entries(
            expired,
        ).dom().contains(key) == entries(m).dom().contains(key) by {
            assert(all.contains(last));
            if among(rest, key) {
                let id = choose|id: i32| #[trigger]
                    rest.contains(id) && key == Val::Integer(id as i64);
                assert(all.contains(id));
            }
            assert(entries(mid).dom().contains(key) == entries(m).dom().contains(key));
        }
    }
}

/// The keys that are about fit the registry. `live` are the integers of keys that have neither been
/// dropped nor used to remove their value, `dropped` the integers of the keys that were dropped since
/// the last expiry. All of them are in use, no integer of a live key is among the dropped ones, and
/// each is dropped once. (Keys to nil have the integer for nil, which is not given back.)
pub open spec fn keys_fit(m: Machine, live: Set<i32>, dropped: Seq<i32>) -> bool {
    &&& forall|id: i32| #[trigger]
        live.contains(id) ==> 0 < id && !unused(entries(m), id) && !dropped.contains(id)
    &&& forall|k: int|
        0 <= k < dropped.len() && 0 < #[trigger] dropped[k] ==> !unused(entries(m), dropped[k])
    &&& forall|i: int, j: int|
        0 <= i < j < dropped.len() && 0 < #[trigger] dropped[i] ==> dropped[i]
            != #[trigger] dropped[j]
}

/// The live keys after a value was put into the registry.
pub open spec fn with_key(live: Set<i32>, id: i32) -> Set<i32> {
    if id == LUA_REFNIL {
        live
    } else {
        live.insert(id)
    }
}

/// Keys fit the registry at all times: at the beginning, after a value was put there, after a key
/// was dropped, after a value was removed by its key, and after an expiry. The integer of a new key
/// is that of no live key.
pub proof fn law_keys_fit(m: Machine, live: Set<i32>, dropped: Seq<i32>, t: Value, id: i32)
    requires
        m.roomy(),
        m.wf(),
        keys_fit(m, live, dropped),
        pushable(m, t),
    ensures
        keys_fit(m, Set::empty(), Seq::empty()),
        !live.contains(created_id(m, t)),
        keys_fit(
            m.run(create_value_plan(t).steps)->0,
            with_key(live, created_id(m, t)),
            dropped,
        ),
        live.contains(id) ==> keys_fit(m, live.remove(id), dropped.push(id)),
        keys_fit(m, live, dropped.push(LUA_REFNIL)),
        live.contains(id) ==> keys_fit(m.run(remove_plan(id).steps)->0, live.remove(id), dropped),
        keys_fit(m.run(unref_ops(dropped))->0, live, Seq::empty()),
{
    lemma_key_created(m, live, dropped, t);
    if live.contains(id) {
        lemma_key_dropped(m, live, dropped, id);
        lemma_key_removed(m, live, dropped, id);
    }
    lemma_nil_dropped(m, live, dropped);
    lemma_keys_expired(m, live, dropped);
}

proof fn lemma_key_created(m: Machine, live: Set<i32>, dropped: Seq<i32>, t: Value)
    requires
        m.roomy(),
        m.wf(),
        keys_fit(m, live, dropped),
        pushable(m, t),
    ensures
        !live.contains(created_id(m, t)),
        keys_fit(
            m.run(create_value_plan(t).steps)->0,
            with_key(live, created_id(m, t)),
            dropped,
        ),
{
    law_registry_value_round_trip(m, t);
    let made = m.run(create_value_plan(t).steps)->0;
    let new = created_id(m, t);
    assert forall|id: i32| 0 < id && !unused(entries(m), id) implies !#[trigger] unused(
        entries(made),
        id,
    ) by {
        assert(entries(m).dom().contains(Val::Integer(id as i64)));
    }
}

proof fn lemma_key_dropped(m: Machine, live: Set<i32>, dropped: Seq<i32>, id: i32)
    requires
        keys_fit(m, live, dropped),
        live.contains(id),
    ensures
        keys_fit(m, live.remove(id), dropped.push(id)),
{
    let all = dropped.push(id);
    assert forall|other: i32| #[trigger] live.remove(id).contains(other) implies !all.contains(
        other,
    ) by {
        assert(live.contains(other));
        if all.contains(other) {
            assert(dropped[all.index_of(other)] == other);
        }
    }
    assert forall|i: int, j: int|
        0 <= i < j < all.len() && 0 < #[trigger] all[i] implies all[i] != #[trigger] all[j] by {
        assert(all[i] == dropped[i]);
        if j == dropped.len() {
            assert(dropped.contains(dropped[i]));
        }
    }
}

proof fn lemma_nil_dropped(m: Machine, live: Set<i32>, dropped: Seq<i32>)
    requires
        keys_fit(m, live, dropped),
    ensures
        keys_fit(m, live, dropped.push(LUA_REFNIL)),
{
    let all = dropped.push(LUA_REFNIL);
    assert forall|other: i32| #[trigger] live.contains(other) implies !all.contains(other) by {
        if all.contains(other) {
            assert(dropped[all.index_of(other)] == other);
        }
    }
}

proof fn lemma_key_removed(m: Machine, live: Set<i32>, dropped: Seq<i32>, id: i32)
    requires
        m.wf(),
        keys_fit(m, live, dropped),
        live.contains(id),
    ensures
        keys_fit(m.run(remove_plan(id).steps)->0, live.remove(id), dropped),
{
    lemma_single(m, Op::Unref(id), m.set(registry(), Val::Integer(id as i64), Val::Nil));
    assert(remove_plan(id).steps =~= seq![Op::Unref(id)]);
    let removed = m.run(remove_plan(id).steps)->0;
    assert forall|other: i32| other != id && !unused(entries(m), other) implies !#[trigger] unused(
        entries(removed),
        other,
    ) by {}
    assert forall|k: int| 0 <= k < dropped.len() && 0 < #[trigger] dropped[k] implies !unused(
        entries(removed),
        dropped[k],
    ) by {
        assert(dropped.contains(dropped[k]));
    }
}

proof fn lemma_keys_expired(m: Machine, live: Set<i32>, dropped: Seq<i32>)
    requires
        m.wf(),
        keys_fit(m, live, dropped),
    ensures
        keys_fit(m.run(unref_ops(dropped))->0, live, Seq::empty()),
{
    lemma_expired(m, dropped, dropped.len());
    assert(dropped.take(dropped.len() as int) =~= dropped);
    let expired = m.run(unref_ops(dropped))->0;
    assert forall|id: i32| #[trigger] live.contains(id) implies !unused(entries(expired), id) by {
        let key = Val::Integer(id as i64);
        assert(!among(dropped, key));
        assert(entries(m).dom().contains(key));
        assert(entries(expired).dom().contains(key));
    }
}

/// An expiry takes nothing from a live key: its value is found as before. The values of dropped keys
/// are gone, and a further expiry right after changes nothing.
pub proof fn law_expiry_spares_live_keys(m: Machine, live: Set<i32>, dropped: Seq<i32>, id: i32)
    requires
        m.roomy(),
        m.wf(),
        keys_fit(m, live, dropped),
    ensures
        ({
            let expired = m.run(unref_ops(dropped))->0;
            let key = Val::Integer(id as i64);
            &&& m.run(unref_ops(dropped)) is Some
            &&& live.contains(id) ==> expired.run(value_plan(id).steps) == Some(
                expired.push(field(entries(m), key)),
            )
            &&& dropped.contains(id) && 0 < id ==> expired.run(value_plan(id).steps) == Some(
                expired.push(Val::Nil),
            )
            &&& expired.run(unref_ops(Seq::empty())) == Some(expired)
        }),
{
    lemma_expired(m, dropped, dropped.len());
    assert(dropped.take(dropped.len() as int) =~= dropped);
    let expired = m.run(unref_ops(dropped))->0;
    let key = Val::Integer(id as i64);
    let get = value_plan(id).steps;
    lemma_next(expired, get, 0, expired);
    lemma_next(expired, get, 1, expired.push(field(entries(expired), key)));
    lemma_done(expired.push(field(entries(expired), key)), get, 2);
    if live.contains(id) {
        assert(!among(dropped, key));
    }
    lemma_done(expired, unref_ops(Seq::empty()), 0);
}

} // verus!
