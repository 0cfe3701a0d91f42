use vstd::prelude::*;
use vstd::slice::*;
use vstd::string::*;

use crate::asynchronous::{driver_text, environment_fields, get_poll_function};
use crate::create::with_table;
use crate::driver::{
    apart, async_ready, awaited, demanded, law_async_callback_is_pushed,
    law_coroutine_is_loaded_on_demand, lemma_environment, lemma_ready_stays, loads_coroutine,
    ready_beside,
};
use crate::error::{refused, Error, ErrorOf, ErrorView};
use crate::lua::{ExtraData, ExtraView, Lua};
use crate::machine::{
    callback_function, emit, field, globals, lemma_done, lemma_next, lemma_run_concat,
    lemma_single, ops, registry, unused, CFunction, CallKind, Callback, GcValue, Heap, Index, Instr,
    InstrOf, Machine, Op, Outcome, Plan, PlanView, Val, Wiring, World,
};
use crate::script::{driver, law_driver_start, law_driver_text, Answers, Made};
use crate::startup::is_global;
use crate::stdlib::{module_name, Library};
use crate::userdata::{
    named, FieldsView, MetaMethod, MetaMethodView, MethodsView, StaticUserDataFields,
    StaticUserDataMethods,
};
use crate::value::RefKind;

verus! {

/// What a field of a table is filled with.
pub enum Filler {
    Callback(Callback),
    MetaField(u64),
}

/// A field that a table is filled with, or the error that filling it gives.
pub struct Filling {
    pub name: Seq<u8>,
    pub restricted: Option<u64>,
    pub filler: Filler,
}

impl Filling {
    /// The instruction that pushes the value of the field.
    pub open spec fn push_op(self) -> Op {
        match self.filler {
            Filler::Callback(c) => InstrOf::PushCallback(c),
            Filler::MetaField(f) => InstrOf::PushMetaField(f),
        }
    }

    /// Whether the field is filled with an asynchronous callback.
    pub open spec fn asynchronous(self) -> bool {
        self.filler matches Filler::Callback(c) && c.kind.asynchronous()
    }

    /// The instruction that sets the field, or fails.
    pub open spec fn set_op(self) -> Op {
        match self.restricted {
            Some(e) => InstrOf::Fail(ErrorOf::Foreign(e)),
            None => InstrOf::RawSetField(Index::FromTop(2), self.name),
        }
    }
}

/// Instructions that fill the table on top of the stack.
pub open spec fn fill_ops(fillings: Seq<Filling>) -> Seq<Op>
    decreases fillings.len(),
{
    if fillings.len() == 0 {
        Seq::empty()
    } else {
        fill_ops(fillings.drop_last()) + seq![fillings.last().push_op(), fillings.last().set_op()]
    }
}

/// Fields filled with callbacks.
pub open spec fn callbacks(list: Seq<(Seq<u8>, Callback)>) -> Seq<Filling> {
    list.map_values(
        |e: (Seq<u8>, Callback)|
            Filling { name: e.0, restricted: None, filler: Filler::Callback(e.1) },
    )
}

/// Metatable fields filled with callbacks.
pub open spec fn meta_callbacks(list: Seq<(MetaMethodView, Callback)>) -> Seq<Filling> {
    list.map_values(
        |e: (MetaMethodView, Callback)|
            Filling {
                name: e.0.name,
                restricted: e.0.restricted,
                filler: Filler::Callback(e.1),
            },
    )
}

/// Metatable fields filled with computed values.
pub open spec fn meta_values(list: Seq<(MetaMethodView, u64)>) -> Seq<Filling> {
    list.map_values(
        |e: (MetaMethodView, u64)|
            Filling {
                name: e.0.name,
                restricted: e.0.restricted,
                filler: Filler::MetaField(e.1),
            },
    )
}

/// What a metatable is filled with: methods first, then fields.
pub open spec fn meta_fillings(methods: MethodsView, fields: FieldsView) -> Seq<Filling> {
    meta_callbacks(methods.meta_methods) + meta_values(fields.meta_fields)
}

/// What the table of methods is filled with: synchronous methods first.
pub open spec fn method_fillings(methods: MethodsView) -> Seq<Filling> {
    callbacks(methods.methods) + callbacks(methods.async_methods)
}

/// Instructions that make a table and fill it; none if there is nothing to fill it with.
pub open spec fn extra_table_ops(fillings: Seq<Filling>) -> Seq<Op> {
    if fillings.len() == 0 {
        Seq::empty()
    } else {
        seq![InstrOf::CreateTable(0, fillings.len() as i32)] + fill_ops(fillings)
    }
}

/// One if there is something to fill a table with, else zero.
pub open spec fn count(fillings: Seq<Filling>) -> int {
    if fillings.len() == 0 {
        0
    } else {
        1
    }
}

/// The slot of a table that is there if there is something to fill it with.
pub open spec fn slot_of(fillings: Seq<Filling>, slot: int) -> Option<i32> {
    if fillings.len() == 0 {
        None
    } else {
        Some(slot as i32)
    }
}

/// Instructions that make the metatable of a userdata type on a stack of the given height.
pub open spec fn metatable_ops(base: int, methods: MethodsView, fields: FieldsView) -> Seq<Op> {
    let meta = meta_fillings(methods, fields);
    let getters = callbacks(fields.field_getters);
    let setters = callbacks(fields.field_setters);
    let calls = method_fillings(methods);
    seq![InstrOf::CheckStack(13), InstrOf::CreateTable(0, meta.len() as i32)] + fill_ops(meta)
        + extra_table_ops(getters) + extra_table_ops(setters) + extra_table_ops(calls)
        + complete_ops(
        (base + 1) as i32,
        slot_of(getters, base + 2),
        slot_of(setters, base + 2 + count(getters)),
        slot_of(calls, base + 2 + count(getters) + count(setters)),
        (count(getters) + count(setters) + count(calls)) as i32,
    )
}

/// The plan that makes the metatable of a userdata type and leaves it on the stack.
pub open spec fn metatable_plan(base: int, methods: MethodsView, fields: FieldsView) -> PlanView {
    PlanView {
        steps: metatable_ops(base, methods, fields),
        outcome: Outcome::RegistryId,
        guard: Some(1),
    }
}

/// The plan that gets a metatable that was made before.
pub open spec fn registered_plan(table_id: i32) -> PlanView {
    PlanView {
        steps: seq![InstrOf::RawGetI(Index::Registry, table_id as i64)],
        outcome: Outcome::Unit,
        guard: None,
    }
}

/// How the metatable of a userdata type is pushed.
#[derive(Debug, PartialEq, Eq)]
pub enum MetatablePlan {
    /// It was made before.
    Registered(Plan),
    /// It has to be made, and registered afterwards; see `Lua::register_userdata`.
    Make(Plan),
}

/// How far the check of a userdata has come.
#[derive(Debug, PartialEq, Eq)]
pub enum UserDataCheck {
    /// It is settled; so many values are taken off the stack above the userdata.
    Settled { pops: i32, result: Result<(), Error> },
    /// The metatable, which is on top of the stack, has to be compared with that of destroyed
    /// userdata; see `Lua::compared_userdata`.
    Compare,
}

/// Work that makes a userdata: the metatable is pushed between the two plans. If a part fails, what
/// it has left on the stack is taken off.
#[derive(Debug, PartialEq, Eq)]
pub struct UserDataPlan {
    pub push: Plan,
    pub attach: Plan,
}

/// Whether a userdata is accepted: its metatable is registered.
pub open spec fn accepted(registered: Set<isize>, metatable: Option<isize>) -> bool {
    metatable matches Some(ptr) && registered.contains(ptr)
}

/// The plan that pushes a new userdata without a metatable.
pub open spec fn userdata_push_plan() -> PlanView {
    PlanView {
        steps: seq![InstrOf::CheckStack(2), InstrOf::PushUserData],
        outcome: Outcome::Unit,
        guard: None,
    }
}

/// The plan that attaches the metatable on top of the stack to the userdata below it.
pub open spec fn userdata_attach_plan() -> PlanView {
    PlanView {
        steps: seq![InstrOf::SetMetatable(Index::FromTop(2))],
        outcome: Outcome::Reference(RefKind::UserData),
        guard: None,
    }
}

/// The making of a userdata as one plan: the userdata is pushed, then its metatable, which is then
/// attached. The whole is guarded, so that nothing is left on the stack if a part of it fails.
pub open spec fn userdata_plan(metatable: Seq<Op>) -> PlanView {
    PlanView {
        steps: userdata_push_plan().steps + metatable + userdata_attach_plan().steps,
        outcome: Outcome::Reference(RefKind::UserData),
        guard: Some(0),
    }
}

fn fill_callbacks(steps: &mut Vec<Instr>, list: &Vec<(Vec<u8>, Callback)>)
    ensures
        ops(final(steps)@) == ops(old(steps)@) + fill_ops(callbacks(named(list@))),
{
    let ghost start = ops(steps@);
    let ghost all = callbacks(named(list@));
    let mut i: usize = 0;
    assert(start + fill_ops(all.take(0)) =~= start);
    while i < list.len()
        invariant
            i <= list@.len(),
            all == callbacks(named(list@)),
            ops(steps@) == start + fill_ops(all.take(i as int)),
        decreases list@.len() - i,
    {
        emit(steps, InstrOf::PushCallback(list[i].1));
        emit(
            steps,
            InstrOf::RawSetField(Index::FromTop(2), slice_to_vec(list[i].0.as_slice())),
        );
        proof {
            let next = all.take(i + 1);
            assert(next.drop_last() =~= all.take(i as int));
            assert(next.last() == all[i as int]);
            assert(ops(steps@) =~= start + fill_ops(next));
        }
        i = i + 1;
    }
    assert(all.take(all.len() as int) =~= all);
}

fn set_meta(steps: &mut Vec<Instr>, meta: &MetaMethod)
    ensures
        ops(final(steps)@) == ops(old(steps)@).push(
            match meta@.restricted {
                Some(e) => InstrOf::Fail(ErrorOf::Foreign(e)),
                None => InstrOf::RawSetField(Index::FromTop(2), meta@.name),
            },
        ),
{
    match meta.restricted {
        Some(e) => {
            emit(steps, InstrOf::Fail(ErrorOf::Foreign(e)));
        },
        None => {
            emit(
                steps,
                InstrOf::RawSetField(Index::FromTop(2), slice_to_vec(meta.name.as_slice())),
            );
        },
    }
}

fn fill_metatable(
    steps: &mut Vec<Instr>,
    methods: &StaticUserDataMethods,
    fields: &StaticUserDataFields,
)
    ensures
        ops(final(steps)@) == ops(old(steps)@) + fill_ops(meta_fillings(methods@, fields@)),
{
    let ghost start = ops(steps@);
    let ghost all = meta_fillings(methods@, fields@);
    let ghost first = methods.meta_methods@.len();
    let mut i: usize = 0;
    assert(start + fill_ops(all.take(0)) =~= start);
    while i < methods.meta_methods.len()
        invariant
            i <= methods.meta_methods@.len(),
            all == meta_fillings(methods@, fields@),
            ops(steps@) == start + fill_ops(all.take(i as int)),
        decreases methods.meta_methods@.len() - i,
    {
        emit(steps, InstrOf::PushCallback(methods.meta_methods[i].1));
        set_meta(steps, &methods.meta_methods[i].0);
        proof {
            let next = all.take(i + 1);
            assert(next.drop_last() =~= all.take(i as int));
            assert(next.last() == all[i as int]);
            assert(ops(steps@) =~= start + fill_ops(next));
        }
        i = i + 1;
    }
    let mut j: usize = 0;
    while j < fields.meta_fields.len()
        invariant
            j <= fields.meta_fields@.len(),
            first == methods.meta_methods@.len(),
            all == meta_fillings(methods@, fields@),
            ops(steps@) == start + fill_ops(all.take(first + j)),
        decreases fields.meta_fields@.len() - j,
    {
        emit(steps, InstrOf::PushMetaField(fields.meta_fields[j].1));
        set_meta(steps, &fields.meta_fields[j].0);
        proof {
            let next = all.take(first + j + 1);
            assert(next.drop_last() =~= all.take(first + j));
            assert(next.last() == all[first + j]);
            assert(ops(steps@) =~= start + fill_ops(next));
        }
        j = j + 1;
    }
    assert(all.take(all.len() as int) =~= all);
}

proof fn lemma_fill_concat(a: Seq<Filling>, b: Seq<Filling>)
    ensures
        fill_ops(a + b) == fill_ops(a) + fill_ops(b),
    decreases b.len(),
{
    if b.len() == 0 {
        assert(a + b =~= a);
        assert(fill_ops(a) + fill_ops(b) =~= fill_ops(a));
    } else {
        assert((a + b).drop_last() =~= a + b.drop_last());
        assert((a + b).last() == b.last());
        lemma_fill_concat(a, b.drop_last());
        assert(fill_ops(a + b) =~= fill_ops(a) + fill_ops(b));
    }
}

/// Makes the table of getters or setters, if there are any, and says whether it did.
fn field_table(steps: &mut Vec<Instr>, list: &Vec<(Vec<u8>, Callback)>) -> (made: bool)
    ensures
        ops(final(steps)@) == ops(old(steps)@) + extra_table_ops(callbacks(named(list@))),
        made == (list@.len() > 0),
{
    let ghost start = ops(steps@);
    let nrec: usize = list.len();
    if nrec > 0 {
        emit(steps, InstrOf::CreateTable(0, #[verifier::truncate] (nrec as i32)));
        fill_callbacks(steps, list);
    }
    assert(ops(steps@) =~= start + extra_table_ops(callbacks(named(list@))));
    nrec > 0
}

/// Makes the table of methods, if there are any, and says whether it did.
fn method_table(steps: &mut Vec<Instr>, methods: &StaticUserDataMethods) -> (made: bool)
    requires
        methods@.methods.len() + methods@.async_methods.len() <= usize::MAX,
    ensures
        ops(final(steps)@) == ops(old(steps)@) + extra_table_ops(method_fillings(methods@)),
        made == (method_fillings(methods@).len() > 0),
{
    let ghost start = ops(steps@);
    let nrec: usize = methods.methods.len() + methods.async_methods.len();
    if nrec > 0 {
        emit(steps, InstrOf::CreateTable(0, #[verifier::truncate] (nrec as i32)));
        fill_callbacks(steps, &methods.methods);
        fill_callbacks(steps, &methods.async_methods);
        proof {
            lemma_fill_concat(callbacks(methods@.methods), callbacks(methods@.async_methods));
        }
    }
    assert(ops(steps@) =~= start + extra_table_ops(method_fillings(methods@)));
    nrec > 0
}

/// Instructions that complete a metatable, take the other tables off the stack and put the metatable
/// into the registry.
pub open spec fn complete_ops(
    metatable: i32,
    field_getters: Option<i32>,
    field_setters: Option<i32>,
    methods: Option<i32>,
    extra_tables: i32,
) -> Seq<Op> {
    seq![
        InstrOf::InitUserDataMetatable { metatable, field_getters, field_setters, methods },
        InstrOf::Pop(extra_tables),
        InstrOf::PushValue(Index::FromTop(1)),
        InstrOf::MakeRef,
    ]
}

fn complete_metatable(
    steps: &mut Vec<Instr>,
    metatable: i32,
    field_getters: Option<i32>,
    field_setters: Option<i32>,
    methods: Option<i32>,
    extra_tables: i32,
)
    ensures
        ops(final(steps)@) == ops(old(steps)@) + complete_ops(
            metatable,
            field_getters,
            field_setters,
            methods,
            extra_tables,
        ),
{
    let ghost before = ops(steps@);
    emit(
        steps,
        InstrOf::InitUserDataMetatable { metatable, field_getters, field_setters, methods },
    );
    // Pop extra tables to get metatable on top of the stack
    emit(steps, InstrOf::Pop(extra_tables));
    emit(steps, InstrOf::PushValue(Index::FromTop(1)));
    emit(steps, InstrOf::MakeRef);
    assert(ops(steps@) =~= before + complete_ops(
        metatable,
        field_getters,
        field_setters,
        methods,
        extra_tables,
    ));
}

/// Makes the plan for a metatable that was not made before.
fn make_metatable(
    base: i32,
    methods: &StaticUserDataMethods,
    fields: &StaticUserDataFields,
) -> (plan: Plan)
    requires
        0 <= base <= i32::MAX - 4,
        methods@.meta_methods.len() + fields@.meta_fields.len() <= usize::MAX,
        methods@.methods.len() + methods@.async_methods.len() <= usize::MAX,
    ensures
        plan@ == metatable_plan(base as int, methods@, fields@),
        plan.outcome == Outcome::RegistryId,
        plan.guard == Some(1usize),
        plan@.steps[0] == Op::CheckStack(13),
        plan@.steps[1] == Op::CreateTable(
            0,
            (methods@.meta_methods.len() + fields@.meta_fields.len()) as i32,
        ),
{
    let ghost meta = meta_fillings(methods@, fields@);
    let mut steps: Vec<Instr> = Vec::new();
    emit(&mut steps, InstrOf::CheckStack(13));

    // Prepare metatable, add meta methods first and then meta fields
    let metatable_nrec: usize = methods.meta_methods.len() + fields.meta_fields.len();
    emit(
        &mut steps,
        InstrOf::CreateTable(0, #[verifier::truncate] (metatable_nrec as i32)),
    );
    fill_metatable(&mut steps, methods, fields);
    let metatable_index: i32 = base + 1;
    let ghost head = seq![
        Op::CheckStack(13),
        Op::CreateTable(0, meta.len() as i32),
    ] + fill_ops(meta);
    assert(ops(steps@) =~= head);

    let mut extra_tables_count: i32 = 0;

    let mut field_getters_index: Option<i32> = None;
    if field_table(&mut steps, &fields.field_getters) {
        extra_tables_count = extra_tables_count + 1;
        field_getters_index = Some(metatable_index + extra_tables_count);
    }
    let mut field_setters_index: Option<i32> = None;
    if field_table(&mut steps, &fields.field_setters) {
        extra_tables_count = extra_tables_count + 1;
        field_setters_index = Some(metatable_index + extra_tables_count);
    }
    let mut methods_index: Option<i32> = None;
    if method_table(&mut steps, methods) {
        extra_tables_count = extra_tables_count + 1;
        methods_index = Some(metatable_index + extra_tables_count);
    }
    let ghost body = ops(steps@);
    assert(body =~= head + extra_table_ops(callbacks(fields@.field_getters)) + extra_table_ops(
        callbacks(fields@.field_setters),
    ) + extra_table_ops(method_fillings(methods@)));
    complete_metatable(
        &mut steps,
        metatable_index,
        field_getters_index,
        field_setters_index,
        methods_index,
        extra_tables_count,
    );
    Plan { steps, outcome: Outcome::RegistryId, guard: Some(1) }
}

impl Lua {
    /// Decides how the metatable of a userdata type is pushed on a stack of the given height: it is
    /// taken from the registry if it was made before, else it is made out of the methods and fields
    /// of the type and put into the registry.
    pub fn push_userdata_metatable(
        &self,
        extra: &ExtraData,
        type_id: u64,
        base: i32,
        methods: &StaticUserDataMethods,
        fields: &StaticUserDataFields,
    ) -> (plan: MetatablePlan)
        requires
            0 <= base <= i32::MAX - 4,
            methods@.meta_methods.len() + fields@.meta_fields.len() <= usize::MAX,
            methods@.methods.len() + methods@.async_methods.len() <= usize::MAX,
        ensures
            match plan {
                MetatablePlan::Registered(p) => {
                    &&& extra@.registered_userdata.dom().contains(type_id)
                    &&& p@ == registered_plan(extra@.registered_userdata[type_id])
                },
                MetatablePlan::Make(p) => {
                    &&& !extra@.registered_userdata.dom().contains(type_id)
                    &&& p@ == metatable_plan(base as int, methods@, fields@)
                },
            },
    {
        broadcast use vstd::std_specs::hash::group_hash_axioms;

        let mut steps: Vec<Instr> = Vec::new();
        if let Some(table_id) = extra.registered_userdata.get(&type_id) {
            emit(&mut steps, InstrOf::RawGetI(Index::Registry, *table_id as i64));
            assert(ops(steps@) =~= registered_plan(*table_id).steps);
            return MetatablePlan::Registered(
                Plan { steps, outcome: Outcome::Unit, guard: None },
            );
        }
        MetatablePlan::Make(make_metatable(base, methods, fields))
    }

    /// Registers the metatable that was made for a userdata type: its registry integer and its
    /// address.
    pub fn register_userdata(&self, extra: &mut ExtraData, type_id: u64, id: i32, ptr: isize)
        ensures
            final(extra)@ == (ExtraView {
                registered_userdata: old(extra)@.registered_userdata.insert(type_id, id),
                registered_userdata_mt: old(extra)@.registered_userdata_mt.insert(ptr),
                ..old(extra)@
            }),
    {
        broadcast use vstd::std_specs::hash::group_hash_axioms;

        extra.registered_userdata.insert(type_id, id);
        extra.registered_userdata_mt.insert(ptr);
    }

    /// Checks a userdata that was pushed, given the address of its metatable, which was pushed too
    /// if it has one: it has to be registered.
    pub fn push_userdata_ref(&self, extra: &ExtraData, metatable: Option<isize>) -> (check:
        UserDataCheck)
        ensures
            if accepted(extra@.registered_userdata_mt, metatable) {
                check matches UserDataCheck::Settled { pops, result } && pops == 1 && result is Ok
            } else if metatable is None {
                check matches UserDataCheck::Settled { pops, result } && pops == 0 && refused(
                    result,
                    ErrorView::UserDataTypeMismatch,
                )
            } else {
                check is Compare
            },
            metatable matches Some(ptr) ==> (check is Settled
                <==> extra@.registered_userdata_mt.contains(ptr)),
    {
        broadcast use vstd::std_specs::hash::group_hash_axioms;

        match metatable {
            Some(ptr) => {
                if extra.registered_userdata_mt.contains(&ptr) {
                    UserDataCheck::Settled { pops: 1, result: Ok(()) }
                } else {
                    // Maybe userdata was destructed?
                    UserDataCheck::Compare
                }
            },
            None => UserDataCheck::Settled {
                pops: 0,
                result: Err(ErrorOf::UserDataTypeMismatch),
            },
        }
    }

    /// Settles the check of a userdata whose metatable is not registered, given whether (nonzero) it
    /// is that of destroyed userdata.
    pub fn compared_userdata(&self, equal: i32) -> (check: UserDataCheck)
        ensures
            check matches UserDataCheck::Settled { pops, result } && pops == 2 && refused(
                result,
                if equal != 0 {
                    ErrorView::UserDataDestructed
                } else {
                    ErrorView::UserDataTypeMismatch
                },
            ),
    {
        if equal != 0 {
            UserDataCheck::Settled { pops: 2, result: Err(ErrorOf::UserDataDestructed) }
        } else {
            UserDataCheck::Settled { pops: 2, result: Err(ErrorOf::UserDataTypeMismatch) }
        }
    }

    /// Makes the plans for a new userdata.
    pub fn make_userdata(&self) -> (plan: UserDataPlan)
        ensures
            plan.push@ == userdata_push_plan(),
            plan.attach@ == userdata_attach_plan(),
            plan.push@.steps == seq![Op::CheckStack(2), Op::PushUserData],
            plan.push.outcome == Outcome::Unit && plan.push.guard is None,
            plan.attach.outcome == Outcome::Reference(RefKind::UserData),
            plan.attach.guard is None,
    {
        let mut push: Vec<Instr> = Vec::new();
        emit(&mut push, InstrOf::CheckStack(2));
        emit(&mut push, InstrOf::PushUserData);
        assert(ops(push@) =~= userdata_push_plan().steps);
        let mut attach: Vec<Instr> = Vec::new();
        emit(&mut attach, InstrOf::SetMetatable(Index::FromTop(2)));
        assert(ops(attach@) =~= userdata_attach_plan().steps);
        UserDataPlan {
            push: Plan { steps: push, outcome: Outcome::Unit, guard: None },
            attach: Plan {
                steps: attach,
                outcome: Outcome::Reference(RefKind::UserData),
                guard: None,
            },
        }
    }

    /// Makes the plans for a new userdata of a type of the embedder.
    pub fn create_userdata(&self) -> (plan: UserDataPlan)
        ensures
            plan.push@ == userdata_push_plan(),
            plan.attach@ == userdata_attach_plan(),
            plan.push@.steps == seq![Op::CheckStack(2), Op::PushUserData],
            plan.push.outcome == Outcome::Unit && plan.push.guard is None,
            plan.attach.outcome == Outcome::Reference(RefKind::UserData),
            plan.attach.guard is None,
    {
        self.make_userdata()
    }

    /// Makes the plans for a new userdata of a serializable type of the embedder.
    pub fn create_ser_userdata(&self) -> (plan: UserDataPlan)
        ensures
            plan.push@ == userdata_push_plan(),
            plan.attach@ == userdata_attach_plan(),
            plan.push@.steps == seq![Op::CheckStack(2), Op::PushUserData],
            plan.push.outcome == Outcome::Unit && plan.push.guard is None,
            plan.attach.outcome == Outcome::Reference(RefKind::UserData),
            plan.attach.guard is None,
    {
        self.make_userdata()
    }

    /// Registers the address of a metatable.
    pub fn register_userdata_metatable(&self, extra: &mut ExtraData, id: isize)
        ensures
            final(extra)@ == (ExtraView {
                registered_userdata_mt: old(extra)@.registered_userdata_mt.insert(id),
                ..old(extra)@
            }),
    {
        broadcast use vstd::std_specs::hash::group_hash_axioms;

        extra.registered_userdata_mt.insert(id);
    }

    /// Takes the registration of the address of a metatable back.
    pub fn deregister_userdata_metatable(&self, extra: &mut ExtraData, id: isize)
        ensures
            final(extra)@ == (ExtraView {
                registered_userdata_mt: old(extra)@.registered_userdata_mt.remove(id),
                ..old(extra)@
            }),
    {
        broadcast use vstd::std_specs::hash::group_hash_axioms;

        extra.registered_userdata_mt.remove(&id);
    }
}

/// A value is the function that an asynchronous callback was made: a driver with an environment of
/// its own, which is newer than the table that holds the function and waits with `f`.
pub open spec fn is_async_function(
    m: Machine,
    holder: nat,
    value: Val,
    c: Callback,
    f: Val,
) -> bool {
    &&& value matches Val::Chunk(driver)
    &&& driver < m.fresh
    &&& m.sources[driver] == driver_text().spec_bytes()
    &&& m.envs[driver] matches Val::Table(env)
    &&& holder < env
    &&& m.tables.dom().contains(env)
    &&& m.tables[env] == environment_fields(get_poll_function(c), f, m.pending)
}

/// A value is what a field is to be filled with; asynchronous functions wait with `f`.
pub open spec fn supplied(m: Machine, holder: nat, value: Val, filler: Filler, f: Val) -> bool {
    match filler {
        Filler::Callback(c) => if c.kind.asynchronous() {
            is_async_function(m, holder, value, c, f)
        } else {
            value == callback_function(c)
        },
        Filler::MetaField(id) => exists|heap: Heap| #[trigger] computes(m.world, id, heap, value),
    }
}

/// A value is what the embedder computes for a metatable field.
pub open spec fn computes(world: World, id: u64, heap: Heap, value: Val) -> bool {
    (world.meta_field)(id, heap) matches Some((_, computed)) && computed == value
}

/// Code that leaves everything in its place: there may be more tables, chunks and handles.
pub open spec fn leaves_in_place(heap: Heap, after: Heap) -> bool {
    &&& heap.fresh <= after.fresh
    &&& after.metatables == heap.metatables
    &&& after.wirings == heap.wirings
    &&& after.modules == heap.modules
    &&& after.libs == heap.libs
    &&& forall|id: nat| #[trigger]
        heap.tables.dom().contains(id) ==> after.tables.dom().contains(id) && after.tables[id]
            == heap.tables[id]
    &&& forall|id: nat| #[trigger]
        after.tables.dom().contains(id) && !heap.tables.dom().contains(id) ==> heap.fresh <= id
            < after.fresh
    &&& forall|id: nat|
        #![trigger after.envs[id]]
        #![trigger after.sources[id]]
        id < heap.fresh ==> after.envs[id] == heap.envs[id] && after.sources[id]
            == heap.sources[id]
}

/// The value of a metatable field can be computed, and computing it leaves everything in its place.
pub open spec fn computable(world: World, id: u64) -> bool {
    forall|heap: Heap|
        (#[trigger] (world.meta_field)(id, heap)) matches Some((after, _)) && leaves_in_place(
            heap,
            after,
        )
}

/// The values of all metatable fields among the fillings can be computed.
pub open spec fn all_computable(world: World, fillings: Seq<Filling>) -> bool {
    forall|i: int|
        0 <= i < fillings.len() ==> ((#[trigger] fillings[i]).filler matches Filler::MetaField(id)
            ==> computable(world, id))
}

/// The last of the fillings of a field.
pub open spec fn last_filling(fillings: Seq<Filling>, key: Val) -> Option<Filling>
    decreases fillings.len(),
{
    if fillings.len() == 0 {
        None
    } else if key == Val::String(fillings.last().name) {
        Some(fillings.last())
    } else {
        last_filling(fillings.drop_last(), key)
    }
}

/// A field is as fillings leave it in a table that was empty: what the last of them fills it with,
/// nil if there is none.
pub open spec fn field_filled(
    m: Machine,
    table: nat,
    fillings: Seq<Filling>,
    key: Val,
    f: Val,
) -> bool {
    match last_filling(fillings, key) {
        Some(last) => supplied(m, table, field(m.tables[table], key), last.filler, f),
        None => field(m.tables[table], key) == Val::Nil,
    }
}

/// A table is as fillings leave it, the later ones prevailing, and has no other fields.
pub open spec fn filled(m: Machine, table: nat, fillings: Seq<Filling>, f: Val) -> bool {
    &&& m.tables.dom().contains(table)
    &&& forall|key: Val| #[trigger] field_filled(m, table, fillings, key, f)
}

/// No field is one that may not be set.
pub open spec fn unrestricted(fillings: Seq<Filling>) -> bool {
    forall|i: int| 0 <= i < fillings.len() ==> (#[trigger] fillings[i]).restricted is None
}

/// Some field is filled with an asynchronous callback.
pub open spec fn any_async(fillings: Seq<Filling>) -> bool {
    exists|i: int| 0 <= i < fillings.len() && (#[trigger] fillings[i]).asynchronous()
}

/// Some method of a userdata type is asynchronous.
pub open spec fn wants_async(methods: MethodsView, fields: FieldsView) -> bool {
    ||| any_async(meta_fillings(methods, fields))
    ||| any_async(callbacks(fields.field_getters))
    ||| any_async(callbacks(fields.field_setters))
    ||| any_async(method_fillings(methods))
}

/// The machine `after` has the tables of `m`, except the globals and the table `t`, and its chunks.
pub open spec fn kept(m: Machine, after: Machine, t: nat) -> bool {
    &&& m.fresh <= after.fresh
    &&& after.pending == m.pending
    &&& after.world == m.world
    &&& forall|id: nat| #[trigger]
        m.tables.dom().contains(id) ==> after.tables.dom().contains(id) && (id != t && id
            != globals() ==> after.tables[id] == m.tables[id])
    &&& forall|id: nat|
        #![trigger after.envs[id]]
        #![trigger after.sources[id]]
        id < m.fresh ==> after.envs[id] == m.envs[id] && after.sources[id] == m.sources[id]
}

/// What making and filling tables leaves alone: the metatables and their completion.
pub open spec fn filling_only(m: Machine, after: Machine) -> bool {
    after == (Machine {
        stack: after.stack,
        refs: after.refs,
        tables: after.tables,
        threads: after.threads,
        collecting: after.collecting,
        made: after.made,
        envs: after.envs,
        sources: after.sources,
        modules: after.modules,
        opened: after.opened,
        libs: after.libs,
        fresh: after.fresh,
        ..m
    })
}

proof fn lemma_filled_stays(
    m: Machine,
    after: Machine,
    table: nat,
    fillings: Seq<Filling>,
    f: Val,
    t: nat,
)
    requires
        filled(m, table, fillings, f),
        kept(m, after, t),
        1 < table,
        t != table,
        t < table || !m.tables.dom().contains(t),
    ensures
        filled(after, table, fillings, f),
{
    assert(after.tables[table] == m.tables[table]);
    assert forall|key: Val| #[trigger] field_filled(after, table, fillings, key, f) by {
        assert(field_filled(m, table, fillings, key, f));
        match last_filling(fillings, key) {
            Some(last) => lemma_supplied_stays(
                m,
                after,
                table,
                field(m.tables[table], key),
                last.filler,
                f,
                t,
            ),
            None => {},
        }
    }
}

proof fn lemma_supplied_stays(
    m: Machine,
    after: Machine,
    holder: nat,
    value: Val,
    filler: Filler,
    f: Val,
    t: nat,
)
    requires
        supplied(m, holder, value, filler, f),
        kept(m, after, t),
        1 < holder,
        t <= holder || !m.tables.dom().contains(t),
    ensures
        supplied(after, holder, value, filler, f),
{
    match filler {
        Filler::Callback(c) => if c.kind.asynchronous() {
            match value {
                Val::Chunk(driver) => {
                    assert(after.envs[driver] == m.envs[driver]);
                    assert(after.sources[driver] == m.sources[driver]);
                },
                _ => {},
            }
        },
        _ => {},
    }
}

proof fn lemma_in_place(m: Machine, heap: Heap)
    requires
        m.sane(),
        leaves_in_place(m.heap(), heap),
    ensures
        m.with_heap(heap).sane(),
        kept(m, m.with_heap(heap), m.fresh),
{
    let after = m.with_heap(heap);
    let before = m.heap();
    assert(before.tables == m.tables && before.fresh == m.fresh);
    assert forall|id: nat| #[trigger] m.tables.dom().contains(id) implies after.tables.dom().contains(
        id,
    ) && after.tables[id] == m.tables[id] by {
        assert(before.tables.dom().contains(id));
    }
    assert forall|id: nat| #[trigger] after.tables.dom().contains(id) implies id < after.fresh by {
        if !before.tables.dom().contains(id) {
            assert(heap.tables.dom().contains(id));
        }
    }
    assert(m.tables.dom().contains(registry()) && m.tables.dom().contains(globals()));
    assert forall|lib: Library| #[trigger] after.modules.dom().contains(lib) implies 1
        < after.modules[lib] && after.tables.dom().contains(after.modules[lib]) by {
        assert(m.modules.dom().contains(lib));
        assert(m.tables.dom().contains(m.modules[lib]));
    }
    assert forall|id: nat| #[trigger] after.metatables.dom().contains(id) implies id < after.fresh
        && (after.metatables[id] matches Val::Table(mt) ==> after.tables.dom().contains(mt)) by {
        assert(m.metatables.dom().contains(id));
        match m.metatables[id] {
            Val::Table(mt) => assert(m.tables.dom().contains(mt)),
            _ => {},
        }
    }
}

/// Pushing what a field is to be filled with, while the table `t` is filled.
proof fn lemma_pushed(m: Machine, t: nat, filling: Filling, f: Val)
    requires
        m.sane(),
        m.tables.dom().contains(t),
        1 < t,
        filling.asynchronous() ==> ready_beside(m, t) && awaited(m) == f,
        filling.filler matches Filler::MetaField(id) ==> computable(m.world, id),
    ensures
        ({
            let next = m.step(filling.push_op())->0;
            &&& m.step(filling.push_op()) is Some
            &&& next.stack == m.stack.push(next.top())
            &&& supplied(next, t, next.top(), filling.filler, f)
            &&& kept(m, next, t)
            &&& next.tables[t] == m.tables[t]
            &&& filling_only(m, next)
            &&& next.sane()
            &&& ready_beside(m, t) ==> ready_beside(next, t) && awaited(next) == awaited(m)
        }),
{
    let next = m.step(filling.push_op())->0;
    match filling.filler {
        Filler::Callback(c) => if c.kind.asynchronous() {
            law_async_callback_is_pushed(m, c);
            law_coroutine_is_loaded_on_demand(m);
            let loaded = demanded(m);
            assert(loaded.stack == m.stack);
            assert(apart(loaded, t)) by {
                if loads_coroutine(m) {
                    assert(seq![Library::Coroutine][0] == Library::Coroutine);
                    assert(seq![Library::Coroutine].contains(Library::Coroutine));
                    assert(is_global(loaded, Library::Coroutine));
                    assert(module_name(m.version, Library::Coroutine) == "coroutine".spec_bytes());
                }
            }
            lemma_ready_stays(loaded, next, loaded.fresh);
            assert(apart(next, t));
        } else {
            if ready_beside(m, t) {
                lemma_ready_stays(m, next, t);
            }
        },
        Filler::MetaField(id) => {
            let (heap, value) = (m.world.meta_field)(id, m.heap())->0;
            assert(leaves_in_place(m.heap(), heap));
            assert(computes(next.world, id, m.heap(), value));
            lemma_in_place(m, heap);
            if ready_beside(m, t) {
                lemma_ready_stays(m, next, t);
            }
        },
    }
}

proof fn lemma_set(m: Machine, t: nat, fillings: Seq<Filling>, f: Val)
    requires
        fillings.len() > 0,
        fillings.last().restricted is None,
        m.height() > 1,
        m.stack[m.height() - 2] == Val::Table(t),
        m.sane(),
        1 < t,
        filled(m, t, fillings.drop_last(), f),
        supplied(m, t, m.top(), fillings.last().filler, f),
    ensures
        ({
            let next = m.step(fillings.last().set_op())->0;
            &&& m.step(fillings.last().set_op()) is Some
            &&& next.stack == m.stack.drop_last()
            &&& filled(next, t, fillings, f)
            &&& kept(m, next, t)
            &&& filling_only(m, next)
            &&& next.sane()
            &&& ready_beside(m, t) ==> ready_beside(next, t) && awaited(next) == awaited(m)
        }),
{
    let last = fillings.last();
    let rest = fillings.drop_last();
    let next = m.step(last.set_op())->0;
    assert(next.stack =~= m.stack.drop_last());
    if ready_beside(m, t) {
        lemma_ready_stays(m, next, t);
    }
    assert forall|key: Val| #[trigger] field_filled(next, t, fillings, key, f) by {
        if key == Val::String(last.name) {
            lemma_supplied_stays(m, next, t, m.top(), last.filler, f, t);
        } else {
            assert(field_filled(m, t, rest, key, f));
            match last_filling(rest, key) {
                Some(earlier) => lemma_supplied_stays(
                    m,
                    next,
                    t,
                    field(m.tables[t], key),
                    earlier.filler,
                    f,
                    t,
                ),
                None => {},
            }
        }
    }
}

proof fn lemma_filled(m: Machine, t: nat, fillings: Seq<Filling>, f: Val)
    requires
        m.height() > 0,
        m.top() == Val::Table(t),
        m.sane(),
        m.tables.dom().contains(t),
        m.tables[t] == Map::<Val, Val>::empty(),
        1 < t,
        unrestricted(fillings),
        any_async(fillings) ==> ready_beside(m, t) && awaited(m) == f,
        all_computable(m.world, fillings),
    ensures
        ({
            let after = m.run(fill_ops(fillings))->0;
            &&& m.run(fill_ops(fillings)) is Some
            &&& after.stack == m.stack
            &&& filled(after, t, fillings, f)
            &&& kept(m, after, t)
            &&& filling_only(m, after)
            &&& after.sane()
            &&& ready_beside(m, t) ==> ready_beside(after, t) && awaited(after) == awaited(m)
        }),
    decreases fillings.len(),
{
    if fillings.len() == 0 {
        lemma_done(m, fill_ops(fillings), 0);
        assert forall|key: Val| #[trigger] field_filled(m, t, fillings, key, f) by {}
    } else {
        let rest = fillings.drop_last();
        let last = fillings.last();
        assert(fillings[fillings.len() - 1] == last);
        assert forall|i: int| 0 <= i < rest.len() implies (#[trigger] rest[i]).restricted
            is None by {
            assert(rest[i] == fillings[i]);
        }
        assert(all_computable(m.world, rest)) by {
            assert forall|i: int| 0 <= i < rest.len() implies ((#[trigger] rest[i]).filler matches
                Filler::MetaField(id) ==> computable(m.world, id)) by {
                assert(rest[i] == fillings[i]);
            }
        }
        if any_async(rest) {
            let i = choose|i: int| 0 <= i < rest.len() && (#[trigger] rest[i]).asynchronous();
            assert(fillings[i] == rest[i]);
        }
        lemma_filled(m, t, rest, f);
        let mid = m.run(fill_ops(rest))->0;
        let code = seq![last.push_op(), last.set_op()];
        lemma_run_concat(m, fill_ops(rest), code);
        lemma_pushed(mid, t, last, f);
        let pushed = mid.step(last.push_op())->0;
        lemma_next(mid, code, 0, pushed);
        lemma_filled_after_push(mid, pushed, t, rest, f);
        lemma_set(pushed, t, fillings, f);
        let after = pushed.step(last.set_op())->0;
        lemma_next(pushed, code, 1, after);
        lemma_done(after, code, 2);
        assert(after.stack =~= m.stack);
    }
}

/// The table that is being filled stays as it is while the next value is pushed.
proof fn lemma_filled_after_push(m: Machine, next: Machine, t: nat, fillings: Seq<Filling>, f: Val)
    requires
        filled(m, t, fillings, f),
        kept(m, next, t),
        next.tables[t] == m.tables[t],
        1 < t,
    ensures
        filled(next, t, fillings, f),
{
    assert forall|key: Val| #[trigger] field_filled(next, t, fillings, key, f) by {
        assert(field_filled(m, t, fillings, key, f));
        match last_filling(fillings, key) {
            Some(last) => lemma_supplied_stays(
                m,
                next,
                t,
                field(m.tables[t], key),
                last.filler,
                f,
                t,
            ),
            None => {},
        }
    }
}

/// A table was made and filled: it is new and on top of the stack, and nothing else has changed but
/// for asynchronous functions, their parts and the module `coroutine`.
pub open spec fn table_made(m: Machine, after: Machine, fillings: Seq<Filling>, f: Val) -> bool {
    &&& after.stack == m.stack.push(Val::Table(m.fresh))
    &&& m.fresh < after.fresh
    &&& filled(after, m.fresh, fillings, f)
    &&& kept(m, after, m.fresh)
    &&& filling_only(m, after)
    &&& after.sane()
    &&& async_ready(m) ==> async_ready(after) && awaited(after) == awaited(m)
}

proof fn lemma_table_made(m: Machine, nrec: i32, fillings: Seq<Filling>, f: Val)
    requires
        m.sane(),
        unrestricted(fillings),
        any_async(fillings) ==> async_ready(m) && awaited(m) == f,
        all_computable(m.world, fillings),
    ensures
        ({
            let code = seq![Op::CreateTable(0, nrec)] + fill_ops(fillings);
            m.run(code) is Some && table_made(m, m.run(code)->0, fillings, f)
        }),
{
    let first = seq![Op::CreateTable(0, nrec)];
    let begun = with_table(m);
    lemma_run_concat(m, first, fill_ops(fillings));
    lemma_single(m, first[0], begun);
    assert(begun.sane());
    if async_ready(m) {
        lemma_ready_stays(m, begun, m.fresh);
        assert forall|id: nat| #[trigger] begun.metatables.dom().contains(id) implies
            begun.metatables[id] != Val::Table(m.fresh) by {
            assert(m.metatables.dom().contains(id));
        }
        assert forall|lib: Library| #[trigger] begun.modules.dom().contains(lib) implies
            begun.modules[lib] != m.fresh by {
            assert(m.modules.dom().contains(lib));
        }
        assert(apart(begun, m.fresh));
    }
    lemma_filled(begun, m.fresh, fillings, f);
    let after = begun.run(fill_ops(fillings))->0;
    assert forall|id: nat| #[trigger] m.tables.dom().contains(id) implies after.tables.dom().contains(
        id,
    ) && (id != m.fresh && id != globals() ==> after.tables[id] == m.tables[id]) by {
        assert(begun.tables.dom().contains(id));
    }
    assert(kept(m, after, m.fresh));
    assert(filling_only(m, after));
}

/// The machine with a table made and filled, if there is something to fill it with.
pub open spec fn extra_table_made(
    m: Machine,
    after: Machine,
    fillings: Seq<Filling>,
    f: Val,
) -> bool {
    if fillings.len() == 0 {
        after == m
    } else {
        table_made(m, after, fillings, f)
    }
}

proof fn lemma_extra_table(m: Machine, fillings: Seq<Filling>, f: Val)
    requires
        m.sane(),
        unrestricted(fillings),
        any_async(fillings) ==> async_ready(m) && awaited(m) == f,
        all_computable(m.world, fillings),
    ensures
        m.run(extra_table_ops(fillings)) is Some,
        extra_table_made(m, m.run(extra_table_ops(fillings))->0, fillings, f),
{
    if fillings.len() == 0 {
        lemma_done(m, extra_table_ops(fillings), 0);
    } else {
        lemma_table_made(m, fillings.len() as i32, fillings, f);
    }
}

/// The table that there is if there is something to fill it with: a table as the fillings leave it,
/// which is newer than the metatable.
pub open spec fn extra_table(
    m: Machine,
    table: Option<Val>,
    metatable: nat,
    fillings: Seq<Filling>,
    f: Val,
) -> bool {
    if fillings.len() == 0 {
        table is None
    } else {
        &&& table matches Some(Val::Table(t))
        &&& metatable < t
        &&& filled(m, t, fillings, f)
    }
}

proof fn lemma_continued(m: Machine, a: Seq<Op>, b: Seq<Op>, mid: Machine, end: Machine)
    requires
        m.run(a) == Some(mid),
        mid.run(b) == Some(end),
    ensures
        m.run(a + b) == Some(end),
{
    lemma_run_concat(m, a, b);
}

/// What the instructions do that complete a metatable, take the other tables off the stack and put
/// the metatable into the registry.
proof fn lemma_completed(m: Machine, tail: Seq<Op>, base: int, n: int, table: nat, wiring: Wiring)
    requires
        tail.len() == 4,
        m.step(tail[0]) == Some(Machine { wirings: m.wirings.push(wiring), ..m }),
        tail[1] == Op::Pop(n as i32),
        tail[2] == Op::PushValue(Index::FromTop(1)),
        tail[3] == Op::MakeRef,
        0 <= n <= 3,
        0 <= base,
        m.height() == base + 1 + n,
        m.stack[base] == Val::Table(table),
        m.tables.dom().contains(registry()),
        exists|id: i32| #[trigger] unused(m.tables[registry()], id),
    ensures
        ({
            let after = m.run(tail)->0;
            &&& m.run(tail) is Some
            &&& unused(m.tables[registry()], after.made)
            &&& after == (Machine {
                stack: m.stack.take(base + 1),
                wirings: m.wirings.push(wiring),
                made: after.made,
                tables: m.tables.insert(
                    registry(),
                    m.tables[registry()].insert(
                        Val::Integer(after.made as i64),
                        Val::Table(table),
                    ),
                ),
                ..m
            })
        }),
{
    let m1 = Machine { wirings: m.wirings.push(wiring), ..m };
    lemma_next(m, tail, 0, m1);
    let m2 = Machine { stack: m.stack.take(base + 1), ..m1 };
    lemma_next(m1, tail, 1, m2);
    let m3 = m2.push(Val::Table(table));
    lemma_next(m2, tail, 2, m3);
    assert(m3.stack.take(m3.height() - 1) =~= m2.stack);
    let made = m3.next_ref();
    assert(m3.top() == Val::Table(table));
    assert(unused(m.tables[registry()], made));
    let m4 = Machine {
        made,
        tables: m.tables.insert(
            registry(),
            m.tables[registry()].insert(Val::Integer(made as i64), Val::Table(table)),
        ),
        ..m2
    };
    assert(m3.step(Op::MakeRef) == Some(m4));
    lemma_next(m3, tail, 3, m4);
    lemma_done(m4, tail, 4);
}

/// The instructions that make the tables of a userdata type: the metatable and the others.
pub open spec fn tables_ops(methods: MethodsView, fields: FieldsView) -> Seq<Op> {
    let meta = meta_fillings(methods, fields);
    seq![InstrOf::CheckStack(13), InstrOf::CreateTable(0, meta.len() as i32)] + fill_ops(meta)
        + extra_table_ops(callbacks(fields.field_getters)) + extra_table_ops(
        callbacks(fields.field_setters),
    ) + extra_table_ops(method_fillings(methods))
}

/// The machines on the way to the tables of a userdata type: after the metatable, the getters, the
/// setters and the methods.
pub open spec fn tables_made(
    m: Machine,
    path: (Machine, Machine, Machine, Machine),
    methods: MethodsView,
    fields: FieldsView,
    f: Val,
) -> bool {
    &&& table_made(m, path.0, meta_fillings(methods, fields), f)
    &&& extra_table_made(path.0, path.1, callbacks(fields.field_getters), f)
    &&& extra_table_made(path.1, path.2, callbacks(fields.field_setters), f)
    &&& extra_table_made(path.2, path.3, method_fillings(methods), f)
}

proof fn lemma_callbacks_are_unrestricted(list: Seq<(Seq<u8>, Callback)>)
    ensures
        unrestricted(callbacks(list)),
        forall|world: World| #[trigger] all_computable(world, callbacks(list)),
{
}

proof fn lemma_tables(m: Machine, methods: MethodsView, fields: FieldsView) -> (path: (
    Machine,
    Machine,
    Machine,
    Machine,
))
    requires
        m.roomy(),
        m.sane(),
        unrestricted(meta_fillings(methods, fields)),
        wants_async(methods, fields) ==> async_ready(m),
        all_computable(m.world, meta_fillings(methods, fields)),
    ensures
        m.run(tables_ops(methods, fields)) == Some(path.3),
        tables_made(m, path, methods, fields, awaited(m)),
{
    let f = awaited(m);
    let meta = meta_fillings(methods, fields);
    let getters = callbacks(fields.field_getters);
    let setters = callbacks(fields.field_setters);
    let calls = method_fillings(methods);
    let check = seq![Op::CheckStack(13)];
    let make = seq![Op::CreateTable(0, meta.len() as i32)] + fill_ops(meta);
    lemma_table_made(m, meta.len() as i32, meta, f);
    lemma_single(m, check[0], m);
    let a = m.run(make)->0;
    lemma_continued(m, check, make, m, a);
    let c1 = seq![Op::CheckStack(13), Op::CreateTable(0, meta.len() as i32)] + fill_ops(meta);
    assert(c1 =~= check + make);
    lemma_callbacks_are_unrestricted(fields.field_getters);
    lemma_callbacks_are_unrestricted(fields.field_setters);
    lemma_callbacks_are_unrestricted(methods.methods);
    lemma_callbacks_are_unrestricted(methods.async_methods);
    lemma_extra_table(a, getters, f);
    let b = a.run(extra_table_ops(getters))->0;
    lemma_continued(m, c1, extra_table_ops(getters), a, b);
    lemma_extra_table(b, setters, f);
    let c = b.run(extra_table_ops(setters))->0;
    lemma_continued(m, c1 + extra_table_ops(getters), extra_table_ops(setters), b, c);
    assert(all_computable(c.world, calls)) by {
        assert(all_computable(c.world, callbacks(methods.methods)));
        assert(all_computable(c.world, callbacks(methods.async_methods)));
    }
    lemma_extra_table(c, calls, f);
    let d = c.run(extra_table_ops(calls))->0;
    lemma_continued(
        m,
        c1 + extra_table_ops(getters) + extra_table_ops(setters),
        extra_table_ops(calls),
        c,
        d,
    );
    (a, b, c, d)
}

/// The table of a machine on the way, if it was made there.
pub open spec fn table_of(m: Machine, fillings: Seq<Filling>) -> Option<Val> {
    if fillings.len() == 0 {
        None
    } else {
        Some(Val::Table(m.fresh))
    }
}

proof fn lemma_extra_table_stays(
    m: Machine,
    made: Machine,
    after: Machine,
    metatable: nat,
    fillings: Seq<Filling>,
    f: Val,
    t: nat,
)
    requires
        1 < metatable < m.fresh,
        extra_table_made(m, made, fillings, f),
        kept(made, after, t),
        t <= metatable || !made.tables.dom().contains(t),
    ensures
        extra_table(after, table_of(m, fillings), metatable, fillings, f),
{
    if fillings.len() > 0 {
        lemma_filled_stays(made, after, m.fresh, fillings, f, t);
    }
}

/// The tables of a userdata type as they are on the stack and stay until the end.
proof fn lemma_path(
    m: Machine,
    path: (Machine, Machine, Machine, Machine),
    methods: MethodsView,
    fields: FieldsView,
    f: Val,
)
    requires
        m.sane(),
        m.height() <= i32::MAX - 4,
        tables_made(m, path, methods, fields, f),
    ensures
        ({
            let getters = callbacks(fields.field_getters);
            let setters = callbacks(fields.field_setters);
            let calls = method_fillings(methods);
            let end = path.3;
            let h = m.height();
            &&& end.height() == h + 1 + count(getters) + count(setters) + count(calls)
            &&& end.stack.take(h + 1) == m.stack.push(Val::Table(m.fresh))
            &&& end.stack[h] == Val::Table(m.fresh)
            &&& end.slot(slot_of(getters, h + 2)) == table_of(path.0, getters)
            &&& end.slot(slot_of(setters, h + 2 + count(getters))) == table_of(path.1, setters)
            &&& end.slot(slot_of(calls, h + 2 + count(getters) + count(setters))) == table_of(
                path.2,
                calls,
            )
            &&& filling_only(m, end)
            &&& end.tables[registry()] == m.tables[registry()]
            &&& end.sane()
            &&& async_ready(m) ==> async_ready(end) && awaited(end) == awaited(m)
        }),
{
    let h = m.height();
    assert(path.3.stack.take(h + 1) =~= m.stack.push(Val::Table(m.fresh)));
}

/// If there are two tables, they are different: the second is newer.
pub open spec fn older(first: Option<Val>, second: Option<Val>) -> bool {
    first matches Some(Val::Table(a)) ==> (second matches Some(Val::Table(b)) ==> a < b)
}

/// The metatable of a userdata type is a new table with its metatable methods and fields, the later
/// ones prevailing. It is completed with new tables, all of them different, of the getters, of the
/// setters and of the methods, as far as there are any. It ends up alone on top of the stack, and in the registry under
/// an integer that was not in use. Methods that are asynchronous are drivers, which wait with the
/// function `yield` of the module `coroutine`; the module is loaded for them if it has to be. The
/// values of the fields are those that the embedder computes, in whatever way that leaves everything
/// in its place.
pub proof fn law_metatable(m: Machine, methods: MethodsView, fields: FieldsView)
    requires
        m.roomy(),
        m.wf(),
        m.height() <= i32::MAX - 4,
        unrestricted(meta_fillings(methods, fields)),
        wants_async(methods, fields) ==> async_ready(m),
        all_computable(m.world, meta_fillings(methods, fields)),
    ensures
        ({
            let f = awaited(m);
            let code = metatable_plan(m.height(), methods, fields).steps;
            let after = m.run(code)->0;
            let wiring = after.wirings.last();
            &&& m.run(code) is Some
            &&& after.stack == m.stack.push(Val::Table(m.fresh))
            &&& after.wirings == m.wirings.push(wiring)
            &&& wiring.metatable == Val::Table(m.fresh)
            &&& filled(after, m.fresh, meta_fillings(methods, fields), f)
            &&& extra_table(
                after,
                wiring.field_getters,
                m.fresh,
                callbacks(fields.field_getters),
                f,
            )
            &&& extra_table(
                after,
                wiring.field_setters,
                m.fresh,
                callbacks(fields.field_setters),
                f,
            )
            &&& extra_table(after, wiring.methods, m.fresh, method_fillings(methods), f)
            &&& older(wiring.field_getters, wiring.field_setters)
            &&& older(wiring.field_getters, wiring.methods)
            &&& older(wiring.field_setters, wiring.methods)
            &&& unused(m.tables[registry()], after.made)
            &&& after.tables[registry()] == m.tables[registry()].insert(
                Val::Integer(after.made as i64),
                Val::Table(m.fresh),
            )
            &&& after.metatables == m.metatables
            &&& after.fresh > m.fresh
            &&& after.sane()
        }),
{
    let f = awaited(m);
    let meta = meta_fillings(methods, fields);
    let getters = callbacks(fields.field_getters);
    let setters = callbacks(fields.field_setters);
    let calls = method_fillings(methods);
    let base = m.height();
    let n = count(getters) + count(setters) + count(calls);
    let tail = complete_ops(
        (base + 1) as i32,
        slot_of(getters, base + 2),
        slot_of(setters, base + 2 + count(getters)),
        slot_of(calls, base + 2 + count(getters) + count(setters)),
        n as i32,
    );
    lemma_run_concat(m, tables_ops(methods, fields), tail);
    let path = lemma_tables(m, methods, fields);
    let (a, b, c, d) = path;
    lemma_path(m, path, methods, fields, f);
    let wiring = Wiring {
        metatable: Val::Table(m.fresh),
        field_getters: table_of(a, getters),
        field_setters: table_of(b, setters),
        methods: table_of(c, calls),
    };
    assert(d.step(tail[0]) == Some(Machine { wirings: d.wirings.push(wiring), ..d }));
    lemma_completed(d, tail, base, n, m.fresh, wiring);
    let after = d.run(tail)->0;
    assert(kept(d, after, registry()));
    lemma_kept(m, path, methods, fields, f, after);
    lemma_filled_stays(a, after, m.fresh, meta, f, registry());
    lemma_extra_table_stays(a, b, after, m.fresh, getters, f, registry());
    lemma_extra_table_stays(b, c, after, m.fresh, setters, f, registry());
    lemma_extra_table_stays(c, d, after, m.fresh, calls, f, registry());
}

/// What was made on the way is still there at the end.
proof fn lemma_kept(
    m: Machine,
    path: (Machine, Machine, Machine, Machine),
    methods: MethodsView,
    fields: FieldsView,
    f: Val,
    after: Machine,
)
    requires
        m.sane(),
        tables_made(m, path, methods, fields, f),
        kept(path.3, after, registry()),
    ensures
        kept(path.0, after, registry()),
        kept(path.1, after, registry()),
        kept(path.2, after, registry()),
        m.fresh < path.0.fresh <= path.1.fresh <= path.2.fresh,
{
    let (a, b, c, d) = path;
    lemma_kept_before(c, d, after, method_fillings(methods), f);
    lemma_kept_before(b, c, after, callbacks(fields.field_setters), f);
    lemma_kept_before(a, b, after, callbacks(fields.field_getters), f);
}

proof fn lemma_kept_before(
    m: Machine,
    made: Machine,
    after: Machine,
    fillings: Seq<Filling>,
    f: Val,
)
    requires
        m.sane(),
        extra_table_made(m, made, fillings, f),
        kept(made, after, registry()),
    ensures
        kept(m, after, registry()),
{
    if fillings.len() > 0 {
        assert forall|id: nat| #[trigger] m.tables.dom().contains(id) implies
            after.tables.dom().contains(id) && (id != registry() && id != globals()
            ==> after.tables[id] == m.tables[id]) by {
            assert(made.tables.dom().contains(id));
        }
        assert forall|id: nat|
            #![trigger after.envs[id]]
            #![trigger after.sources[id]]
            id < m.fresh implies after.envs[id] == m.envs[id] && after.sources[id]
            == m.sources[id] by {
            assert(made.envs[id] == m.envs[id]);
            assert(made.sources[id] == m.sources[id]);
        }
    }
}

/// Once the metatable of a userdata type has been made and registered, pushing it again pushes the
/// same table.
pub proof fn law_metatable_is_made_once(
    m: Machine,
    extra: ExtraView,
    type_id: u64,
    id: i32,
    table: Val,
)
    requires
        m.wf(),
        field(m.tables[registry()], Val::Integer(id as i64)) == table,
    ensures
        ({
            let registered = extra.registered_userdata.insert(type_id, id);
            &&& registered.dom().contains(type_id)
            &&& m.run(registered_plan(registered[type_id]).steps) == Some(m.push(table))
        }),
{
    lemma_single(m, InstrOf::RawGetI(Index::Registry, id as i64), m.push(table));
}

/// A new userdata has the metatable of its type, which is in the registry.
pub proof fn law_userdata_has_its_metatable(m: Machine, id: i32)
    requires
        m.roomy(),
        m.wf(),
    ensures
        ({
            let code = userdata_push_plan().steps + registered_plan(id).steps
                + userdata_attach_plan().steps;
            let after = m.run(code)->0;
            &&& m.run(code) is Some
            &&& after.stack == m.stack.push(Val::UserData(m.fresh))
            &&& after.metatables[m.fresh] == field(
                m.tables[registry()],
                Val::Integer(id as i64),
            )
        }),
{
    let code = userdata_push_plan().steps + registered_plan(id).steps
        + userdata_attach_plan().steps;
    let m2 = Machine { fresh: m.fresh + 1, ..m.push(Val::UserData(m.fresh)) };
    lemma_next(m, code, 0, m);
    lemma_next(m, code, 1, m2);
    let metatable = field(m.tables[registry()], Val::Integer(id as i64));
    let m3 = m2.push(metatable);
    lemma_next(m2, code, 2, m3);
    let m4 = Machine { metatables: m.metatables.insert(m.fresh, metatable), ..m2 };
    assert(m3.stack[m3.height() - 2] == Val::UserData(m.fresh));
    assert(m3.stack.take(m3.height() - 1) =~= m2.stack);
    assert(code[3] == Op::SetMetatable(Index::FromTop(2)));
    lemma_next(m3, code, 3, m4);
    lemma_done(m4, code, 4);
}

/// A new userdata of a type whose metatable has to be made first has that metatable.
pub proof fn law_first_userdata_has_its_metatable(
    m: Machine,
    methods: MethodsView,
    fields: FieldsView,
)
    requires
        m.roomy(),
        m.wf(),
        m.height() < i32::MAX - 4,
        unrestricted(meta_fillings(methods, fields)),
        wants_async(methods, fields) ==> async_ready(m),
        all_computable(m.world, meta_fillings(methods, fields)),
    ensures
        ({
            let code = userdata_plan(
                metatable_plan(m.height() + 1, methods, fields).steps,
            ).steps;
            let after = m.run(code)->0;
            &&& m.run(code) is Some
            &&& after.stack == m.stack.push(Val::UserData(m.fresh))
            &&& after.metatables[m.fresh] == Val::Table(m.fresh + 1)
            &&& filled(after, m.fresh + 1, meta_fillings(methods, fields), awaited(m))
        }),
{
    let push = userdata_push_plan().steps;
    let meta = metatable_plan(m.height() + 1, methods, fields).steps;
    let attach = userdata_attach_plan().steps;
    lemma_run_concat(m, push + meta, attach);
    lemma_run_concat(m, push, meta);
    let m1 = Machine { fresh: m.fresh + 1, ..m.push(Val::UserData(m.fresh)) };
    lemma_next(m, push, 0, m);
    lemma_next(m, push, 1, m1);
    lemma_done(m1, push, 2);
    let id = choose|id: i32| #[trigger] unused(m.tables[registry()], id);
    assert(unused(m1.tables[registry()], id));
    if async_ready(m) {
        lemma_ready_stays(m, m1, m.fresh);
    }
    law_metatable(m1, methods, fields);
    let m2 = m1.run(meta)->0;
    assert(m2.stack[m2.height() - 2] == Val::UserData(m.fresh));
    assert(m2.stack.take(m2.height() - 1) =~= m1.stack);
    let m3 = Machine {
        metatables: m2.metatables.insert(m.fresh, m2.top()),
        ..m2.pop(1)
    };
    lemma_next(m2, attach, 0, m3);
    lemma_done(m3, attach, 1);
    assert(kept(m2, m3, m3.fresh));
    assert(!m2.tables.dom().contains(m3.fresh));
    lemma_filled_stays(
        m2,
        m3,
        m.fresh + 1,
        meta_fillings(methods, fields),
        awaited(m1),
        m3.fresh,
    );
}

/// Registering a metatable makes userdata with it accepted, taking the registration back ends that,
/// and neither changes anything for userdata with another metatable.
pub proof fn law_registration(registered: Set<isize>, ptr: isize, other: isize)
    ensures
        accepted(registered.insert(ptr), Some(ptr)),
        !accepted(registered.remove(ptr), Some(ptr)),
        other != ptr ==> accepted(registered.insert(ptr), Some(other)) == accepted(
            registered,
            Some(other),
        ),
        other != ptr ==> accepted(registered.remove(ptr), Some(other)) == accepted(
            registered,
            Some(other),
        ),
{
}

/// A userdata is accepted exactly if it has a metatable and that is registered.
pub proof fn law_accepted_userdata(registered: Set<isize>, ptr: isize)
    ensures
        accepted(registered, Some(ptr)) <==> registered.contains(ptr),
        !accepted(registered, None),
{
}

/// The table of methods is filled with all methods, under their names and in the order in which they
/// were added, the asynchronous ones after the others. Those of getters and setters are filled in the
/// same way.
pub proof fn law_filled_methods(methods: MethodsView, list: Seq<(Seq<u8>, Callback)>, i: int)
    ensures
        method_fillings(methods).len() == methods.methods.len() + methods.async_methods.len(),
        0 <= i < methods.methods.len() ==> method_fillings(methods)[i] == (Filling {
            name: methods.methods[i].0,
            restricted: None,
            filler: Filler::Callback(methods.methods[i].1),
        }),
        0 <= i < methods.async_methods.len() ==> method_fillings(methods)[methods.methods.len() + i]
            == (Filling {
            name: methods.async_methods[i].0,
            restricted: None,
            filler: Filler::Callback(methods.async_methods[i].1),
        }),
        callbacks(list).len() == list.len(),
        0 <= i < list.len() ==> callbacks(list)[i] == (Filling {
            name: list[i].0,
            restricted: None,
            filler: Filler::Callback(list[i].1),
        }),
{
}

/// The metatable is filled with all its methods and then with all its fields, in the order in which
/// they were added. One that may not be set keeps its error.
pub proof fn law_filled_metatable(methods: MethodsView, fields: FieldsView, i: int)
    ensures
        meta_fillings(methods, fields).len() == methods.meta_methods.len()
            + fields.meta_fields.len(),
        0 <= i < methods.meta_methods.len() ==> meta_fillings(methods, fields)[i] == (Filling {
            name: methods.meta_methods[i].0.name,
            restricted: methods.meta_methods[i].0.restricted,
            filler: Filler::Callback(methods.meta_methods[i].1),
        }),
        0 <= i < fields.meta_fields.len() ==> meta_fillings(
            methods,
            fields,
        )[methods.meta_methods.len() + i] == (Filling {
            name: fields.meta_fields[i].0.name,
            restricted: fields.meta_fields[i].0.restricted,
            filler: Filler::MetaField(fields.meta_fields[i].1),
        }),
{
}

/// The instructions for a field push its value and then set it under its name, or fail with its error
/// if it may not be set.
pub proof fn law_filling_instructions(name: Seq<u8>, c: Callback, id: u64, error: u64)
    ensures
        (Filling { name, restricted: None, filler: Filler::Callback(c) }).push_op()
            == Op::PushCallback(c),
        (Filling { name, restricted: None, filler: Filler::MetaField(id) }).push_op()
            == Op::PushMetaField(id),
        (Filling { name, restricted: None, filler: Filler::Callback(c) }).set_op()
            == Op::RawSetField(Index::FromTop(2), name),
        (Filling { name, restricted: Some(error), filler: Filler::Callback(c) }).set_op()
            == Op::Fail(ErrorOf::Foreign(error)),
{
}

/// An asynchronous method in a table of methods, called with any arguments, starts its callback on
/// exactly these arguments before it does anything else.
pub proof fn law_async_method_is_called(
    m: Machine,
    holder: nat,
    value: Val,
    c: Callback,
    f: Val,
    args: Seq<Val>,
    answers: Answers,
)
    requires
        is_async_function(m, holder, value, c, f),
    ensures
        ({
            &&& value matches Val::Chunk(chunk)
            &&& driver().is_source(m.sources[chunk])
            &&& m.envs[chunk] matches Val::Table(env)
            &&& driver().called(m.tables[env], args, 0, answers).0 == seq![
                Made {
                    function: Val::Closure(
                        CFunction::CallAsyncCallback,
                        seq![Val::Gc(GcValue::AsyncCallback(c)), Val::Gc(GcValue::Lua)],
                    ),
                    args,
                },
            ]
        }),
{
    law_driver_text();
    lemma_environment(get_poll_function(c), f, m.pending);
    law_driver_start(environment_fields(get_poll_function(c), f, m.pending), args, answers);
}

proof fn lemma_last_filling(fillings: Seq<Filling>, i: int)
    requires
        0 <= i < fillings.len(),
        forall|j: int| i < j < fillings.len() ==> (#[trigger] fillings[j]).name != fillings[i].name,
    ensures
        last_filling(fillings, Val::String(fillings[i].name)) == Some(fillings[i]),
    decreases fillings.len(),
{
    let last = fillings[fillings.len() - 1];
    if i < fillings.len() - 1 {
        let rest = fillings.drop_last();
        assert forall|j: int| i < j < rest.len() implies (#[trigger] rest[j]).name
            != rest[i].name by {
            assert(rest[j] == fillings[j]);
        }
        lemma_last_filling(rest, i);
    }
}

/// The closure that calls a callback, as it is found in the tables of a userdata type.
proof fn lemma_found(m: Machine, table: nat, fillings: Seq<Filling>, f: Val, i: int, c: Callback)
    requires
        filled(m, table, fillings, f),
        0 <= i < fillings.len(),
        fillings[i].filler == Filler::Callback(c),
        c.kind != CallKind::AsyncFunction,
        c.kind != CallKind::AsyncMethod,
        forall|j: int| i < j < fillings.len() ==> (#[trigger] fillings[j]).name != fillings[i].name,
    ensures
        field(m.tables[table], Val::String(fillings[i].name)) == Val::Closure(
            CFunction::CallCallback,
            seq![Val::Gc(GcValue::Callback(c)), Val::Gc(GcValue::Lua)],
        ),
{
    lemma_last_filling(fillings, i);
    assert(field_filled(m, table, fillings, Val::String(fillings[i].name), f));
}

/// Once the metatable of a userdata type was made, the table of its methods holds, under the name of
/// each synchronous method that no later one has, the function that calls exactly that method.
pub proof fn law_methods_are_found(m: Machine, methods: MethodsView, fields: FieldsView, i: int)
    requires
        m.roomy(),
        m.wf(),
        m.height() <= i32::MAX - 4,
        unrestricted(meta_fillings(methods, fields)),
        wants_async(methods, fields) ==> async_ready(m),
        all_computable(m.world, meta_fillings(methods, fields)),
        0 <= i < methods.methods.len(),
        methods.methods[i].1.kind != CallKind::AsyncFunction,
        methods.methods[i].1.kind != CallKind::AsyncMethod,
        forall|j: int|
            i < j < methods.methods.len() ==> (#[trigger] methods.methods[j]).0
                != methods.methods[i].0,
        forall|j: int|
            0 <= j < methods.async_methods.len() ==> (#[trigger] methods.async_methods[j]).0
                != methods.methods[i].0,
    ensures
        ({
            let after = m.run(metatable_plan(m.height(), methods, fields).steps)->0;
            &&& after.wirings.last().metatable == Val::Table(m.fresh)
            &&& after.wirings.last().methods matches Some(Val::Table(t))
            &&& field(after.tables[t], Val::String(methods.methods[i].0)) == Val::Closure(
                CFunction::CallCallback,
                seq![Val::Gc(GcValue::Callback(methods.methods[i].1)), Val::Gc(GcValue::Lua)],
            )
        }),
{
    law_metatable(m, methods, fields);
    let after = m.run(metatable_plan(m.height(), methods, fields).steps)->0;
    let fillings = method_fillings(methods);
    assert forall|j: int| i < j < fillings.len() implies (#[trigger] fillings[j]).name
        != fillings[i].name by {
        if j < methods.methods.len() {
            assert(methods.methods[j].0 != methods.methods[i].0);
        } else {
            let k = j - methods.methods.len();
            assert(methods.async_methods[k].0 != methods.methods[i].0);
        }
    }
    if let Some(Val::Table(t)) = after.wirings.last().methods {
        lemma_found(after, t, fillings, awaited(m), i, methods.methods[i].1);
    }
}

/// The same holds of the getters and of the setters, each in the table of its own.
pub proof fn law_accessors_are_found(m: Machine, methods: MethodsView, fields: FieldsView, i: int)
    requires
        m.roomy(),
        m.wf(),
        m.height() <= i32::MAX - 4,
        unrestricted(meta_fillings(methods, fields)),
        wants_async(methods, fields) ==> async_ready(m),
        all_computable(m.world, meta_fillings(methods, fields)),
    ensures
        ({
            let after = m.run(metatable_plan(m.height(), methods, fields).steps)->0;
            let list = fields.field_getters;
            0 <= i < list.len() && list[i].1.kind != CallKind::AsyncFunction && list[i].1.kind
                != CallKind::AsyncMethod && (forall|j: int|
                i < j < list.len() ==> (#[trigger] list[j]).0 != list[i].0) ==> {
                &&& after.wirings.last().field_getters matches Some(Val::Table(t))
                &&& field(after.tables[t], Val::String(list[i].0)) == Val::Closure(
                    CFunction::CallCallback,
                    seq![Val::Gc(GcValue::Callback(list[i].1)), Val::Gc(GcValue::Lua)],
                )
            }
        }),
        ({
            let after = m.run(metatable_plan(m.height(), methods, fields).steps)->0;
            let list = fields.field_setters;
            0 <= i < list.len() && list[i].1.kind != CallKind::AsyncFunction && list[i].1.kind
                != CallKind::AsyncMethod && (forall|j: int|
                i < j < list.len() ==> (#[trigger] list[j]).0 != list[i].0) ==> {
                &&& after.wirings.last().field_setters matches Some(Val::Table(t))
                &&& field(after.tables[t], Val::String(list[i].0)) == Val::Closure(
                    CFunction::CallCallback,
                    seq![Val::Gc(GcValue::Callback(list[i].1)), Val::Gc(GcValue::Lua)],
                )
            }
        }),
{
    law_metatable(m, methods, fields);
    let after = m.run(metatable_plan(m.height(), methods, fields).steps)->0;
    let wiring = after.wirings.last();
    lemma_accessor(after, wiring.field_getters, m.fresh, fields.field_getters, awaited(m), i);
    lemma_accessor(after, wiring.field_setters, m.fresh, fields.field_setters, awaited(m), i);
}

proof fn lemma_accessor(
    m: Machine,
    table: Option<Val>,
    metatable: nat,
    list: Seq<(Seq<u8>, Callback)>,
    f: Val,
    i: int,
)
    requires
        extra_table(m, table, metatable, callbacks(list), f),
    ensures
        0 <= i < list.len() && list[i].1.kind != CallKind::AsyncFunction && list[i].1.kind
            != CallKind::AsyncMethod && (forall|j: int|
            i < j < list.len() ==> (#[trigger] list[j]).0 != list[i].0) ==> {
            &&& table matches Some(Val::Table(t))
            &&& field(m.tables[t], Val::String(list[i].0)) == Val::Closure(
                CFunction::CallCallback,
                seq![Val::Gc(GcValue::Callback(list[i].1)), Val::Gc(GcValue::Lua)],
            )
        },
{
    let fillings = callbacks(list);
    if 0 <= i < list.len() && list[i].1.kind != CallKind::AsyncFunction && list[i].1.kind
        != CallKind::AsyncMethod && (forall|j: int|
        i < j < list.len() ==> (#[trigger] list[j]).0 != list[i].0) {
        assert forall|j: int| i < j < fillings.len() implies (#[trigger] fillings[j]).name
            != fillings[i].name by {
            assert(list[j].0 != list[i].0);
        }
        if let Some(Val::Table(t)) = table {
            lemma_found(m, t, fillings, f, i, list[i].1);
        }
    }
}

/// The metatable itself holds the function of each synchronous metatable method whose name no later
/// method and no field has.
pub proof fn law_meta_methods_are_found(m: Machine, methods: MethodsView, fields: FieldsView, i: int)
    requires
        m.roomy(),
        m.wf(),
        m.height() <= i32::MAX - 4,
        unrestricted(meta_fillings(methods, fields)),
        wants_async(methods, fields) ==> async_ready(m),
        all_computable(m.world, meta_fillings(methods, fields)),
        0 <= i < methods.meta_methods.len(),
        methods.meta_methods[i].1.kind != CallKind::AsyncFunction,
        methods.meta_methods[i].1.kind != CallKind::AsyncMethod,
        forall|j: int|
            i < j < methods.meta_methods.len() ==> (#[trigger] methods.meta_methods[j]).0.name
                != methods.meta_methods[i].0.name,
        forall|j: int|
            0 <= j < fields.meta_fields.len() ==> (#[trigger] fields.meta_fields[j]).0.name
                != methods.meta_methods[i].0.name,
    ensures
        ({
            let after = m.run(metatable_plan(m.height(), methods, fields).steps)->0;
            field(after.tables[m.fresh], Val::String(methods.meta_methods[i].0.name))
                == Val::Closure(
                CFunction::CallCallback,
                seq![Val::Gc(GcValue::Callback(methods.meta_methods[i].1)), Val::Gc(GcValue::Lua)],
            )
        }),
{
    law_metatable(m, methods, fields);
    let after = m.run(metatable_plan(m.height(), methods, fields).steps)->0;
    let fillings = meta_fillings(methods, fields);
    assert forall|j: int| i < j < fillings.len() implies (#[trigger] fillings[j]).name
        != fillings[i].name by {
        if j < methods.meta_methods.len() {
            assert(methods.meta_methods[j].0.name != methods.meta_methods[i].0.name);
        } else {
            let k = j - methods.meta_methods.len();
            assert(fields.meta_fields[k].0.name != methods.meta_methods[i].0.name);
        }
    }
    lemma_found(after, m.fresh, fillings, awaited(m), i, methods.meta_methods[i].1);
}

} // verus!
