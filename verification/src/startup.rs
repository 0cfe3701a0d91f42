//! What making a state, taking it over and loading modules achieve on the virtual machine.

use vstd::prelude::*;
use vstd::string::*;

use crate::construct::{
    base_plan, common_ops, construction_refusal, disable_plan, globals_op, load_plan,
    load_refusal, open_ops, options_plan, prepare_plan, ref_thread_ops, safe_construction,
    serde_ops, store_plan, unsafe_construction, waker_ops, ConstructionView, Features,
    LUA_RIDX_GLOBALS,
};
use crate::gc::{LUA_GCRESTART, LUA_GCSTOP};
use crate::machine::{
    field, globals, lemma_done, lemma_next, lemma_pair, lemma_run_concat, lemma_single,
    module_fields, registry, stock_searchers, unused, with_basics, without_element, Builtin,
    CFunction, GcValue, Index, InstrOf, Machine, Op, PlanView, RegistrySlot, Val,
};
use crate::options::LuaOptions;
use crate::stdlib::{
    basic_name, lemma_module_names, lemma_modules_are_no_basic_functions,
    lemma_modules_are_no_metamethods, load_order, module_name, searchers_name, selected,
    Library, StdLib,
};
use crate::text::lemma_bytes_tell_texts_apart;
use crate::version::Version;

verus! {

/// The globals are found by the instruction of the version.
pub open spec fn globals_found(m: Machine, version: Version) -> bool {
    &&& m.sane()
    &&& m.version == version
    &&& version.modern() ==> field(m.tables[registry()], Val::Integer(LUA_RIDX_GLOBALS))
        == Val::Table(globals())
}

/// The module `package`, if it was opened, has a list of searchers, and none beyond the fourth, and
/// writing `loadlib` calls no metamethod.
pub open spec fn package_in_place(m: Machine) -> bool {
    m.modules.dom().contains(Library::Package) ==> {
        let package = m.modules[Library::Package];
        &&& field(m.tables[package], Val::String(searchers_name(m.version))) matches Val::Table(s)
        &&& 1 < s
        &&& s != package
        &&& m.tables.dom().contains(s)
        &&& field(m.tables[s], Val::Integer(5)) == Val::Nil
        &&& m.writes_plainly(package, Val::String("loadlib".spec_bytes()))
    }
}

/// The globals are found, and the module `package` is as it was opened if it was. Of a new state
/// this holds, since no modules have been opened in it.
pub open spec fn placed(m: Machine, version: Version) -> bool {
    globals_found(m, version) && package_in_place(m)
}

/// As `placed`, and there is a registry integer left and no metatable of the globals. Of a new state
/// this holds too.
pub open spec fn globals_in_place(m: Machine, version: Version) -> bool {
    m.wf() && placed(m, version) && !m.metatables.dom().contains(globals())
}

/// Making modules global calls no metamethod.
pub open spec fn opens_plainly(m: Machine, libs: Seq<Library>) -> bool {
    forall|lib: Library| #[trigger]
        libs.contains(lib) ==> m.writes_plainly(
            globals(),
            Val::String(module_name(m.version, lib)),
        )
}

proof fn lemma_metamethod_stays(m: Machine, after: Machine, table: nat)
    requires
        m.sane(),
        after.metatables == m.metatables,
        forall|id: nat| #[trigger]
            m.tables.dom().contains(id) ==> field(
                after.tables[id],
                Val::String("__newindex".spec_bytes()),
            ) == field(m.tables[id], Val::String("__newindex".spec_bytes())),
    ensures
        after.metamethod(table, "__newindex".spec_bytes()) == m.metamethod(
            table,
            "__newindex".spec_bytes(),
        ),
{
    if m.metatables.dom().contains(table) {
        match m.metatables[table] {
            Val::Table(mt) => assert(m.tables.dom().contains(mt)),
            _ => {},
        }
    }
}

/// Opening modules leaves metamethods what they are.
proof fn lemma_opening_keeps_metamethods(m: Machine, after: Machine, libs: Seq<Library>, table: nat)
    requires
        m.sane(),
        opened_from(m, after, libs),
    ensures
        after.metamethod(table, "__newindex".spec_bytes()) == m.metamethod(
            table,
            "__newindex".spec_bytes(),
        ),
{
    let key = Val::String("__newindex".spec_bytes());
    if names_one(m.version, libs, key) {
        let lib = choose|lib: Library| #[trigger]
            libs.contains(lib) && key == Val::String(module_name(m.version, lib));
        lemma_modules_are_no_metamethods(m.version, lib);
    }
    assert(field(after.tables[globals()], key) == field(m.tables[globals()], key));
    assert forall|id: nat| #[trigger] m.tables.dom().contains(id) implies field(
        after.tables[id],
        key,
    ) == field(m.tables[id], key) by {}
    lemma_metamethod_stays(m, after, table);
}

/// A module was opened, and its table is the global under its name.
pub open spec fn is_global(m: Machine, lib: Library) -> bool {
    &&& m.modules.dom().contains(lib)
    &&& m.tables.dom().contains(m.modules[lib])
    &&& field(m.tables[globals()], Val::String(module_name(m.version, lib))) == Val::Table(
        m.modules[lib],
    )
}

/// A module is as it comes.
pub open spec fn is_stock(m: Machine, lib: Library) -> bool {
    let table = m.modules[lib];
    &&& m.modules.dom().contains(lib)
    &&& m.tables[table] == module_fields(m.version, lib, table + 1)
    &&& lib == Library::Package ==> m.tables.dom().contains(table + 1) && m.tables[table + 1]
        == stock_searchers()
}

/// Whether a key is the name of one of some modules.
pub open spec fn names_one(version: Version, libs: Seq<Library>, key: Val) -> bool {
    exists|lib: Library| #[trigger]
        libs.contains(lib) && key == Val::String(module_name(version, lib))
}

/// The machine `after` is `m` with modules opened: each is a global table under its name, new if the
/// module was not opened before. All other globals, all other tables and everything else is as it
/// was.
pub open spec fn opened_from(m: Machine, after: Machine, libs: Seq<Library>) -> bool {
    &&& after == (Machine {
        tables: after.tables,
        modules: after.modules,
        opened: m.opened + libs,
        fresh: after.fresh,
        ..m
    })
    &&& m.fresh <= after.fresh
    &&& forall|id: nat| #[trigger]
        m.tables.dom().contains(id) ==> after.tables.dom().contains(id) && (id != globals()
            ==> after.tables[id] == m.tables[id])
    &&& forall|lib: Library| #[trigger] libs.contains(lib) ==> is_global(after, lib)
    &&& forall|lib: Library| #[trigger]
        m.modules.dom().contains(lib) ==> after.modules.dom().contains(lib) && after.modules[lib]
            == m.modules[lib]
    &&& forall|lib: Library| #[trigger]
        after.modules.dom().contains(lib) && !m.modules.dom().contains(lib) ==> libs.contains(lib)
            && m.fresh <= after.modules[lib] && is_stock(after, lib)
    &&& forall|key: Val|
        !names_one(m.version, libs, key) ==> #[trigger] field(after.tables[globals()], key)
            == field(m.tables[globals()], key)
}

proof fn lemma_package_names()
    ensures
        "loadlib".spec_bytes() != "searchers".spec_bytes(),
        "loadlib".spec_bytes() != "loaders".spec_bytes(),
{
    reveal_strlit("loadlib");
    reveal_strlit("searchers");
    reveal_strlit("loaders");
    lemma_bytes_tell_texts_apart("loadlib", "searchers");
    lemma_bytes_tell_texts_apart("loadlib", "loaders");
    assert("loadlib"@[4] != "loaders"@[4]);
}

proof fn lemma_global_module(m: Machine, version: Version, lib: Library)
    requires
        globals_found(m, version),
    ensures
        ({
            let after = m.with_global_module(lib);
            &&& globals_found(after, version)
            &&& package_in_place(m) ==> package_in_place(after)
            &&& opened_from(
                m,
                Machine { opened: m.opened.push(lib), ..after },
                seq![lib],
            )
            &&& after.tables[registry()] == m.tables[registry()]
        }),
{
    reveal(Machine::with_global_module);
    lemma_modules_are_no_metamethods(version, lib);
    let after = m.with_global_module(lib);
    if m.modules.dom().contains(Library::Package) {
        lemma_metamethod_stays(m, after, m.modules[Library::Package]);
    }
    let end = Machine { opened: m.opened.push(lib), ..after };
    let libs = seq![lib];
    lemma_package_names();
    assert(m.opened + libs =~= m.opened.push(lib));
    assert(libs[0] == lib);
    assert(libs.contains(lib));
    assert(!stock_searchers().dom().contains(Val::Integer(5)));
    assert forall|key: Val| !names_one(m.version, libs, key) implies #[trigger] field(
        end.tables[globals()],
        key,
    ) == field(m.tables[globals()], key) by {
        assert(key != Val::String(module_name(m.version, lib)));
    }
}

/// Where making a module global calls no metamethod, it is set among the globals.
pub proof fn lemma_library(m: Machine, version: Version, lib: Library)
    requires
        globals_found(m, version),
        m.writes_plainly(globals(), Val::String(module_name(version, lib))),
    ensures
        m.with_library(lib) == Some(
            Machine { opened: m.opened.push(lib), ..m.with_global_module(lib) },
        ),
        m.with_module(lib).modules == m.with_global_module(lib).modules,
        opened_from(m, m.with_library(lib)->0, seq![lib]),
        globals_found(m.with_library(lib)->0, version),
{
    reveal(Machine::with_global_module);
    reveal(Machine::with_library);
    let opened = m.with_module(lib);
    lemma_metamethod_stays(m, opened, globals());
    lemma_global_module(m, version, lib);
}

proof fn lemma_opened_twice(a: Machine, b: Machine, c: Machine, first: Seq<Library>, lib: Library)
    requires
        a.sane(),
        opened_from(a, b, first),
        opened_from(b, c, seq![lib]),
        globals_found(b, a.version),
    ensures
        opened_from(a, c, first.push(lib)),
{
    let all = first.push(lib);
    let one = seq![lib];
    assert(a.opened + first + one =~= a.opened + all);
    assert(all[first.len() as int] == lib);
    assert(one[0] == lib);
    assert forall|l: Library| first.contains(l) implies #[trigger] all.contains(l) by {
        assert(all[first.index_of(l)] == l);
    }
    assert forall|l: Library| #[trigger] all.contains(l) implies l == lib || first.contains(l) by {
        let k = all.index_of(l);
        if k < first.len() {
            assert(first[k] == l);
        }
    }
    assert forall|l: Library| #[trigger] one.contains(l) implies l == lib by {}
    assert forall|l: Library| #[trigger] all.contains(l) implies is_global(c, l) by {
        if l == lib {
            assert(one.contains(lib));
        } else {
            assert(is_global(b, l));
            let key = Val::String(module_name(a.version, l));
            lemma_module_names(a.version, l, lib);
            assert(!names_one(a.version, one, key));
            assert(field(c.tables[globals()], key) == field(b.tables[globals()], key));
        }
    }
    assert forall|l: Library| #[trigger]
        c.modules.dom().contains(l) && !a.modules.dom().contains(l) implies all.contains(l)
        && a.fresh <= c.modules[l] && is_stock(c, l) by {
        if b.modules.dom().contains(l) {
            assert(is_stock(b, l));
            assert(b.tables.dom().contains(b.modules[l]));
            if l == Library::Package {
                assert(b.tables.dom().contains(b.modules[l] + 1));
            }
        } else {
            assert(one.contains(l));
        }
    }
    assert forall|key: Val| !names_one(a.version, all, key) implies #[trigger] field(
        c.tables[globals()],
        key,
    ) == field(a.tables[globals()], key) by {
        if names_one(a.version, first, key) {
            let l = choose|l: Library| #[trigger]
                first.contains(l) && key == Val::String(module_name(a.version, l));
            assert(all.contains(l));
        }
        if names_one(a.version, one, key) {
            let l = choose|l: Library| #[trigger]
                one.contains(l) && key == Val::String(module_name(a.version, l));
            assert(all.contains(l));
        }
        assert(field(b.tables[globals()], key) == field(a.tables[globals()], key));
    }
}

proof fn lemma_filtered(order: Seq<Library>, wanted: spec_fn(Library) -> bool, lib: Library)
    ensures
        order.filter(wanted).contains(lib) <==> order.contains(lib) && wanted(lib),
    decreases order.len(),
{
    reveal(Seq::filter);
    if order.len() > 0 {
        let rest = order.drop_last();
        let chosen = order.filter(wanted);
        lemma_filtered(rest, wanted, lib);
        if order.contains(lib) && order.index_of(lib) < order.len() - 1 {
            assert(rest[order.index_of(lib)] == lib);
        }
        if rest.contains(lib) {
            assert(order[rest.index_of(lib)] == lib);
        }
        if wanted(order.last()) {
            assert(chosen.last() == order.last());
            assert(chosen.drop_last() =~= rest.filter(wanted));
            if rest.filter(wanted).contains(lib) {
                assert(chosen[rest.filter(wanted).index_of(lib)] == lib);
            }
            if chosen.contains(lib) && chosen.index_of(lib) < chosen.len() - 1 {
                assert(rest.filter(wanted)[chosen.index_of(lib)] == lib);
            }
        }
    }
}

/// A state in safe mode never opens the modules `debug` and `ffi`: neither when it is made nor when
/// more modules are loaded.
pub proof fn law_safe_mode_opens_no_unsafe_module(version: Version, libs: StdLib)
    ensures
        construction_refusal(version, libs) is None || load_refusal(true, version, libs) is None
            ==> !selected(version, libs).contains(Library::Debug) && !selected(
            version,
            libs,
        ).contains(Library::Ffi),
{
    let wanted = |lib: Library| libs.has(lib);
    let order = load_order(version);
    lemma_filtered(order, wanted, Library::Debug);
    lemma_filtered(order, wanted, Library::Ffi);
}

/// Every library that was asked for and that the version of Lua has is opened, and no other.
pub proof fn law_selected_modules(version: Version, libs: StdLib, lib: Library)
    ensures
        selected(version, libs).contains(lib) <==> libs.has(lib) && load_order(version).contains(lib),
{
    let wanted = |lib: Library| libs.has(lib);
    lemma_filtered(load_order(version), wanted, lib);
}

proof fn lemma_open(m: Machine, version: Version, libs: Seq<Library>)
    requires
        globals_found(m, version),
        opens_plainly(m, libs),
    ensures
        m.run(open_ops(libs)) is Some,
        opened_from(m, m.run(open_ops(libs))->0, libs),
        globals_found(m.run(open_ops(libs))->0, version),
        package_in_place(m) ==> package_in_place(m.run(open_ops(libs))->0),
    decreases libs.len(),
{
    if libs.len() == 0 {
        assert(m.opened + libs =~= m.opened);
        lemma_done(m, open_ops(libs), 0);
    } else {
        let rest = libs.drop_last();
        let lib = libs.last();
        let last = seq![Op::OpenLibrary(lib), Op::Pop(1)];
        assert(opens_plainly(m, rest)) by {
            assert forall|l: Library| #[trigger] rest.contains(l) implies libs.contains(l) by {
                assert(libs[rest.index_of(l)] == l);
            }
        }
        lemma_open(m, version, rest);
        lemma_run_concat(m, open_ops(rest), last);
        let mid = m.run(open_ops(rest))->0;
        let name = Val::String(module_name(version, lib));
        assert(libs[libs.len() - 1] == lib);
        assert(libs.contains(lib));
        assert(mid.writes_plainly(globals(), name)) by {
            lemma_opening_keeps_metamethods(m, mid, rest, globals());
            if names_one(version, rest, name) {
                let other = choose|other: Library| #[trigger]
                    rest.contains(other) && name == Val::String(module_name(version, other));
                assert(is_global(mid, other));
            } else {
                assert(field(mid.tables[globals()], name) == field(m.tables[globals()], name));
            }
        }
        lemma_library(mid, version, lib);
        let after = Machine { opened: mid.opened.push(lib), ..mid.with_global_module(lib) };
        let pushed = after.push(Val::Table(after.modules[lib]));
        lemma_global_module(mid, version, lib);
        lemma_next(mid, last, 0, pushed);
        assert(pushed.stack.take(pushed.height() - 1) =~= mid.stack);
        lemma_next(pushed, last, 1, after);
        lemma_done(after, last, 2);
        lemma_opened_twice(m, mid, after, rest, lib);
        assert(rest.push(lib) =~= libs);
    }
}

proof fn lemma_load_with_the_collector_stopped(m: Machine, version: Version, libs: StdLib)
    requires
        globals_found(m, version),
        opens_plainly(m, selected(version, libs)),
        version == Version::LuaJit,
    ensures
        m.run(load_plan(version, libs).steps) is Some,
        ({
            let after = m.run(load_plan(version, libs).steps)->0;
            &&& opened_from(Machine { collecting: true, ..m }, after, selected(version, libs))
            &&& globals_found(after, version)
            &&& package_in_place(m) ==> package_in_place(after)
        }),
{
    let chosen = selected(version, libs);
    let open = open_ops(chosen);
    let stop: Seq<Op> = seq![InstrOf::Gc(LUA_GCSTOP, 0)];
    let restart: Seq<Op> = seq![InstrOf::Gc(LUA_GCRESTART, (-1) as i32)];
    let stopped = Machine { collecting: false, ..m };
    lemma_run_concat(m, stop, open);
    lemma_run_concat(m, stop + open, restart);
    lemma_single(m, stop[0], stopped);
    assert(opens_plainly(stopped, chosen)) by {
        assert forall|lib: Library| #[trigger] chosen.contains(lib) implies stopped.writes_plainly(
            globals(),
            Val::String(module_name(version, lib)),
        ) by {
            assert(m.writes_plainly(globals(), Val::String(module_name(version, lib))));
        }
    }
    lemma_open(stopped, version, chosen);
    let mid = stopped.run(open)->0;
    let after = Machine { collecting: true, ..mid };
    lemma_single(mid, restart[0], after);
    let before = Machine { collecting: true, ..m };
    assert forall|lib: Library| #[trigger] chosen.contains(lib) implies is_global(after, lib) by {
        assert(is_global(mid, lib));
    }
    assert forall|lib: Library| #[trigger]
        after.modules.dom().contains(lib) && !before.modules.dom().contains(lib) implies
        chosen.contains(lib) && before.fresh <= after.modules[lib] && is_stock(after, lib) by {
        assert(is_stock(mid, lib));
    }
}

/// Loading opens the modules of the subset that the version of Lua has, in order: each becomes a
/// global table under its name, a new one if it was not opened before. All other globals and tables,
/// the stack and everything else are as they were, provided that no metamethod of the globals comes
/// in. In LuaJIT the collector runs afterwards.
pub proof fn law_load_opens_the_selected(m: Machine, version: Version, libs: StdLib)
    requires
        globals_found(m, version),
        opens_plainly(m, selected(version, libs)),
    ensures
        m.run(load_plan(version, libs).steps) is Some,
        ({
            let after = m.run(load_plan(version, libs).steps)->0;
            let collecting = version == Version::LuaJit || m.collecting;
            &&& opened_from(Machine { collecting, ..m }, after, selected(version, libs))
            &&& globals_found(after, version)
            &&& package_in_place(m) ==> package_in_place(after)
            &&& forall|lib: Library|
                libs.has(lib) && load_order(version).contains(lib) ==> #[trigger] is_global(
                    after,
                    lib,
                )
        }),
{
    let chosen = selected(version, libs);
    if version == Version::LuaJit {
        lemma_load_with_the_collector_stopped(m, version, libs);
    } else {
        lemma_open(m, version, chosen);
    }
    let after = m.run(load_plan(version, libs).steps)->0;
    assert forall|lib: Library|
        libs.has(lib) && load_order(version).contains(lib) implies #[trigger] is_global(
        after,
        lib,
    ) by {
        law_selected_modules(version, libs, lib);
    }
}

/// Pushing the globals by the instruction of the version.
pub proof fn lemma_globals_pushed(m: Machine, version: Version, code: Seq<Op>, i: int)
    requires
        globals_found(m, version),
        0 <= i < code.len(),
        code[i] == globals_op(version),
    ensures
        m.run_from(code, i) == m.push(Val::Table(globals())).run_from(code, i + 1),
{
    lemma_next(m, code, i, m.push(Val::Table(globals())));
}

/// Reading a field of the table on top of the stack, where no metamethod comes in.
pub proof fn lemma_field_pushed(m: Machine, code: Seq<Op>, i: int, table: nat, name: Seq<u8>)
    requires
        0 <= i < code.len(),
        code[i] == Op::GetField(Index::FromTop(1), name),
        m.height() > 0,
        m.top() == Val::Table(table),
        m.tables.dom().contains(table),
        m.reads_plainly(table, Val::String(name)),
    ensures
        m.run_from(code, i) == m.push(field(m.tables[table], Val::String(name))).run_from(
            code,
            i + 1,
        ),
{
    lemma_next(m, code, i, m.push(field(m.tables[table], Val::String(name))));
}

proof fn lemma_field_set(
    m: Machine,
    code: Seq<Op>,
    i: int,
    table: nat,
    name: Seq<u8>,
    value: Val,
)
    requires
        0 <= i < code.len(),
        code[i] == Op::SetField(Index::FromTop(2), name) && m.writes_plainly(
            table,
            Val::String(name),
        ) || code[i] == Op::RawSetField(Index::FromTop(2), name),
        m.height() > 0,
        m.top() == Val::Table(table),
        m.tables.dom().contains(table),
    ensures
        m.push(value).run_from(code, i) == m.set(table, Val::String(name), value).run_from(
            code,
            i + 1,
        ),
{
    let pushed = m.push(value);
    let after = m.set(table, Val::String(name), value);
    assert(pushed.stack[pushed.height() - 2] == Val::Table(table));
    assert(pushed.stack.take(pushed.height() - 1) =~= m.stack);
    lemma_next(pushed, code, i, after);
}

proof fn lemma_disabled_at_the_end(
    m: Machine,
    code: Seq<Op>,
    searchers: nat,
)
    requires
        code.len() == 11,
        code[8] == Op::PushBuiltin(Builtin::RefuseSearcher),
        code[9] == Op::RawSetI(Index::FromTop(2), 3),
        code[10] == Op::RawRemove(Index::FromTop(1), 4),
        m.height() > 0,
        m.top() == Val::Table(searchers),
        m.tables.dom().contains(searchers),
    ensures
        ({
            let list = m.tables[searchers].insert(
                Val::Integer(3),
                Val::Builtin(Builtin::RefuseSearcher),
            );
            m.run_from(code, 8) == Some(
                Machine {
                    tables: m.tables.insert(searchers, without_element(list, 4)),
                    ..m
                },
            )
        }),
{
    let value = Val::Builtin(Builtin::RefuseSearcher);
    let pushed = m.push(value);
    lemma_next(m, code, 8, pushed);
    let set = m.set(searchers, Val::Integer(3), value);
    assert(pushed.stack[pushed.height() - 2] == Val::Table(searchers));
    assert(pushed.stack.take(pushed.height() - 1) =~= m.stack);
    lemma_next(pushed, code, 9, set);
    let list = m.tables[searchers].insert(Val::Integer(3), value);
    let end = Machine { tables: m.tables.insert(searchers, without_element(list, 4)), ..m };
    assert(set.tables.insert(searchers, without_element(list, 4)) =~= end.tables);
    lemma_next(set, code, 10, end);
    lemma_done(end, code, 11);
}

/// Once C modules have been disabled, `package.loadlib` and the third searcher are functions that
/// refuse, the fourth searcher is gone, and those before the third are untouched. All other tables
/// are as they were, provided that no metamethod comes in when `loadlib` is written.
pub proof fn law_c_modules_are_disabled(m: Machine, version: Version, package: nat, searchers: nat)
    requires
        m.roomy(),
        globals_found(m, version),
        field(m.tables[globals()], Val::String("package".spec_bytes())) == Val::Table(package),
        m.tables.dom().contains(package),
        field(m.tables[package], Val::String(searchers_name(version))) == Val::Table(searchers),
        m.tables.dom().contains(searchers),
        package != searchers,
        m.writes_plainly(package, Val::String("loadlib".spec_bytes())),
    ensures
        m.run(disable_plan(version).steps) is Some,
        ({
            let after = m.run(disable_plan(version).steps)->0;
            let old_list = m.tables[searchers];
            &&& field(after.tables[package], Val::String("loadlib".spec_bytes())) == Val::Builtin(
                Builtin::RefuseLoadlib,
            )
            &&& field(after.tables[searchers], Val::Integer(3)) == Val::Builtin(
                Builtin::RefuseSearcher,
            )
            &&& field(after.tables[searchers], Val::Integer(4)) == field(old_list, Val::Integer(5))
            &&& field(after.tables[searchers], Val::Integer(1)) == field(old_list, Val::Integer(1))
            &&& field(after.tables[searchers], Val::Integer(2)) == field(old_list, Val::Integer(2))
            &&& field(after.tables[package], Val::String(searchers_name(version))) == Val::Table(
                searchers,
            )
            &&& after == (Machine { stack: after.stack, tables: after.tables, ..m })
            &&& after.tables.dom() == m.tables.dom()
            &&& forall|id: nat|
                id != package && id != searchers ==> #[trigger] after.tables[id] == m.tables[id]
        }),
{
    let code = disable_plan(version).steps;
    lemma_package_names();
    lemma_next(m, code, 0, m);
    lemma_globals_pushed(m, version, code, 1);
    let m2 = m.push(Val::Table(globals()));
    lemma_field_pushed(m2, code, 2, globals(), "package".spec_bytes());
    let m3 = m2.push(Val::Table(package));
    lemma_next(m3, code, 3, m3);
    let refuse = Val::Builtin(Builtin::RefuseLoadlib);
    lemma_next(m3, code, 4, m3.push(refuse));
    lemma_field_set(m3, code, 5, package, "loadlib".spec_bytes(), refuse);
    let m6 = m3.set(package, Val::String("loadlib".spec_bytes()), refuse);
    lemma_field_pushed(m6, code, 6, package, searchers_name(version));
    let m7 = m6.push(Val::Table(searchers));
    lemma_next(m7, code, 7, m7);
    lemma_disabled_at_the_end(m7, code, searchers);
    let after = m.run(code)->0;
    assert(after.tables.dom() =~= m.tables.dom());
}

/// The machine `after` is `m` with more in the registry, where what was found by other keys than
/// addresses of the embedder stays, and with more threads; everything else is as it was.
pub open spec fn registry_grown(m: Machine, after: Machine) -> bool {
    &&& after == (Machine {
        tables: after.tables,
        threads: after.threads,
        fresh: after.fresh,
        made: after.made,
        ..m
    })
    &&& m.fresh <= after.fresh
    &&& after.tables.dom() == m.tables.dom()
    &&& forall|id: nat| id != registry() ==> #[trigger] after.tables[id] == m.tables[id]
    &&& forall|key: Val| #[trigger]
        m.tables[registry()].dom().contains(key) && !(key is Slot)
            ==> after.tables[registry()].dom().contains(key) && after.tables[registry()][key]
            == m.tables[registry()][key]
    &&& forall|name: Seq<u8>|
        #![trigger field(after.tables[registry()], Val::String(name))]
        field(after.tables[registry()], Val::String(name)) == field(
            m.tables[registry()],
            Val::String(name),
        )
    &&& m.sane() ==> after.sane()
}

proof fn lemma_common_ops(m: Machine)
    ensures
        m.run(common_ops()) == Some(m),
{
    let code = common_ops();
    lemma_next(m, code, 0, m);
    lemma_next(m, code, 1, m);
    lemma_next(m, code, 2, m);
    lemma_next(m, code, 3, m);
    lemma_done(m, code, 4);
}

proof fn lemma_waker_ops(m: Machine, features: Features)
    requires
        m.wf(),
    ensures
        m.run(waker_ops(features)) is Some,
        ({
            let after = m.run(waker_ops(features))->0;
            &&& registry_grown(m, after)
            &&& after.fresh == m.fresh
            &&& after.wf()
            &&& features.asynchronous ==> field(
                after.tables[registry()],
                Val::Slot(RegistrySlot::Waker),
            ) == Val::Gc(GcValue::NoWaker)
            &&& forall|id: i32| #[trigger]
                unused(after.tables[registry()], id) == unused(m.tables[registry()], id)
        }),
{
    let code = waker_ops(features);
    if !features.asynchronous {
        lemma_done(m, code, 0);
    } else {
        let pushed = m.push(Val::Gc(GcValue::NoWaker));
        assert(pushed.stack.take(pushed.height() - 1) =~= m.stack);
        let after = m.set(
            registry(),
            Val::Slot(RegistrySlot::Waker),
            Val::Gc(GcValue::NoWaker),
        );
        lemma_next(m, code, 0, m);
        lemma_next(m, code, 1, m);
        lemma_next(m, code, 2, m);
        lemma_next(m, code, 3, pushed);
        lemma_next(pushed, code, 4, after);
        lemma_done(after, code, 5);
        let id = choose|id: i32| #[trigger] unused(m.tables[registry()], id);
        assert(unused(after.tables[registry()], id));
        assert(after.tables.dom() =~= m.tables.dom());
    }
}

proof fn lemma_serde_ops(m: Machine, features: Features)
    ensures
        m.run(serde_ops(features)) == Some(m),
{
    if features.serialize {
        lemma_single(m, InstrOf::InitSerdeMetatables, m);
    } else {
        lemma_done(m, serde_ops(features), 0);
    }
}

proof fn lemma_ref_thread_ops(m: Machine)
    requires
        m.wf(),
    ensures
        m.run(ref_thread_ops()) is Some,
        ({
            let after = m.run(ref_thread_ops())->0;
            &&& registry_grown(m, after)
            &&& field(after.tables[registry()], Val::Slot(RegistrySlot::Waker)) == field(
                m.tables[registry()],
                Val::Slot(RegistrySlot::Waker),
            )
            &&& exists|id: i32|
                {
                    &&& #[trigger] unused(m.tables[registry()], id)
                    &&& field(after.tables[registry()], Val::Integer(id as i64)) == Val::Thread(
                        m.fresh,
                    )
                }
        }),
{
    let pushed = m.step(Op::NewThread)->0;
    assert(pushed.stack.take(pushed.height() - 1) =~= m.stack);
    lemma_pair(m, ref_thread_ops(), pushed, pushed.step(Op::MakeRef)->0);
    let id = pushed.next_ref();
    assert(unused(m.tables[registry()], id));
    assert((m.run(ref_thread_ops())->0).tables.dom() =~= m.tables.dom());
}

proof fn lemma_store_ops(m: Machine)
    requires
        m.sane(),
    ensures
        m.run(store_plan().steps) is Some,
        ({
            let after = m.run(store_plan().steps)->0;
            &&& registry_grown(m, after)
            &&& after.tables[registry()] == m.tables[registry()].insert(
                Val::Slot(RegistrySlot::Extra),
                Val::Gc(GcValue::ExtraData),
            )
        }),
{
    let code = store_plan().steps;
    let pushed = m.push(Val::Gc(GcValue::ExtraData));
    assert(pushed.stack.take(pushed.height() - 1) =~= m.stack);
    let stored = m.set(
        registry(),
        Val::Slot(RegistrySlot::Extra),
        Val::Gc(GcValue::ExtraData),
    );
    lemma_next(m, code, 0, pushed);
    lemma_next(pushed, code, 1, stored);
    lemma_next(stored, code, 2, stored);
    lemma_done(stored, code, 3);
    assert((m.run(store_plan().steps)->0).tables.dom() =~= m.tables.dom());
}

/// Taking a state over keeps the reference thread in the registry under an integer that was not in
/// use, and stores the shared data there. The stack, the tables and all else that was in the registry
/// stay.
pub proof fn law_init_leaves_the_stack(m: Machine, features: Features)
    requires
        m.wf(),
    ensures
        m.run(prepare_plan(features).steps + store_plan().steps) is Some,
        ({
            let after = m.run(prepare_plan(features).steps + store_plan().steps)->0;
            &&& after.stack == m.stack
            &&& registry_grown(m, after)
            &&& field(after.tables[registry()], Val::Slot(RegistrySlot::Extra)) == Val::Gc(
                GcValue::ExtraData,
            )
            &&& features.asynchronous ==> field(
                after.tables[registry()],
                Val::Slot(RegistrySlot::Waker),
            ) == Val::Gc(GcValue::NoWaker)
            &&& exists|id: i32|
                {
                    &&& #[trigger] unused(m.tables[registry()], id)
                    &&& field(after.tables[registry()], Val::Integer(id as i64)) == Val::Thread(
                        m.fresh,
                    )
                }
        }),
{
    let first = common_ops();
    let second = waker_ops(features);
    let third = serde_ops(features);
    let last = ref_thread_ops();
    lemma_run_concat(m, first, second);
    lemma_run_concat(m, first + second, third);
    lemma_run_concat(m, first + second + third, last);
    lemma_run_concat(m, first + second + third + last, store_plan().steps);
    lemma_common_ops(m);
    lemma_waker_ops(m, features);
    let m1 = m.run(second)->0;
    lemma_serde_ops(m1, features);
    lemma_ref_thread_ops(m1);
    let m2 = m1.run(last)->0;
    lemma_store_ops(m2);
    let id = choose|id: i32|
        {
            &&& #[trigger] unused(m1.tables[registry()], id)
            &&& field(m2.tables[registry()], Val::Integer(id as i64)) == Val::Thread(m1.fresh)
        };
    assert(unused(m.tables[registry()], id));
}

/// With `catch_rust_panics` switched off, the global functions `pcall` and `xpcall` are those that
/// resume panics, and all other globals and tables stay.
pub proof fn law_panics_are_resumed(m: Machine, version: Version)
    requires
        globals_found(m, version),
    ensures
        m.run(options_plan(version).steps) is Some,
        ({
            let after = m.run(options_plan(version).steps)->0;
            let replaced = m.tables[globals()].insert(
                Val::String("pcall".spec_bytes()),
                Val::CFunction(CFunction::NoPanicPcall),
            ).insert(
                Val::String("xpcall".spec_bytes()),
                Val::CFunction(CFunction::NoPanicXpcall),
            );
            after == (Machine {
                stack: m.stack.push(Val::Table(globals())),
                tables: m.tables.insert(globals(), replaced),
                ..m
            })
        }),
{
    let code = options_plan(version).steps;
    let first = Val::CFunction(CFunction::NoPanicPcall);
    let second = Val::CFunction(CFunction::NoPanicXpcall);
    lemma_globals_pushed(m, version, code, 0);
    let m1 = m.push(Val::Table(globals()));
    lemma_next(m1, code, 1, m1.push(first));
    lemma_field_set(m1, code, 2, globals(), "pcall".spec_bytes(), first);
    let m3 = m1.set(globals(), Val::String("pcall".spec_bytes()), first);
    lemma_next(m3, code, 3, m3.push(second));
    lemma_field_set(m3, code, 4, globals(), "xpcall".spec_bytes(), second);
    lemma_done(m3.set(globals(), Val::String("xpcall".spec_bytes()), second), code, 5);
    let after = m.run(code)->0;
    assert(after.tables.dom() =~= m.tables.dom());
}

proof fn lemma_grown_is_placed(m: Machine, after: Machine, version: Version)
    requires
        placed(m, version),
        registry_grown(m, after),
    ensures
        placed(after, version),
{
    if version.modern() {
        assert(m.tables[registry()].dom().contains(Val::Integer(LUA_RIDX_GLOBALS)));
    }
    if m.modules.dom().contains(Library::Package) {
        lemma_metamethod_stays(m, after, m.modules[Library::Package]);
    }
}

/// The globals after the basic functions were opened: they are there, and of other names only that
/// of the module `coroutine`, if it comes with them, has changed.
pub open spec fn base_opened(m: Machine, after: Machine) -> bool {
    let coroutine = Val::String(module_name(m.version, Library::Coroutine));
    &&& forall|name: Seq<u8>| #[trigger]
        basic_name(name) ==> field(after.tables[globals()], Val::String(name)) == Val::Basic(name)
    &&& field(after.tables[globals()], Val::String("_G".spec_bytes())) == Val::Table(globals())
    &&& !m.version.modern() ==> is_global(after, Library::Coroutine)
    &&& forall|key: Val|
        !(key matches Val::String(s) && (basic_name(s) || s == "_G".spec_bytes())) && (
        m.version.modern() || key != coroutine) ==> #[trigger] field(after.tables[globals()], key)
            == field(m.tables[globals()], key)
}

proof fn lemma_no_basic_global()
    ensures
        !basic_name("_G".spec_bytes()),
        !basic_name("__newindex".spec_bytes()),
        "__newindex".spec_bytes() != "_G".spec_bytes(),
{
    reveal_strlit("__newindex");
    lemma_bytes_tell_texts_apart("__newindex", "_G");
    reveal_strlit("assert");
    reveal_strlit("collectgarbage");
    reveal_strlit("dofile");
    reveal_strlit("error");
    reveal_strlit("getmetatable");
    reveal_strlit("ipairs");
    reveal_strlit("load");
    reveal_strlit("loadfile");
    reveal_strlit("next");
    reveal_strlit("pairs");
    reveal_strlit("pcall");
    reveal_strlit("print");
    reveal_strlit("rawequal");
    reveal_strlit("rawget");
    reveal_strlit("rawset");
    reveal_strlit("select");
    reveal_strlit("setmetatable");
    reveal_strlit("tonumber");
    reveal_strlit("tostring");
    reveal_strlit("type");
    reveal_strlit("xpcall");
    reveal_strlit("_G");
    lemma_bytes_tell_texts_apart("_G", "assert");
    lemma_bytes_tell_texts_apart("_G", "collectgarbage");
    lemma_bytes_tell_texts_apart("_G", "dofile");
    lemma_bytes_tell_texts_apart("_G", "error");
    lemma_bytes_tell_texts_apart("_G", "getmetatable");
    lemma_bytes_tell_texts_apart("_G", "ipairs");
    lemma_bytes_tell_texts_apart("_G", "load");
    lemma_bytes_tell_texts_apart("_G", "loadfile");
    lemma_bytes_tell_texts_apart("_G", "next");
    lemma_bytes_tell_texts_apart("_G", "pairs");
    lemma_bytes_tell_texts_apart("_G", "pcall");
    lemma_bytes_tell_texts_apart("_G", "print");
    lemma_bytes_tell_texts_apart("_G", "rawequal");
    lemma_bytes_tell_texts_apart("_G", "rawget");
    lemma_bytes_tell_texts_apart("_G", "rawset");
    lemma_bytes_tell_texts_apart("_G", "select");
    lemma_bytes_tell_texts_apart("_G", "setmetatable");
    lemma_bytes_tell_texts_apart("_G", "tonumber");
    lemma_bytes_tell_texts_apart("_G", "tostring");
    lemma_bytes_tell_texts_apart("_G", "type");
    lemma_bytes_tell_texts_apart("_G", "xpcall");
    lemma_bytes_tell_texts_apart("__newindex", "assert");
    lemma_bytes_tell_texts_apart("__newindex", "collectgarbage");
    lemma_bytes_tell_texts_apart("__newindex", "dofile");
    lemma_bytes_tell_texts_apart("__newindex", "error");
    lemma_bytes_tell_texts_apart("__newindex", "getmetatable");
    lemma_bytes_tell_texts_apart("__newindex", "ipairs");
    lemma_bytes_tell_texts_apart("__newindex", "load");
    lemma_bytes_tell_texts_apart("__newindex", "loadfile");
    lemma_bytes_tell_texts_apart("__newindex", "next");
    lemma_bytes_tell_texts_apart("__newindex", "pairs");
    lemma_bytes_tell_texts_apart("__newindex", "pcall");
    lemma_bytes_tell_texts_apart("__newindex", "print");
    lemma_bytes_tell_texts_apart("__newindex", "rawequal");
    lemma_bytes_tell_texts_apart("__newindex", "rawget");
    lemma_bytes_tell_texts_apart("__newindex", "rawset");
    lemma_bytes_tell_texts_apart("__newindex", "select");
    lemma_bytes_tell_texts_apart("__newindex", "setmetatable");
    lemma_bytes_tell_texts_apart("__newindex", "tonumber");
    lemma_bytes_tell_texts_apart("__newindex", "tostring");
    lemma_bytes_tell_texts_apart("__newindex", "type");
    lemma_bytes_tell_texts_apart("__newindex", "xpcall");
}

proof fn lemma_base(m: Machine, version: Version)
    requires
        globals_in_place(m, version),
    ensures
        m.run(base_plan().steps) == Some(m.with_base()),
        globals_in_place(m.with_base(), version),
        base_opened(m, m.with_base()),
        m.with_base().stack == m.stack,
        m.with_base().opened == m.opened,
        m.with_base().metatables == m.metatables,
        m.with_base().world == m.world,
        forall|lib: Library| #[trigger]
            m.with_base().modules.dom().contains(lib) ==> m.modules.dom().contains(lib) || lib
                == Library::Coroutine,
{
    reveal(Machine::with_base);
    reveal(Machine::with_global_module);
    let code = base_plan().steps;
    let after = m.with_base();
    let pushed = after.push(Val::Table(globals()));
    lemma_no_basic_global();
    lemma_modules_are_no_basic_functions(version, Library::Coroutine);
    let basics = Machine {
        tables: m.tables.insert(globals(), with_basics(m.tables[globals()])),
        ..m
    };
    if m.modules.dom().contains(Library::Package) {
        lemma_metamethod_stays(m, basics, m.modules[Library::Package]);
    }
    assert(placed(basics, version));
    if !version.modern() {
        lemma_global_module(basics, version, Library::Coroutine);
        let coroutine = Val::String(module_name(version, Library::Coroutine));
        let end = Machine { opened: m.opened.push(Library::Coroutine), ..after };
        let one = seq![Library::Coroutine];
        assert(one[0] == Library::Coroutine);
        assert(one.contains(Library::Coroutine));
        assert(is_global(end, Library::Coroutine));
        assert forall|key: Val| key != coroutine implies #[trigger] field(
            after.tables[globals()],
            key,
        ) == field(basics.tables[globals()], key) by {
            assert(!names_one(version, one, key));
            assert(field(end.tables[globals()], key) == field(basics.tables[globals()], key));
        }
    }
    let id = choose|id: i32| #[trigger] unused(m.tables[registry()], id);
    assert(unused(after.tables[registry()], id));
    lemma_next(m, code, 0, pushed);
    assert(pushed.stack.take(pushed.height() - 1) =~= m.stack);
    lemma_next(pushed, code, 1, after);
    lemma_done(after, code, 2);
}

/// The instructions of an optional plan.
pub open spec fn optional_steps(plan: Option<PlanView>) -> Seq<Op> {
    match plan {
        Some(p) => p.steps,
        None => Seq::empty(),
    }
}

/// All the instructions of a construction, in the order in which they are carried out: the basic
/// functions are opened, the state is taken over, the modules are loaded, `pcall` and `xpcall` are
/// replaced, and the ability to load C modules is taken away.
pub open spec fn construction_ops(c: ConstructionView, features: Features) -> Seq<Op> {
    c.base.steps + prepare_plan(features).steps + store_plan().steps + c.load.steps
        + optional_steps(c.options) + optional_steps(c.disable_c_modules)
}

/// What a name of a basic function stands for after a construction.
pub open spec fn basic_function(options: LuaOptions, name: Seq<u8>) -> Val {
    if !options.catch_rust_panics && name == "pcall".spec_bytes() {
        Val::CFunction(CFunction::NoPanicPcall)
    } else if !options.catch_rust_panics && name == "xpcall".spec_bytes() {
        Val::CFunction(CFunction::NoPanicXpcall)
    } else {
        Val::Basic(name)
    }
}

/// The globals of a state that was made with a subset of the modules: those of the subset that the
/// version of Lua has are global tables, the names of other modules stand for what they did, and the
/// basic functions are there.
pub open spec fn constructed(
    m: Machine,
    after: Machine,
    libs: StdLib,
    options: LuaOptions,
) -> bool {
    &&& after.opened == m.opened + selected(m.version, libs)
    &&& forall|lib: Library|
        libs.has(lib) && load_order(m.version).contains(lib) ==> #[trigger] is_global(after, lib)
    &&& forall|lib: Library|
        !(libs.has(lib) && load_order(m.version).contains(lib)) && (m.version.modern() || lib
            != Library::Coroutine) ==> field(
            after.tables[globals()],
            Val::String(#[trigger] module_name(m.version, lib)),
        ) == field(m.tables[globals()], Val::String(module_name(m.version, lib)))
    &&& !m.version.modern() ==> is_global(after, Library::Coroutine)
    &&& forall|name: Seq<u8>| #[trigger]
        basic_name(name) ==> field(after.tables[globals()], Val::String(name)) == basic_function(
            options,
            name,
        )
}

proof fn lemma_taken_over(m: Machine, version: Version, features: Features)
    requires
        globals_in_place(m, version),
    ensures
        ({
            let code = base_plan().steps + prepare_plan(features).steps + store_plan().steps;
            let after = m.run(code)->0;
            &&& m.run(code) is Some
            &&& placed(after, version)
            &&& after.tables[globals()] == m.with_base().tables[globals()]
            &&& after.tables.dom() == m.with_base().tables.dom()
            &&& after.modules == m.with_base().modules
            &&& after.opened == m.opened
            &&& after.stack == m.stack
            &&& after.metatables == m.metatables
            &&& after.world == m.world
        }),
{
    let base = base_plan().steps;
    let rest = prepare_plan(features).steps + store_plan().steps;
    let code = base + prepare_plan(features).steps + store_plan().steps;
    assert(code =~= base + rest);
    lemma_run_concat(m, base, rest);
    lemma_base(m, version);
    law_init_leaves_the_stack(m.with_base(), features);
    lemma_grown_is_placed(m.with_base(), m.with_base().run(rest)->0, version);
}

proof fn lemma_package_is_everywhere(version: Version)
    ensures
        load_order(version).contains(Library::Package),
{
    let order = load_order(version);
    match version {
        Version::Lua54 | Version::Lua53 | Version::Lua52 => assert(order[8] == Library::Package),
        Version::Lua51 => assert(order[6] == Library::Package),
        Version::LuaJit => assert(order[7] == Library::Package),
    }
}

proof fn lemma_loaded(m: Machine, start: Machine, after: Machine, version: Version, libs: StdLib)
    requires
        globals_in_place(m, version),
        start.version == version,
        start.tables[globals()] == m.with_base().tables[globals()],
        start.tables.dom() == m.with_base().tables.dom(),
        start.modules == m.with_base().modules,
        start.opened == m.opened,
        opened_from(start, after, selected(version, libs)),
    ensures
        constructed(m, after, libs, LuaOptions { catch_rust_panics: true }),
        libs.has(Library::Package) ==> is_global(after, Library::Package),
        libs.has(Library::Package) && !m.modules.dom().contains(Library::Package) ==> is_stock(
            after,
            Library::Package,
        ),
{
    let chosen = selected(version, libs);
    lemma_base(m, version);
    lemma_package_is_everywhere(version);
    assert forall|lib: Library|
        libs.has(lib) && load_order(version).contains(lib) implies #[trigger] is_global(
        after,
        lib,
    ) by {
        law_selected_modules(version, libs, lib);
    }
    assert forall|lib: Library|
        !(libs.has(lib) && load_order(version).contains(lib)) && (version.modern() || lib
            != Library::Coroutine) implies field(
        after.tables[globals()],
        Val::String(#[trigger] module_name(version, lib)),
    ) == field(m.tables[globals()], Val::String(module_name(version, lib))) by {
        let key = Val::String(module_name(version, lib));
        if names_one(version, chosen, key) {
            let other = choose|other: Library| #[trigger]
                chosen.contains(other) && key == Val::String(module_name(version, other));
            lemma_module_names(version, lib, other);
            law_selected_modules(version, libs, other);
        }
        lemma_modules_are_no_basic_functions(version, lib);
        lemma_module_names(version, lib, Library::Coroutine);
        assert(field(start.tables[globals()], key) == field(m.tables[globals()], key));
    }
    assert forall|name: Seq<u8>| #[trigger] basic_name(name) implies field(
        after.tables[globals()],
        Val::String(name),
    ) == Val::Basic(name) by {
        let key = Val::String(name);
        if names_one(version, chosen, key) {
            let other = choose|other: Library| #[trigger]
                chosen.contains(other) && key == Val::String(module_name(version, other));
            lemma_modules_are_no_basic_functions(version, other);
        }
        assert(field(start.tables[globals()], key) == Val::Basic(name));
    }
    if !version.modern() {
        let coroutine = Library::Coroutine;
        let key = Val::String(module_name(version, coroutine));
        assert(is_global(start, coroutine));
        if names_one(version, chosen, key) {
            let other = choose|other: Library| #[trigger]
                chosen.contains(other) && key == Val::String(module_name(version, other));
            lemma_module_names(version, coroutine, other);
        } else {
            assert(field(after.tables[globals()], key) == field(start.tables[globals()], key));
        }
    }
    if libs.has(Library::Package) {
        assert(is_global(after, Library::Package));
        assert(after.modules.dom().contains(Library::Package));
    }
}

proof fn lemma_options(
    m: Machine,
    before: Machine,
    version: Version,
    libs: StdLib,
    options: LuaOptions,
)
    requires
        m.version == version,
        placed(before, version),
        constructed(m, before, libs, LuaOptions { catch_rust_panics: true }),
    ensures
        ({
            let plan = unsafe_construction(version, libs, options).options;
            let after = before.run(optional_steps(plan))->0;
            &&& before.run(optional_steps(plan)) is Some
            &&& placed(after, version)
            &&& constructed(m, after, libs, options)
            &&& after.world == before.world
            &&& after.modules == before.modules
            &&& after.tables.dom() == before.tables.dom()
            &&& forall|id: nat|
                id != globals() ==> #[trigger] after.tables[id] == before.tables[id]
            &&& forall|lib: Library| #[trigger]
                is_global(before, lib) ==> is_global(after, lib)
        }),
{
    let plan = unsafe_construction(version, libs, options).options;
    let after = before.run(optional_steps(plan))->0;
    if !options.catch_rust_panics {
        law_panics_are_resumed(before, version);
        assert(after.tables.dom() =~= before.tables.dom());
        reveal_strlit("__newindex");
        reveal_strlit("pcall");
        reveal_strlit("xpcall");
        lemma_bytes_tell_texts_apart("__newindex", "pcall");
        lemma_bytes_tell_texts_apart("__newindex", "xpcall");
        if before.modules.dom().contains(Library::Package) {
            lemma_metamethod_stays(before, after, before.modules[Library::Package]);
        }
        assert forall|lib: Library| field(
            after.tables[globals()],
            Val::String(#[trigger] module_name(version, lib)),
        ) == field(before.tables[globals()], Val::String(module_name(version, lib))) by {
            lemma_modules_are_no_basic_functions(version, lib);
        }
        assert forall|lib: Library| #[trigger] is_global(before, lib) implies is_global(
            after,
            lib,
        ) by {
            assert(module_name(version, lib) == module_name(version, lib));
        }
        assert forall|lib: Library|
            libs.has(lib) && load_order(version).contains(lib) implies #[trigger] is_global(
            after,
            lib,
        ) by {
            assert(is_global(before, lib));
        }
        lemma_bytes_tell_texts_apart("pcall", "xpcall");
        assert forall|name: Seq<u8>| #[trigger] basic_name(name) implies field(
            after.tables[globals()],
            Val::String(name),
        ) == basic_function(options, name) by {
            assert(field(before.tables[globals()], Val::String(name)) == Val::Basic(name));
        }
    } else {
        assert(options == (LuaOptions { catch_rust_panics: true }));
        lemma_done(before, optional_steps(plan), 0);
    }
}

proof fn lemma_made(
    m: Machine,
    features: Features,
    version: Version,
    libs: StdLib,
    options: LuaOptions,
)
    requires
        globals_in_place(m, version),
    ensures
        ({
            let c = unsafe_construction(version, libs, options);
            let code = base_plan().steps + prepare_plan(features).steps + store_plan().steps
                + c.load.steps + optional_steps(c.options);
            let after = m.run(code)->0;
            &&& m.run(code) is Some
            &&& placed(after, version)
            &&& after.world == m.world
            &&& constructed(m, after, libs, options)
            &&& libs.has(Library::Package) ==> is_global(after, Library::Package)
            &&& libs.has(Library::Package) && !m.modules.dom().contains(Library::Package)
                ==> is_stock(after, Library::Package)
        }),
{
    let c = unsafe_construction(version, libs, options);
    let start = base_plan().steps + prepare_plan(features).steps + store_plan().steps;
    lemma_run_concat(m, start, c.load.steps);
    lemma_run_concat(m, start + c.load.steps, optional_steps(c.options));
    lemma_taken_over(m, version, features);
    let m1 = m.run(start)->0;
    law_load_opens_the_selected(m1, version, libs);
    let m2 = m1.run(c.load.steps)->0;
    let collecting = version == Version::LuaJit || m1.collecting;
    lemma_loaded(m, Machine { collecting, ..m1 }, m2, version, libs);
    lemma_options(m, m2, version, libs, options);
}

/// A state that is made without safe mode has the modules that were asked for, as far as the version
/// of Lua has them, as global tables, and the basic functions; no other module has become global. In
/// a new state `package.loadlib` and the searchers are those that come with `package`, so that C
/// modules can be loaded. Without `package` a state in safe mode is made in the same way.
pub proof fn law_constructed_state(
    m: Machine,
    features: Features,
    version: Version,
    libs: StdLib,
    options: LuaOptions,
)
    requires
        globals_in_place(m, version),
    ensures
        ({
            let code = construction_ops(unsafe_construction(version, libs, options), features);
            let after = m.run(code)->0;
            &&& m.run(code) is Some
            &&& constructed(m, after, libs, options)
            &&& libs.has(Library::Package) && !m.modules.dom().contains(Library::Package)
                ==> is_global(after, Library::Package) && is_stock(after, Library::Package)
            &&& !libs.has(Library::Package) ==> construction_ops(
                safe_construction(version, libs, options),
                features,
            ) == code
        }),
{
    let c = unsafe_construction(version, libs, options);
    lemma_made(m, features, version, libs, options);
    let code = base_plan().steps + prepare_plan(features).steps + store_plan().steps + c.load.steps
        + optional_steps(c.options);
    assert(construction_ops(c, features) =~= code);
}

/// C modules cannot be loaded: `package.loadlib` and the searcher for C libraries refuse, and the
/// searcher for all-in-one C libraries is gone.
pub open spec fn c_modules_disabled(m: Machine) -> bool {
    &&& field(
        m.tables[globals()],
        Val::String(module_name(m.version, Library::Package)),
    ) matches Val::Table(package)
    &&& m.tables.dom().contains(package)
    &&& field(m.tables[package], Val::String("loadlib".spec_bytes())) == Val::Builtin(
        Builtin::RefuseLoadlib,
    )
    &&& field(m.tables[package], Val::String(searchers_name(m.version))) matches Val::Table(
        searchers,
    )
    &&& m.tables.dom().contains(searchers)
    &&& field(m.tables[searchers], Val::Integer(3)) == Val::Builtin(Builtin::RefuseSearcher)
    &&& field(m.tables[searchers], Val::Integer(4)) == Val::Nil
}

proof fn lemma_disabled(m: Machine, version: Version)
    requires
        m.roomy(),
        placed(m, version),
        is_global(m, Library::Package),
    ensures
        ({
            let after = m.run(disable_plan(version).steps)->0;
            &&& m.run(disable_plan(version).steps) is Some
            &&& c_modules_disabled(after)
            &&& after.tables[globals()] == m.tables[globals()]
            &&& after.tables.dom() == m.tables.dom()
            &&& after == (Machine { stack: after.stack, tables: after.tables, ..m })
        }),
{
    let package = m.modules[Library::Package];
    let list = field(m.tables[package], Val::String(searchers_name(version)));
    match list {
        Val::Table(searchers) => law_c_modules_are_disabled(m, version, package, searchers),
        _ => {},
    }
}

/// A state that is made in safe mode with the module `package` cannot load C modules. Its globals are
/// those of a state that is made without safe mode.
pub proof fn law_safe_state_loads_no_c_modules(
    m: Machine,
    features: Features,
    version: Version,
    libs: StdLib,
    options: LuaOptions,
)
    requires
        m.roomy(),
        globals_in_place(m, version),
        construction_refusal(version, libs) is None,
        libs.has(Library::Package),
    ensures
        m.run(construction_ops(safe_construction(version, libs, options), features)) is Some,
        c_modules_disabled(
            m.run(construction_ops(safe_construction(version, libs, options), features))->0,
        ),
        constructed(
            m,
            m.run(construction_ops(safe_construction(version, libs, options), features))->0,
            libs,
            options,
        ),
{
    let c = safe_construction(version, libs, options);
    let code = base_plan().steps + prepare_plan(features).steps + store_plan().steps + c.load.steps
        + optional_steps(c.options);
    lemma_made(m, features, version, libs, options);
    lemma_run_concat(m, code, disable_plan(version).steps);
    let made = m.run(code)->0;
    lemma_disabled(made, version);
    let after = made.run(disable_plan(version).steps)->0;
    assert forall|lib: Library|
        libs.has(lib) && load_order(version).contains(lib) implies #[trigger] is_global(
        after,
        lib,
    ) by {
        assert(is_global(made, lib));
    }
}

/// A state in safe mode into which the module `package` is loaded cannot load C modules afterwards,
/// provided that no metamethod comes in.
pub proof fn law_safe_loading_disables_c_modules(m: Machine, version: Version, libs: StdLib)
    requires
        m.roomy(),
        placed(m, version),
        opens_plainly(m, selected(version, libs)),
        load_refusal(true, version, libs) is None,
        libs.has(Library::Package),
    ensures
        m.run(load_plan(version, libs).steps + disable_plan(version).steps) is Some,
        c_modules_disabled(
            m.run(load_plan(version, libs).steps + disable_plan(version).steps)->0,
        ),
{
    lemma_run_concat(m, load_plan(version, libs).steps, disable_plan(version).steps);
    law_load_opens_the_selected(m, version, libs);
    lemma_package_is_everywhere(version);
    let after = m.run(load_plan(version, libs).steps)->0;
    assert(is_global(after, Library::Package));
    lemma_disabled(after, version);
}

} // verus!
