use std::collections::BTreeMap;

use mlua_core::asynchronous::{CallbackPlan, PollStep, Polled, Unpack};
use mlua_core::chunk::EvalStep;
use mlua_core::construct::{Construction, Features};
use mlua_core::lua::{ExtraData, Lua};
use mlua_core::machine::{
    Builtin, CFunction, CallKind, Callback, Index, Instr, Outcome, Plan, RegistrySlot,
};
use mlua_core::metatable::MetatablePlan;
use mlua_core::options::LuaOptions;
use mlua_core::refs::PopStep;
use mlua_core::stack::settle_steps;
use mlua_core::stdlib::{Library, StdLib};
use mlua_core::userdata::{MetaKind, MetaMethod, StaticUserDataFields, StaticUserDataMethods};
use mlua_core::value::{LuaRef, MultiValue, RefKind, Value};
use mlua_core::version::Version;

#[derive(Clone, Debug, PartialEq, Eq, PartialOrd, Ord)]
enum Val {
    Nil,
    Boolean(bool),
    Pointer(u64),
    Integer(i64),
    Number(u64),
    Text(Vec<u8>),
    Table(usize),
    Thread(usize),
    UserData(usize),
    Chunk(usize),
    Callback(u64),
    Builtin(u8),
    Native(u8),
    Closure(u8, Vec<Val>),
    Owned(u8),
    Computed(u64),
    Slot(u8),
    Stock(String),
}

#[derive(Default)]
struct Toy {
    stack: Vec<Val>,
    refs: Vec<Val>,
    tables: BTreeMap<usize, BTreeMap<Val, Val>>,
    threads: BTreeMap<usize, Vec<Val>>,
    metatables: BTreeMap<usize, Val>,
    envs: BTreeMap<usize, Val>,
    sources: BTreeMap<usize, Vec<u8>>,
    wirings: Vec<(Val, Option<Val>, Option<Val>, Option<Val>)>,
    opened: Vec<Library>,
    modules: BTreeMap<&'static str, usize>,
    fresh: usize,
    last_ref: i32,
    full: bool,
}

impl Toy {
    fn new() -> Toy {
        let mut toy = Toy { fresh: 2, ..Toy::default() };
        toy.tables.insert(0, BTreeMap::new());
        toy.tables.insert(1, BTreeMap::new());
        toy.set(0, Val::Integer(1), Val::Thread(77));
        toy.set(0, Val::Integer(2), Val::Table(1));
        toy
    }

    fn set(&mut self, table: usize, key: Val, value: Val) {
        let fields = self.tables.get_mut(&table).unwrap();
        if value == Val::Nil {
            fields.remove(&key);
        } else {
            fields.insert(key, value);
        }
    }

    fn get(&self, table: usize, key: &Val) -> Val {
        self.tables[&table].get(key).cloned().unwrap_or(Val::Nil)
    }

    fn key(value: Val) -> Option<Val> {
        match value {
            Val::Nil => None,
            Val::Number(bits) => {
                let n = f64::from_bits(bits);
                if n.is_nan() {
                    None
                } else if n == n.floor() && n >= i64::MIN as f64 && n < -(i64::MIN as f64) {
                    Some(Val::Integer(n as i64))
                } else {
                    Some(Val::Number(bits))
                }
            }
            other => Some(other),
        }
    }

    fn metamethod(&self, table: usize, event: &str) -> Val {
        match self.metatables.get(&table) {
            Some(Val::Table(mt)) => self.text(*mt, event),
            _ => Val::Nil,
        }
    }

    fn read(&self, table: usize, key: &Val) -> Val {
        match (self.get(table, key), self.metamethod(table, "__index")) {
            (Val::Nil, Val::Table(next)) => self.read(next, key),
            (found, _) => found,
        }
    }

    fn write(&mut self, table: usize, key: Val, value: Val) {
        match (self.get(table, &key), self.metamethod(table, "__newindex")) {
            (Val::Nil, Val::Table(next)) => self.write(next, key, value),
            _ => self.set(table, key, value),
        }
    }

    fn compiles(source: &[u8]) -> bool {
        !source.starts_with(b"return local") && !source.starts_with(b"1")
    }

    fn text(&self, table: usize, key: &str) -> Val {
        self.get(table, &Val::Text(key.as_bytes().to_vec()))
    }

    fn at(&self, index: Index) -> Val {
        match index {
            Index::FromTop(n) => self.stack[self.stack.len() - n as usize].clone(),
            Index::Slot(i) => self.stack[i as usize - 1].clone(),
            Index::Registry => Val::Table(0),
            Index::Globals => Val::Table(1),
        }
    }

    fn table(&self, index: Index) -> usize {
        match self.at(index) {
            Val::Table(t) => t,
            other => panic!("no table: {:?}", other),
        }
    }

    fn pop(&mut self) -> Val {
        self.stack.pop().unwrap()
    }

    fn new_table(&mut self) -> usize {
        let t = self.fresh;
        self.fresh += 1;
        self.tables.insert(t, BTreeMap::new());
        t
    }

    fn open(&mut self, lib: Library) -> usize {
        let name = match lib {
            Library::Coroutine => "coroutine",
            Library::Table => "table",
            Library::Io => "io",
            Library::Os => "os",
            Library::String => "string",
            Library::Utf8 => "utf8",
            Library::Bit => "bit32",
            Library::Math => "math",
            Library::Package => "package",
            Library::Debug => "debug",
            Library::Jit => "jit",
            Library::Ffi => "ffi",
        };
        let known = self.modules.get(name).copied();
        let module = known.unwrap_or_else(|| self.new_table());
        if known.is_none() {
            self.modules.insert(name, module);
            let functions: &[&str] = match lib {
                Library::Coroutine => &["yield"],
                Library::Package => &["loadlib"],
                _ => &[],
            };
            for function in functions {
                let key = Val::Text(function.as_bytes().to_vec());
                self.set(module, key, Val::Stock(function.to_string()));
            }
            if lib == Library::Package {
                let searchers = self.new_table();
                self.set(module, Val::Text(b"searchers".to_vec()), Val::Table(searchers));
                for i in 1..=4 {
                    let searcher = Val::Stock(format!("searcher {}", i));
                    self.set(searchers, Val::Integer(i), searcher);
                }
            }
        }
        self.set(1, Val::Text(name.as_bytes().to_vec()), Val::Table(module));
        module
    }

    fn step(&mut self, instr: &Instr) -> bool {
        match instr {
            Instr::Fail(_) => return false,
            Instr::CheckStack(_) => return !self.full,
            Instr::AssertStack(_)
            | Instr::Gc(_, _)
            | Instr::InitErrorRegistry
            | Instr::InitGcMetatable(_)
            | Instr::InitSerdeMetatables => {}
            Instr::Pop(n) => {
                let keep = self.stack.len() - *n as usize;
                self.stack.truncate(keep);
            }
            Instr::PushNil => self.stack.push(Val::Nil),
            Instr::PushBoolean(b) => self.stack.push(Val::Boolean(*b != 0)),
            Instr::PushLightUserData(p) => self.stack.push(Val::Pointer(*p)),
            Instr::PushInteger(i) => self.stack.push(Val::Integer(*i)),
            Instr::PushString(s) => self.stack.push(Val::Text(s.clone())),
            Instr::PushThread => self.stack.push(Val::Thread(77)),
            Instr::PushValue(i) => {
                let v = self.at(*i);
                self.stack.push(v);
            }
            Instr::PushCFunction(f) => self.stack.push(Val::Native(match f {
                CFunction::NoPanicPcall => 1,
                CFunction::NoPanicXpcall => 2,
                _ => 3,
            })),
            Instr::RefPushValue(i) => {
                let v = self.refs[*i as usize - 1].clone();
                self.refs.push(v);
            }
            Instr::RefToState => {
                let v = self.refs.pop().unwrap();
                self.stack.push(v);
            }
            Instr::StateToRef => {
                let v = self.pop();
                self.refs.push(v);
            }
            Instr::RefPushNil => self.refs.push(Val::Nil),
            Instr::RefReplace(i) => {
                let v = self.refs.pop().unwrap();
                self.refs[*i as usize - 1] = v;
            }
            Instr::RefPop(n) => {
                let keep = self.refs.len() - *n as usize;
                self.refs.truncate(keep);
            }
            Instr::NewTable | Instr::CreateTable(_, _) => {
                let t = self.new_table();
                self.stack.push(Val::Table(t));
            }
            Instr::NewThread => {
                let t = self.fresh;
                self.fresh += 1;
                self.threads.insert(t, Vec::new());
                self.stack.push(Val::Thread(t));
            }
            Instr::MoveToThread(n) => {
                let from = self.stack.len() - *n as usize;
                let moved = self.stack.split_off(from);
                match self.stack[from - 1] {
                    Val::Thread(t) => self.threads.get_mut(&t).unwrap().extend(moved),
                    _ => panic!("no thread"),
                }
            }
            Instr::RawSet(i) => {
                let t = self.table(*i);
                let value = self.pop();
                match Toy::key(self.pop()) {
                    Some(key) => self.set(t, key, value),
                    None => return false,
                }
            }
            Instr::RawSetI(i, k) => {
                let t = self.table(*i);
                let value = self.pop();
                self.set(t, Val::Integer(*k), value);
            }
            Instr::RawSetField(i, k) => {
                let t = self.table(*i);
                let value = self.pop();
                self.set(t, Val::Text(k.clone()), value);
            }
            Instr::SetField(i, k) => {
                let t = self.table(*i);
                let value = self.pop();
                self.write(t, Val::Text(k.clone()), value);
            }
            Instr::RawRemove(i, k) => {
                let t = self.table(*i);
                let mut k = *k;
                loop {
                    let next = self.get(t, &Val::Integer(k + 1));
                    let end = next == Val::Nil;
                    self.set(t, Val::Integer(k), next);
                    if end {
                        break;
                    }
                    k += 1;
                }
            }
            Instr::GetField(i, k) => {
                let v = self.read(self.table(*i), &Val::Text(k.clone()));
                self.stack.push(v);
            }
            Instr::Expect(RefKind::Function) => {
                return matches!(self.stack.last(), Some(Val::Native(_) | Val::Stock(_)))
            }
            Instr::Expect(_) => return matches!(self.stack.last(), Some(Val::Table(_))),
            Instr::RawGet(i) => {
                let key = self.pop();
                let v = self.get(self.table(*i), &key);
                self.stack.push(v);
            }
            Instr::RawGetI(i, k) => {
                let v = self.get(self.table(*i), &Val::Integer(*k));
                self.stack.push(v);
            }
            Instr::RawSetP(slot) => {
                let value = self.pop();
                let key = match slot {
                    RegistrySlot::Extra => 1,
                    RegistrySlot::Waker => 2,
                };
                self.set(0, Val::Slot(key), value);
            }
            Instr::MakeRef => {
                let value = self.pop();
                if value == Val::Nil {
                    self.last_ref = -1;
                } else {
                    let mut id = 1;
                    while self.get(0, &Val::Integer(id)) != Val::Nil {
                        id += 1;
                    }
                    self.set(0, Val::Integer(id), value);
                    self.last_ref = id as i32;
                }
            }
            Instr::Unref(id) => {
                if *id >= 0 {
                    self.set(0, Val::Integer(*id as i64), Val::Nil);
                }
            }
            Instr::SetMetatable(i) => match self.at(*i) {
                Val::UserData(u) => {
                    let mt = self.pop();
                    self.metatables.insert(u, mt);
                }
                _ => panic!("no userdata"),
            },
            Instr::SetUpvalue(i, _) | Instr::SetFenv(i) => match self.at(*i) {
                Val::Chunk(c) => {
                    let env = self.pop();
                    self.envs.insert(c, env);
                }
                _ => panic!("no chunk"),
            },
            Instr::PushCallback(c) => self.stack.push(Val::Callback(c.id)),
            Instr::PushBuiltin(b) => self.stack.push(Val::Builtin(match b {
                Builtin::RefuseLoadlib => 1,
                Builtin::RefuseSearcher => 2,
                Builtin::Unpack => 3,
            })),
            Instr::PushMetaField(f) => self.stack.push(Val::Computed(*f)),
            Instr::PushGcUserdata(_) => self.stack.push(Val::Owned(0)),
            Instr::PushUserData => {
                let u = self.fresh;
                self.fresh += 1;
                self.stack.push(Val::UserData(u));
            }
            Instr::PushRClosure(_, n) => {
                let from = self.stack.len() - *n as usize;
                let upvalues = self.stack.split_off(from);
                self.stack.push(Val::Closure(0, upvalues));
            }
            Instr::InitUserDataMetatable { metatable, field_getters, field_setters, methods } => {
                let slot = |i: &Option<i32>| i.map(|i| self.at(Index::Slot(i)));
                let wiring = (
                    self.at(Index::Slot(*metatable)),
                    slot(field_getters),
                    slot(field_setters),
                    slot(methods),
                );
                self.wirings.push(wiring);
            }
            Instr::LoadBuffer { source, .. } => {
                if !Toy::compiles(source) {
                    return false;
                }
                let c = self.fresh;
                self.fresh += 1;
                self.sources.insert(c, source.clone());
                self.stack.push(Val::Chunk(c));
            }
            Instr::OpenLibrary(lib) => {
                self.opened.push(*lib);
                let module = self.open(*lib);
                self.stack.push(Val::Table(module));
            }
            Instr::OpenBase => {
                for name in ["pcall", "print", "xpcall"] {
                    self.set(1, Val::Text(name.as_bytes().to_vec()), Val::Stock(name.to_string()));
                }
                self.stack.push(Val::Table(1));
            }
            Instr::PushNumber(n) => self.stack.push(Val::Number(*n)),
            Instr::PushError(_) | Instr::ToText => panic!("not in these tests"),
        }
        true
    }

    fn run_steps(&mut self, steps: &[Instr]) -> bool {
        steps.iter().all(|instr| self.step(instr))
    }

    fn run(&mut self, plan: &Plan) -> bool {
        let base = self.stack.len();
        let done = self.run_steps(&plan.steps);
        if !done || plan.outcome == Outcome::Unit {
            if let Some(extra) = plan.guard {
                let most = base + extra;
                if self.stack.len() > most {
                    self.stack.truncate(most);
                }
            }
        }
        done
    }

    fn pin(&mut self, lua: &Lua, extra: &mut ExtraData) -> LuaRef {
        let (first, step) = lua.pop_ref(extra);
        assert!(self.run_steps(&first));
        assert!(self.run_steps(&settle_steps(step).unwrap()));
        match step {
            PopStep::Replace { index } | PopStep::Fresh { index } => {
                LuaRef { extra: lua.extra, index }
            }
            other => panic!("{:?}", other),
        }
    }

    fn run_for_handle(&mut self, lua: &Lua, extra: &mut ExtraData, plan: &Plan) -> LuaRef {
        assert!(matches!(plan.outcome, Outcome::Reference(_)));
        let base = self.stack.len();
        assert!(self.run(plan));
        let given = self.pin(lua, extra);
        self.stack.truncate(base);
        given
    }

    fn make_callback(&mut self, lua: &Lua, extra: &mut ExtraData, c: Callback) -> LuaRef {
        let begun = match lua.push_callback(extra, c).unwrap() {
            CallbackPlan::Function(plan) => return self.run_for_handle(lua, extra, &plan),
            CallbackPlan::AsyncFunction(begun) => begun,
        };
        if let Some(load) = begun.load {
            assert!(self.run(&load.load));
            assert!(load.disable_c_modules.is_none());
        }
        let get_poll = self.run_for_handle(lua, extra, &begun.get_poll);
        let yielding = self.run_for_handle(lua, extra, &lua.async_yield());
        let plan = lua.async_environment(&get_poll, &yielding, 5);
        let env = self.run_for_handle(lua, extra, &plan);
        self.run_for_handle(lua, extra, &lua.async_driver(&env).unwrap())
    }

    fn run_with_callbacks(&mut self, lua: &Lua, extra: &mut ExtraData, plan: &Plan) -> bool {
        plan.steps.iter().all(|instr| match instr {
            Instr::PushCallback(c) => {
                let made = self.make_callback(lua, extra, *c);
                let value = self.refs[made.index as usize - 1].clone();
                self.stack.push(value);
                true
            }
            _ => self.step(instr),
        })
    }

    fn environment_of(&self, function: &Val) -> usize {
        match function {
            Val::Chunk(chunk) => match self.envs[chunk] {
                Val::Table(env) => env,
                ref other => panic!("{:?}", other),
            },
            other => panic!("{:?}", other),
        }
    }

    fn construct(&mut self, c: &Construction, features: Features) -> (Lua, ExtraData) {
        assert!(self.run(&c.base));
        let (lua, mut extra, init) = Lua::init_from_ptr(c.version, features, 10, Some(10), 1);
        assert!(self.run(&init.prepare));
        assert!(self.run(&init.store));
        let lua = c.adopt(lua, &mut extra);
        assert!(self.run(&c.load));
        if let Some(options) = &c.options {
            assert!(self.run(options));
        }
        if let Some(disable) = &c.disable_c_modules {
            assert!(self.run(disable));
        }
        let lua = c.secure(lua, &mut extra);
        (lua, extra)
    }

    fn assert_no_c_modules(&self) {
        let package = match self.text(1, "package") {
            Val::Table(package) => package,
            other => panic!("{:?}", other),
        };
        let searchers = match self.text(package, "searchers") {
            Val::Table(searchers) => searchers,
            other => panic!("{:?}", other),
        };
        assert_eq!(self.text(package, "loadlib"), Val::Builtin(1));
        assert_eq!(
            self.get(searchers, &Val::Integer(1)),
            Val::Stock("searcher 1".to_string())
        );
        assert_eq!(
            self.get(searchers, &Val::Integer(2)),
            Val::Stock("searcher 2".to_string())
        );
        assert_eq!(self.get(searchers, &Val::Integer(3)), Val::Builtin(2));
        assert_eq!(self.get(searchers, &Val::Integer(4)), Val::Nil);
    }
}

const BARE: Features = Features { asynchronous: false, serialize: false };

fn handle() -> Lua {
    Lua {
        state: 10,
        main_state: Some(10),
        extra: 1,
        ephemeral: true,
        safe: true,
        version: Version::Lua54,
    }
}

#[test]
fn pinned_values_survive() {
    let lua = handle();
    let mut extra = ExtraData::new();
    let mut toy = Toy::new();
    let mut refs = Vec::new();
    for i in 0..5 {
        toy.stack.push(Val::Integer(i));
        refs.push(toy.pin(&lua, &mut extra));
    }
    let dropped = lua.drop_ref(&mut extra, &refs[2]);
    assert!(toy.run_steps(&dropped));
    toy.stack.push(Val::Boolean(true));
    let again = toy.pin(&lua, &mut extra);
    assert_eq!(again.index, refs[2].index);
    let (first, step) = lua.clone_ref(&mut extra, &refs[4]);
    assert!(toy.run_steps(&first));
    assert!(toy.run_steps(&settle_steps(step).unwrap()));
    let mut steps = Vec::new();
    lua.push_value(&mut steps, Value::Table(again));
    lua.push_value(&mut steps, Value::Table(refs[1]));
    lua.push_value(&mut steps, Value::Table(LuaRef { extra: 1, index: 6 }));
    assert!(toy.run_steps(&steps));
    assert_eq!(toy.stack, vec![Val::Boolean(true), Val::Integer(1), Val::Integer(4)]);
    assert_eq!(toy.refs.len(), 6);
}

#[test]
fn named_values_come_back() {
    let lua = handle();
    let mut toy = Toy::new();
    assert!(toy.run(&lua.set_named_registry_value(b"a", Value::Integer(1))));
    assert!(toy.run(&lua.set_named_registry_value(b"b", Value::Integer(2))));
    assert!(toy.stack.is_empty());
    assert!(toy.run(&lua.named_registry_value(b"a")));
    assert!(toy.run(&lua.named_registry_value(b"b")));
    assert!(toy.run(&lua.unset_named_registry_value(b"a")));
    assert!(toy.run(&lua.named_registry_value(b"a")));
    assert_eq!(toy.stack, vec![Val::Integer(1), Val::Integer(2), Val::Nil]);
}

#[test]
fn registry_values_come_back_until_removed() {
    let lua = handle();
    let mut extra = ExtraData::new();
    let mut toy = Toy::new();
    assert!(toy.run(&lua.create_registry_value(Value::Boolean(true))));
    let first = lua.registry_key(toy.last_ref);
    assert!(toy.run(&lua.create_registry_value(Value::Integer(9))));
    let second = lua.registry_key(toy.last_ref);
    assert!(toy.run(&lua.create_registry_value(Value::Nil)));
    let nil = lua.registry_key(toy.last_ref);
    for key in [&first, &second, &nil] {
        assert!(toy.run(&lua.registry_value(key).unwrap()));
    }
    assert_eq!(toy.stack, vec![Val::Boolean(true), Val::Integer(9), Val::Nil]);
    let freed = first.registry_id;
    assert!(toy.run(&lua.remove_registry_value(first).unwrap()));
    assert!(toy.run(&lua.remove_registry_value(nil).unwrap()));
    assert_eq!(toy.get(0, &Val::Integer(freed as i64)), Val::Nil);
    extra.drop_registry_key(second.registry_id);
    assert!(toy.run(&lua.expire_registry_values(&mut extra)));
    assert_eq!(toy.get(0, &Val::Integer(second.registry_id as i64)), Val::Nil);
    assert_eq!(toy.get(0, &Val::Integer(2)), Val::Table(1));
}

#[test]
fn tables_are_filled_in_order() {
    let lua = handle();
    let mut toy = Toy::new();
    let entries = [
        (Value::Integer(1), Value::Integer(10)),
        (Value::Boolean(true), Value::Integer(20)),
        (Value::Integer(1), Value::Integer(30)),
        (Value::Boolean(true), Value::Nil),
    ];
    let plan = lua.create_table_from(4, &entries);
    assert!(toy.run(&plan));
    let fields: Vec<_> = toy.tables[&2].iter().collect();
    assert_eq!(fields, vec![(&Val::Integer(1), &Val::Integer(30))]);
    assert_eq!(toy.stack, vec![Val::Table(2)]);
}

#[test]
fn numbers_are_keys_by_their_value() {
    let lua = handle();
    let mut toy = Toy::new();
    let number = |n: f64| Value::Number(n.to_bits());
    let entries = [
        (number(1.5), Value::Integer(1)),
        (number(2.0), Value::Integer(2)),
        (Value::Integer(2), Value::Integer(3)),
        (number(-0.0), Value::Integer(4)),
        (number(1e300), Value::Integer(5)),
        (number(1.5), Value::Integer(6)),
        (number(-9223372036854775808.0), Value::Integer(7)),
        (number(9223372036854775808.0), Value::Integer(8)),
    ];
    assert!(toy.run(&lua.create_table_from(8, &entries)));
    let fields: Vec<_> = toy.tables[&2].clone().into_iter().collect();
    assert_eq!(
        fields,
        vec![
            (Val::Integer(i64::MIN), Val::Integer(7)),
            (Val::Integer(0), Val::Integer(4)),
            (Val::Integer(2), Val::Integer(3)),
            (Val::Number(1.5f64.to_bits()), Val::Integer(6)),
            (Val::Number(9223372036854775808.0f64.to_bits()), Val::Integer(8)),
            (Val::Number(1e300f64.to_bits()), Val::Integer(5)),
        ]
    );
    for key in [number(f64::NAN), Value::Nil] {
        let mut toy = Toy::new();
        assert!(!toy.run(&lua.create_table_from(1, &[(key, Value::Integer(1))])));
        assert!(toy.stack.is_empty());
    }
}

#[test]
fn an_evaluation_prefers_the_expression() {
    let lua = handle();
    for (source, used) in [
        ("f()", "return f()"),
        ("1 + 1", "return 1 + 1"),
        ("local x = 1", "local x = 1"),
    ] {
        let mut extra = ExtraData::new();
        let mut toy = Toy::new();
        let plan = lua.load(source.as_bytes()).eval();
        let attempt = plan.attempt.as_ref().unwrap();
        let base = toy.stack.len();
        let function = if toy.run(attempt) {
            let given = toy.pin(&lua, &mut extra);
            toy.stack.truncate(base);
            Some(given)
        } else {
            None
        };
        assert!(toy.stack.is_empty());
        let called = match plan.settle(function) {
            EvalStep::Call(f) => f,
            EvalStep::Load(block) => toy.run_for_handle(&lua, &mut extra, &block),
        };
        let chunk = match toy.refs[called.index as usize - 1] {
            Val::Chunk(chunk) => chunk,
            ref other => panic!("{:?}", other),
        };
        assert_eq!(toy.sources[&chunk], used.as_bytes());
    }
    let mut toy = Toy::new();
    toy.stack.push(Val::Integer(1));
    assert!(!toy.run(&lua.load(b"1 + 1").into_function()));
    assert_eq!(toy.stack, vec![Val::Integer(1)]);
    assert!(toy.sources.is_empty());
}

#[test]
fn a_sequence_has_the_keys_from_one() {
    let lua = handle();
    let mut toy = Toy::new();
    let values = [Value::Integer(5), Value::Nil, Value::Integer(7)];
    assert!(toy.run(&lua.create_sequence_from(3, &values)));
    let fields: Vec<_> = toy.tables[&2].iter().collect();
    assert_eq!(
        fields,
        vec![(&Val::Integer(1), &Val::Integer(5)), (&Val::Integer(3), &Val::Integer(7))]
    );
}

#[test]
fn a_thread_has_its_function() {
    let lua = handle();
    let mut extra = ExtraData::new();
    let mut toy = Toy::new();
    toy.stack.push(Val::Native(9));
    let func = toy.pin(&lua, &mut extra);
    assert!(toy.run(&lua.create_thread(&func)));
    assert_eq!(toy.stack, vec![Val::Thread(2)]);
    assert_eq!(toy.threads[&2], vec![Val::Native(9)]);
    assert_eq!(toy.refs, vec![Val::Native(9)]);
}

#[test]
fn c_modules_are_gone_in_safe_mode() {
    let mut toy = Toy::new();
    let package = toy.new_table();
    let searchers = toy.new_table();
    toy.set(1, Val::Text(b"package".to_vec()), Val::Table(package));
    toy.set(package, Val::Text(b"searchers".to_vec()), Val::Table(searchers));
    toy.set(package, Val::Text(b"loadlib".to_vec()), Val::Native(5));
    for i in 1..=4 {
        toy.set(searchers, Val::Integer(i), Val::Native(10 + i as u8));
    }
    let plan = Lua::new(Version::Lua54).disable_c_modules.unwrap();
    assert!(toy.run(&plan));
    assert_eq!(toy.text(package, "loadlib"), Val::Builtin(1));
    assert_eq!(toy.get(searchers, &Val::Integer(1)), Val::Native(11));
    assert_eq!(toy.get(searchers, &Val::Integer(2)), Val::Native(12));
    assert_eq!(toy.get(searchers, &Val::Integer(3)), Val::Builtin(2));
    assert_eq!(toy.get(searchers, &Val::Integer(4)), Val::Nil);
}

#[test]
fn a_failed_plan_leaves_the_stack_as_it_was() {
    let mut toy = Toy::new();
    toy.stack.push(Val::Integer(1));
    let plan = Lua::disable_c_modules(Version::Lua54);
    assert!(!toy.run(&plan));
    assert_eq!(toy.stack, vec![Val::Integer(1)]);
    let lua = handle();
    assert!(!toy.run(&lua.load(b"\x1bLua").into_function()));
    assert_eq!(toy.stack, vec![Val::Integer(1)]);
}

#[test]
fn nothing_is_done_without_room() {
    let lua = handle();
    let mut toy = Toy::new();
    toy.stack.push(Val::Integer(1));
    toy.full = true;
    assert!(!toy.run(&lua.create_table()));
    assert!(!toy.run(&lua.set_named_registry_value(b"a", Value::Integer(1))));
    assert!(!toy.run(&lua.load(b"f()").into_function()));
    assert_eq!(toy.stack, vec![Val::Integer(1)]);
    assert_eq!(toy.text(0, "a"), Val::Nil);
    assert_eq!(toy.fresh, 2);
}

#[test]
fn pcall_is_replaced() {
    let mut toy = Toy::new();
    toy.set(1, Val::Text(b"print".to_vec()), Val::Native(5));
    let options = LuaOptions::new().catch_rust_panics(false);
    let c = Lua::unsafe_new_with(Version::Lua54, StdLib::none(), options);
    assert!(toy.run(&c.options.unwrap()));
    assert_eq!(toy.text(1, "pcall"), Val::Native(1));
    assert_eq!(toy.text(1, "xpcall"), Val::Native(2));
    assert_eq!(toy.text(1, "print"), Val::Native(5));
}

#[test]
fn taking_over_leaves_the_stack() {
    let features = Features { asynchronous: true, serialize: true };
    let (_, _, init) = Lua::init_from_ptr(Version::Lua54, features, 5, Some(5), 1);
    let mut toy = Toy::new();
    toy.stack.push(Val::Integer(4));
    assert!(toy.run(&init.prepare));
    assert_eq!(init.prepare.outcome, Outcome::RegistryId);
    assert!(toy.run(&init.store));
    assert_eq!(toy.stack, vec![Val::Integer(4)]);
    assert_eq!(toy.get(0, &Val::Integer(toy.last_ref as i64)), Val::Thread(2));
    assert_eq!(toy.get(0, &Val::Slot(1)), Val::Owned(0));
    assert_eq!(toy.get(0, &Val::Slot(2)), Val::Owned(0));
}

#[test]
fn loading_opens_what_was_asked_for() {
    let lua = handle();
    let mut extra = ExtraData::new();
    let mut toy = Toy::new();
    let libs = Library::Math.flag().union(Library::Io.flag()).union(Library::Jit.flag());
    let plan = lua.load_from_std_lib(&mut extra, libs).unwrap();
    assert!(toy.run(&plan.load));
    assert_eq!(toy.opened, vec![Library::Io, Library::Math]);
    assert_eq!(toy.text(1, "io"), Val::Table(toy.modules["io"]));
    assert_eq!(toy.text(1, "math"), Val::Table(toy.modules["math"]));
    assert_eq!(toy.text(1, "jit"), Val::Nil);
    assert!(toy.stack.is_empty());
}

#[test]
fn a_safe_state_cannot_load_c_modules() {
    let mut toy = Toy::new();
    let c = Lua::new(Version::Lua54);
    let (lua, extra) = toy.construct(&c, Features { asynchronous: true, serialize: true });
    assert!(lua.safe && extra.safe);
    toy.assert_no_c_modules();
    assert_eq!(toy.text(1, "debug"), Val::Nil);
    assert_eq!(toy.text(1, "pcall"), Val::Stock("pcall".to_string()));
    assert_eq!(toy.text(1, "string"), Val::Table(toy.modules["string"]));
}

#[test]
fn loading_package_in_safe_mode_loads_no_c_modules() {
    let mut toy = Toy::new();
    let c = Lua::new_with(Version::Lua54, StdLib::none(), LuaOptions::new()).unwrap();
    let (lua, mut extra) = toy.construct(&c, BARE);
    assert_eq!(toy.text(1, "package"), Val::Nil);
    let libs = Library::Package.flag().union(Library::Math.flag());
    let plan = lua.load_from_std_lib(&mut extra, libs).unwrap();
    assert!(toy.run(&plan.load));
    assert!(toy.run(&plan.disable_c_modules.unwrap()));
    toy.assert_no_c_modules();
    let again = lua.load_from_std_lib(&mut extra, libs).unwrap();
    assert!(toy.run(&again.load));
    assert!(again.disable_c_modules.is_none());
    toy.assert_no_c_modules();
    assert!(toy.stack.is_empty());
}

#[test]
fn an_unsafe_state_keeps_c_modules() {
    let mut toy = Toy::new();
    let (lua, extra) = toy.construct(&Lua::unsafe_new(Version::Lua54), BARE);
    assert!(!lua.safe && !extra.safe);
    let package = toy.modules["package"];
    assert_eq!(toy.text(package, "loadlib"), Val::Stock("loadlib".to_string()));
    assert_eq!(toy.text(1, "debug"), Val::Table(toy.modules["debug"]));
}

#[test]
fn an_asynchronous_function_is_put_together_on_demand() {
    let mut toy = Toy::new();
    let c = Lua::new_with(Version::Lua54, StdLib::none(), LuaOptions::new()).unwrap();
    let features = Features { asynchronous: true, serialize: false };
    let (lua, mut extra) = toy.construct(&c, features);
    let before = toy.stack.len();
    let c = Callback { kind: CallKind::AsyncFunction, id: 3 };
    let driver = toy.make_callback(&lua, &mut extra, c);
    assert_eq!(toy.opened, vec![Library::Coroutine]);
    assert_eq!(toy.stack.len(), before);
    let table = toy.environment_of(&toy.refs[driver.index as usize - 1]);
    assert_eq!(
        toy.text(table, "get_poll"),
        Val::Closure(0, vec![Val::Owned(0), Val::Owned(0)])
    );
    assert_eq!(toy.text(table, "yield"), Val::Stock("yield".to_string()));
    assert_eq!(toy.text(table, "unpack"), Val::Builtin(3));
    assert_eq!(toy.text(table, "pending"), Val::Pointer(5));
    assert!(lua.create_async_function(&mut extra, 4).unwrap().load.is_none());
}

#[test]
fn a_metatable_is_wired() {
    let lua = handle();
    let mut extra = ExtraData::new();
    let mut methods = StaticUserDataMethods::default();
    methods.add_method(b"get", 1);
    methods.add_method(b"put", 6);
    methods.add_async_method(b"get", 2);
    methods.add_async_method(b"wait", 7);
    methods.add_meta_method(
        MetaMethod { name: b"__add".to_vec(), kind: MetaKind::Other, restricted: None },
        3,
    );
    let mut fields = StaticUserDataFields::default();
    fields.add_field_method_set(b"x", 4);
    fields.add_meta_field_with(
        MetaMethod { name: b"__add".to_vec(), kind: MetaKind::Other, restricted: None },
        5,
    );
    let mut toy = Toy::new();
    toy.stack.push(Val::Integer(1));
    let make = lua.make_userdata();
    assert!(toy.run(&make.push));
    let base = toy.stack.len() as i32;
    match lua.push_userdata_metatable(&extra, 8, base, &methods, &fields) {
        MetatablePlan::Make(plan) => {
            assert!(toy.run_with_callbacks(&lua, &mut extra, &plan));
        }
        MetatablePlan::Registered(_) => panic!("registered"),
    }
    assert_eq!(toy.opened, vec![Library::Coroutine]);
    let id = toy.last_ref;
    let mt = toy.stack.last().unwrap().clone();
    lua.register_userdata(&mut extra, 8, id, 0x10);
    assert!(toy.run(&make.attach));
    assert_eq!(toy.stack, vec![Val::Integer(1), Val::UserData(2)]);
    assert_eq!(toy.metatables[&2], mt);
    assert_eq!(mt, Val::Table(3));
    assert_eq!(toy.text(3, "__add"), Val::Computed(5));
    assert_eq!(
        toy.wirings,
        vec![(mt.clone(), None, Some(Val::Table(4)), Some(Val::Table(5)))]
    );
    let closure = Val::Closure(0, vec![Val::Owned(0), Val::Owned(0)]);
    assert_eq!(toy.text(4, "x"), closure);
    assert_eq!(toy.text(5, "put"), closure);
    let env = toy.environment_of(&toy.text(5, "get"));
    assert_eq!(toy.text(env, "get_poll"), closure);
    assert_eq!(toy.text(env, "yield"), Val::Stock("yield".to_string()));
    assert_ne!(env, toy.environment_of(&toy.text(5, "wait")));
    match lua.push_userdata_metatable(&extra, 8, 2, &methods, &fields) {
        MetatablePlan::Registered(plan) => assert!(toy.run(&plan)),
        MetatablePlan::Make(_) => panic!("made twice"),
    }
    assert_eq!(toy.stack.last(), Some(&mt));
}

#[test]
fn a_restricted_metatable_is_not_left_behind() {
    let lua = handle();
    let mut methods = StaticUserDataMethods::default();
    methods.add_meta_method(
        MetaMethod { name: b"__gc".to_vec(), kind: MetaKind::Other, restricted: Some(1) },
        3,
    );
    let mut toy = Toy::new();
    let fields = StaticUserDataFields::default();
    match lua.push_userdata_metatable(&ExtraData::new(), 8, 0, &methods, &fields) {
        MetatablePlan::Make(plan) => assert!(!toy.run(&plan)),
        MetatablePlan::Registered(_) => panic!("registered"),
    }
    assert!(toy.stack.len() <= 1);
}

#[test]
fn asynchronous_results_come_back_with_their_nils() {
    let lua = handle();
    let mut extra = ExtraData::new();
    let mut toy = Toy::new();
    let results = vec![Value::Nil, Value::Integer(4), Value::Nil];
    let polled = Polled::Ready(Ok(MultiValue::from_vec(results)));
    let (plan, nresults) = match lua.poll_future(polled).unwrap() {
        PollStep::MakeTable { table, nresults } => (table, nresults),
        other => panic!("{:?}", other),
    };
    assert!(toy.run(&plan));
    let table = toy.pin(&lua, &mut extra);
    let answer = lua.poll_answer(&table, nresults);
    assert!(toy.run_steps(&answer.steps));
    assert_eq!(
        toy.stack,
        vec![Val::Boolean(true), Val::Table(2), Val::Integer(3)]
    );
    assert_eq!(toy.stack.len(), answer.count as usize);
    let mut unpack = Unpack::new(3);
    let mut spread = Vec::new();
    while let Some(key) = unpack.next_key() {
        spread.push(toy.get(2, &Val::Integer(key)));
    }
    assert_eq!(spread, vec![Val::Nil, Val::Integer(4), Val::Nil]);
}

#[test]
fn waiting_is_done_with_the_yield_of_coroutines() {
    let mut toy = Toy::new();
    let lua = handle();
    assert!(!toy.run(&lua.async_yield()));
    assert!(toy.stack.is_empty());
    let coroutine = toy.new_table();
    toy.set(1, Val::Text(b"coroutine".to_vec()), Val::Table(coroutine));
    assert!(!toy.run(&lua.async_yield()));
    assert!(toy.stack.is_empty());
    toy.set(coroutine, Val::Text(b"yield".to_vec()), Val::Native(7));
    assert!(toy.run(&lua.async_yield()));
    assert_eq!(toy.stack, vec![Val::Table(1), Val::Table(coroutine), Val::Native(7)]);
}

#[test]
fn metamethods_come_in_where_there_is_no_field() {
    let mut toy = Toy::new();
    let lua = handle();
    let hidden = toy.new_table();
    let metatable = toy.new_table();
    let coroutine = toy.new_table();
    toy.set(coroutine, Val::Text(b"yield".to_vec()), Val::Native(7));
    toy.set(hidden, Val::Text(b"coroutine".to_vec()), Val::Table(coroutine));
    toy.set(metatable, Val::Text(b"__index".to_vec()), Val::Table(hidden));
    toy.metatables.insert(1, Val::Table(metatable));
    assert!(toy.run(&lua.async_yield()));
    assert_eq!(toy.stack.last(), Some(&Val::Native(7)));
    let own = toy.new_table();
    toy.set(own, Val::Text(b"yield".to_vec()), Val::Native(8));
    toy.set(1, Val::Text(b"coroutine".to_vec()), Val::Table(own));
    assert!(toy.run(&lua.async_yield()));
    assert_eq!(toy.stack.last(), Some(&Val::Native(8)));
}

#[test]
fn expiring_spares_what_is_still_held() {
    let mut toy = Toy::new();
    let lua = handle();
    let mut extra = ExtraData::new();
    assert!(toy.run(&lua.set_named_registry_value(b"kept", Value::Integer(1))));
    assert!(toy.run(&lua.create_registry_value(Value::Integer(2))));
    let dropped = toy.last_ref;
    assert!(toy.run(&lua.create_registry_value(Value::Integer(3))));
    let held = toy.last_ref;
    extra.drop_registry_key(dropped);
    assert!(toy.run(&lua.expire_registry_values(&mut extra)));
    assert_eq!(toy.get(0, &Val::Integer(dropped as i64)), Val::Nil);
    assert_eq!(toy.get(0, &Val::Integer(held as i64)), Val::Integer(3));
    assert_eq!(toy.text(0, "kept"), Val::Integer(1));
}

#[test]
fn expiring_spares_a_key_made_after_the_last_expiry() {
    let mut toy = Toy::new();
    let lua = handle();
    let mut extra = ExtraData::new();
    assert!(toy.run(&lua.create_registry_value(Value::Integer(2))));
    let reused = toy.last_ref;
    extra.drop_registry_key(reused);
    assert!(toy.run(&lua.expire_registry_values(&mut extra)));
    assert!(toy.run(&lua.create_registry_value(Value::Integer(3))));
    assert_eq!(toy.last_ref, reused);
    let key = lua.registry_key(reused);
    assert!(toy.run(&lua.expire_registry_values(&mut extra)));
    assert!(toy.run(&lua.registry_value(&key).unwrap()));
    assert_eq!(toy.stack, vec![Val::Integer(3)]);
}

#[test]
fn the_driver_environment_has_four_fields() {
    let lua = handle();
    let mut extra = ExtraData::new();
    let mut toy = Toy::new();
    toy.stack.push(Val::Native(6));
    let get_poll = toy.pin(&lua, &mut extra);
    toy.stack.push(Val::Native(7));
    let yielding = toy.pin(&lua, &mut extra);
    assert!(toy.run(&lua.async_environment(&get_poll, &yielding, 5)));
    assert_eq!(toy.tables[&2].len(), 4);
    assert_eq!(toy.text(2, "get_poll"), Val::Native(6));
    assert_eq!(toy.text(2, "yield"), Val::Native(7));
    assert_eq!(toy.text(2, "unpack"), Val::Builtin(3));
    assert_eq!(toy.text(2, "pending"), Val::Pointer(5));
    let env = toy.pin(&lua, &mut extra);
    assert!(toy.run(&lua.async_driver(&env).unwrap()));
    assert_eq!(toy.envs[&3], Val::Table(2));
}

#[test]
fn results_lie_in_order_on_the_stack() {
    let lua = handle();
    let mut toy = Toy::new();
    let values = vec![Value::Integer(1), Value::Integer(2), Value::Integer(3)];
    let answer = lua.results(&MultiValue::from_vec(values.clone()));
    assert!(toy.run_steps(&answer.steps));
    let mut popped = Vec::new();
    for _ in 0..answer.count {
        match toy.pop() {
            Val::Integer(i) => popped.push(Value::Integer(i)),
            other => panic!("{:?}", other),
        }
    }
    assert_eq!(Lua::arguments(popped), values);
}

#[test]
fn a_callback_is_a_closure_over_itself_and_the_state() {
    let lua = handle();
    let mut toy = Toy::new();
    let c = Callback { kind: CallKind::Function, id: 1 };
    assert!(toy.run(&lua.create_callback(c)));
    assert_eq!(toy.stack, vec![Val::Closure(0, vec![Val::Owned(0), Val::Owned(0)])]);
}
