# mlua_core

The bookkeeping and the decisions of a safe embedding of Lua, verified with Verus.

The library does not call the C API of Lua. It decides what is to be done and hands the work out as
plans: sequences of instructions, each of which stands for one call into the API, and what becomes
of the top of the stack at the end. A model of the virtual machine (`machine.rs`) gives the
instructions their meaning, and the laws state over it what the plans achieve.

- `lua.rs`, `options.rs`, `version.rs`, `stdlib.rs`, `error.rs`, `value.rs`: handles, shared data,
  options and the values that pass between the embedder and Lua
- `construct.rs`, `startup.rs`: making a state or taking one over, loading modules, safe mode, and
  what a state holds once it is made
- `memory.rs`, `gc.rs`: the accounting allocator with its limit, and the collector
- `refs.rs`, `stack.rs`: the slots that pin values, pushing and popping
- `chunk.rs`, `create.rs`, `registry.rs`: chunks, tables, strings, threads, coercions, the registry
- `callback.rs`, `invocation.rs`: functions that Lua calls
- `asynchronous.rs`, `driver.rs`: futures, and the function that drives one
- `userdata.rs`, `metatable.rs`: userdata types and their metatables
- `machine.rs`, `frame.rs`, `ending.rs`: the instructions, their model, what every plan keeps of the
  stack, and how a plan ends
- `number.rs`, `text.rs`: numbers as keys, decimal numbers and byte strings

`app/` carries the plans out on Lua 5.4 and offers the embedding to Rust programs: conversions by
traits, closures, futures and the C API itself. `tests/` runs the plans on a small machine of its
own.
