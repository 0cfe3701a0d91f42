use vstd::prelude::*;
use vstd::slice::*;
use vstd::string::*;

use crate::ending::{
    lemma_halted_here, lemma_made, lemma_not_halted, room_fits, Ended, Given, Room,
};
use crate::error::{refused, Error, ErrorOf, ErrorView};
use crate::frame::law_load_chunk_is_sound;
use crate::lua::Lua;
use crate::machine::{
    emit, lemma_done, lemma_next, lemma_run_concat, lemma_single, name_view, ops, Index, Instr,
    InstrOf, LoadMode, Machine, Op, Outcome, Plan, PlanView, Val, World,
};
use crate::options::ChunkMode;
use crate::refs::RefSlots;
use crate::stack::{denoted, law_push_value, push_ops, pushable, slots_match};
use crate::text::{
    decimal, decimal_text, find_byte, first_position, law_first_position, starts_with,
};
use crate::value::{LuaRef, RefKind, Value};
use crate::version::Version;

verus! {

/// Returned from `Lua::load` and used to finalize loading and executing Lua main chunks.
#[derive(Debug)]
#[must_use]
pub struct Chunk<'lua, 'a> {
    lua: &'lua Lua,
    source: &'a [u8],
    name: Option<Vec<u8>>,
    env: Option<Value>,
    mode: Option<ChunkMode>,
}

/// What a `Chunk` holds.
pub struct ChunkView {
    pub lua: Lua,
    pub source: Seq<u8>,
    pub name: Option<Seq<u8>>,
    pub env: Option<Value>,
    pub mode: Option<ChunkMode>,
}

impl<'lua, 'a> View for Chunk<'lua, 'a> {
    type V = ChunkView;

    closed spec fn view(&self) -> ChunkView {
        ChunkView {
            lua: *self.lua,
            source: self.source@,
            name: name_view(self.name),
            env: self.env,
            mode: self.mode,
        }
    }
}

/// How a chunk is evaluated.
#[derive(Debug, PartialEq, Eq)]
pub struct EvalPlan {
    /// Loads the chunk as an expression, if that is to be tried first.
    pub attempt: Option<Plan>,
    /// Loads the chunk as it is.
    pub fallback: Plan,
}

/// The next step of an evaluation.
#[derive(Debug, PartialEq, Eq)]
pub enum EvalStep {
    /// Call this function; its results are those of the evaluation.
    Call(LuaRef),
    /// Load this, and call the function that it gives; an error is that of the evaluation.
    Load(Plan),
}

/// The bytes that binary chunks begin with.
pub open spec fn signature(version: Version) -> Seq<u8> {
    if version == Version::LuaJit {
        seq![0x1b, 0x4c, 0x4a]
    } else {
        seq![0x1b, 0x4c, 0x75, 0x61]
    }
}

/// Whether a source is a binary chunk.
pub open spec fn binary(version: Version, source: Seq<u8>) -> bool {
    signature(version).is_prefix_of(source)
}

/// Whether a source is a binary chunk, by the bytes that it begins with.
pub fn is_binary(version: Version, source: &[u8]) -> (b: bool)
    ensures
        b == binary(version, source@),
        version == Version::LuaJit ==> (b <==> source@.len() >= 3 && source@[0] == 0x1b
            && source@[1] == 0x4c && source@[2] == 0x4a),
        version != Version::LuaJit ==> (b <==> source@.len() >= 4 && source@[0] == 0x1b
            && source@[1] == 0x4c && source@[2] == 0x75 && source@[3] == 0x61),
{
    proof {
        law_binary_chunks(version, source@);
    }
    if version.is_jit() {
        let sig: [u8; 3] = [0x1b, 0x4c, 0x4a];
        assert(sig@ =~= signature(version));
        starts_with(source, sig.as_slice())
    } else {
        let sig: [u8; 4] = [0x1b, 0x4c, 0x75, 0x61];
        assert(sig@ =~= signature(version));
        starts_with(source, sig.as_slice())
    }
}

/// A source is a binary chunk exactly if it begins with an escape character and the letters `Lua`, or
/// `LJ` for LuaJIT. One whose first byte is anything else is none.
pub proof fn law_binary_chunks(version: Version, source: Seq<u8>)
    ensures
        version == Version::LuaJit ==> (binary(version, source) <==> source.len() >= 3 && source[0]
            == 0x1b && source[1] == 0x4c && source[2] == 0x4a),
        version != Version::LuaJit ==> (binary(version, source) <==> source.len() >= 4 && source[0]
            == 0x1b && source[1] == 0x4c && source[2] == 0x75 && source[3] == 0x61),
        source.len() == 0 || source[0] != 0x1b ==> !binary(version, source),
{
    let sig = signature(version);
    if sig.len() <= source.len() {
        let begin = source.subrange(0, sig.len() as int);
        assert(begin =~= sig <==> forall|i: int| 0 <= i < sig.len() ==> begin[i] == sig[i]);
        if version == Version::LuaJit {
            assert(begin =~= sig <==> source[0] == 0x1b && source[1] == 0x4c && source[2] == 0x4a)
                by {
                assert(begin[0] == source[0] && begin[1] == source[1] && begin[2] == source[2]);
                assert(sig[0] == 0x1b && sig[1] == 0x4c && sig[2] == 0x4a);
            }
        } else {
            assert(begin =~= sig <==> source[0] == 0x1b && source[1] == 0x4c && source[2] == 0x75
                && source[3] == 0x61) by {
                assert(begin[0] == source[0] && begin[1] == source[1] && begin[2] == source[2]
                    && begin[3] == source[3]);
                assert(sig[0] == 0x1b && sig[1] == 0x4c && sig[2] == 0x75 && sig[3] == 0x61);
            }
        }
    }
}

/// The kinds of chunks that are accepted; none if the source is not loaded at all.
pub open spec fn accepted_mode(
    safe: bool,
    version: Version,
    source: Seq<u8>,
    mode: Option<ChunkMode>,
) -> Option<LoadMode> {
    match mode {
        Some(ChunkMode::Binary) => if safe {
            None
        } else {
            Some(LoadMode::Binary)
        },
        Some(ChunkMode::Text) => Some(LoadMode::Text),
        None => if safe && binary(version, source) {
            None
        } else {
            Some(LoadMode::Any)
        },
    }
}

impl ChunkView {
    /// The kinds of chunks that the source is taken for; none if it is refused.
    pub open spec fn accepted(self) -> Option<LoadMode> {
        accepted_mode(self.lua.safe, self.lua.version, self.source, self.mode)
    }

    /// Whether the chunk becomes a function: it is not refused, and it compiles.
    pub open spec fn loads(self, world: World) -> bool {
        self.accepted() matches Some(mode) && (world.compiles)(self.source, mode)
    }

    /// The environment, if one is set, can be used with the state of the chunk. Nothing is asked of
    /// a chunk that is refused: its environment is not looked at.
    pub open spec fn env_owned(self) -> bool {
        self.accepted() is Some ==> (self.env matches Some(value) ==> value.owned_by(
            self.lua.extra,
        ))
    }

    /// The chunk as an expression.
    pub open spec fn expression(self) -> ChunkView {
        ChunkView { source: expression_bytes(self.source), ..self }
    }
}

/// Instructions that set the environment of the chunk on top of the stack.
pub open spec fn env_ops(version: Version, env: Option<Value>) -> Seq<Op> {
    match env {
        Some(value) => push_ops(value) + seq![
            if version.modern() {
                InstrOf::SetUpvalue(Index::FromTop(2), 1)
            } else {
                InstrOf::SetFenv(Index::FromTop(2))
            },
        ],
        None => Seq::empty(),
    }
}

/// Instructions that load a chunk.
pub open spec fn load_chunk_ops(chunk: ChunkView) -> Seq<Op> {
    match chunk.accepted() {
        Some(mode) => seq![
            InstrOf::CheckStack(1),
            InstrOf::LoadBuffer { source: chunk.source, name: chunk.name, mode },
        ] + env_ops(chunk.lua.version, chunk.env),
        None => seq![
            InstrOf::CheckStack(1),
            InstrOf::Fail(ErrorOf::SafetyError("binary chunks are disabled in safe mode"@)),
        ],
    }
}

/// The plan that loads a chunk into a function.
pub open spec fn load_chunk_plan(chunk: ChunkView) -> PlanView {
    PlanView {
        steps: load_chunk_ops(chunk),
        outcome: Outcome::Reference(RefKind::Function),
        guard: Some(0),
    }
}

/// The source of the expression chunk.
pub open spec fn expression_bytes(source: Seq<u8>) -> Seq<u8> {
    "return ".spec_bytes() + source
}

/// The error for a name with a null byte at a position.
pub open spec fn name_error(position: int) -> ErrorView {
    ErrorOf::ToLuaConversionError {
        from: "&str"@,
        to: "string"@,
        message: Some(
            "nul byte found in provided data at position: "@ + decimal(position as nat),
        ),
    }
}

proof fn lemma_expression_is_text(version: Version, source: Seq<u8>)
    ensures
        !binary(version, expression_bytes(source)),
{
    reveal_strlit("return ");
    assert("return ".is_ascii());
    is_ascii_spec_bytes("return ");
    let bytes = expression_bytes(source);
    assert(bytes[0] == "return "@[0] as u8);
    if binary(version, bytes) {
        assert(signature(version)[0] == bytes.subrange(0, signature(version).len() as int)[0]);
    }
}

fn copied(bytes: &Option<Vec<u8>>) -> (copy: Option<Vec<u8>>)
    ensures
        name_view(copy) == name_view(*bytes),
{
    match bytes {
        Some(b) => Some(slice_to_vec(b.as_slice())),
        None => None,
    }
}

impl Lua {
    /// Returns Lua source code as a `Chunk` builder type. The code is not even parsed until the
    /// chunk is executed, evaluated, called or made a function.
    pub fn load<'lua, 'a>(&'lua self, source: &'a [u8]) -> (chunk: Chunk<'lua, 'a>)
        ensures
            chunk@ == (ChunkView {
                lua: *self,
                source: source@,
                name: None,
                env: None,
                mode: None,
            }),
    {
        Chunk { lua: self, source, name: None, env: None, mode: None }
    }

    /// The kinds of chunks that a source is taken for. In safe mode a binary chunk is refused,
    /// whether it is declared as one or recognized.
    pub fn load_mode(&self, source: &[u8], mode: Option<ChunkMode>) -> (accepted: Option<LoadMode>)
        ensures
            accepted == accepted_mode(self.safe, self.version, source@, mode),
            mode is None && (!self.safe || source@.len() == 0 || source@[0] != 0x1b) ==> accepted
                == Some(LoadMode::Any),
            mode == Some(ChunkMode::Text) ==> accepted == Some(LoadMode::Text),
            mode == Some(ChunkMode::Binary) ==> accepted == (if self.safe {
                None
            } else {
                Some(LoadMode::Binary)
            }),
    {
        match mode {
            Some(ChunkMode::Binary) => if self.safe {
                None
            } else {
                Some(LoadMode::Binary)
            },
            Some(ChunkMode::Text) => Some(LoadMode::Text),
            None => if is_binary(self.version, source) && self.safe {
                None
            } else {
                Some(LoadMode::Any)
            },
        }
    }

    /// Makes the plan that loads a chunk, or fails if the chunk is refused.
    pub fn load_chunk(
        &self,
        source: &[u8],
        name: Option<Vec<u8>>,
        env: Option<Value>,
        mode: Option<ChunkMode>,
    ) -> (plan: Plan)
        requires
            (ChunkView {
                lua: *self,
                source: source@,
                name: name_view(name),
                env,
                mode,
            }).env_owned(),
        ensures
            plan@.steps[0] == Op::CheckStack(1),
            plan.outcome == Outcome::Reference(RefKind::Function),
            plan.guard == Some(0usize),
            plan@ == load_chunk_plan(
                ChunkView { lua: *self, source: source@, name: name_view(name), env, mode },
            ),
    {
        let ghost view = ChunkView {
            lua: *self,
            source: source@,
            name: name_view(name),
            env,
            mode,
        };
        let mut steps: Vec<Instr> = Vec::new();
        emit(&mut steps, InstrOf::CheckStack(1));
        match self.load_mode(source, mode) {
            Some(load_mode) => {
                emit(
                    &mut steps,
                    InstrOf::LoadBuffer { source: slice_to_vec(source), name, mode: load_mode },
                );
                if let Some(value) = env {
                    self.push_value(&mut steps, value);
                    if self.version.is_modern() {
                        emit(&mut steps, InstrOf::SetUpvalue(Index::FromTop(2), 1));
                    } else {
                        emit(&mut steps, InstrOf::SetFenv(Index::FromTop(2)));
                    }
                }
            },
            None => {
                emit(
                    &mut steps,
                    InstrOf::Fail(
                        ErrorOf::SafetyError("binary chunks are disabled in safe mode".to_owned()),
                    ),
                );
            },
        }
        assert(ops(steps@) =~= load_chunk_ops(view));
        Plan { steps, outcome: Outcome::Reference(RefKind::Function), guard: Some(0) }
    }
}

impl<'lua, 'a> Chunk<'lua, 'a> {
    /// Sets the name of this chunk, which results in more informative error traces. A name cannot
    /// hold a null byte.
    pub fn set_name(self, name: &[u8]) -> (r: Result<Chunk<'lua, 'a>, Error>)
        ensures
            match first_position(name@, 0) {
                Some(position) => refused(r, name_error(position)),
                None => r is Ok && r->Ok_0@ == (ChunkView { name: Some(name@), ..self@ }),
            },
            r is Ok <==> forall|i: int| 0 <= i < name@.len() ==> name@[i] != 0,
    {
        proof {
            law_first_position(name@, 0, 0);
        }
        match find_byte(name, 0) {
            Some(position) => {
                let message = "nul byte found in provided data at position: ".to_owned();
                let message = message.concat(decimal_text(position).as_str());
                Err(
                    ErrorOf::ToLuaConversionError {
                        from: "&str".to_owned(),
                        to: "string".to_owned(),
                        message: Some(message),
                    },
                )
            },
            None => Ok(
                Chunk {
                    lua: self.lua,
                    source: self.source,
                    name: Some(slice_to_vec(name)),
                    env: self.env,
                    mode: self.mode,
                },
            ),
        }
    }

    /// Sets the environment of the loaded chunk, to the value that the given one was converted to,
    /// if it could be.
    pub fn set_environment(self, env: Result<Value, Error>) -> (r: Result<Chunk<'lua, 'a>, Error>)
        ensures
            match env {
                Ok(value) => r is Ok && r->Ok_0@ == (ChunkView { env: Some(value), ..self@ }),
                Err(e) => refused(r, e@),
            },
    {
        match env {
            Ok(value) => Ok(
                Chunk {
                    lua: self.lua,
                    source: self.source,
                    name: self.name,
                    env: Some(value),
                    mode: self.mode,
                },
            ),
            Err(e) => Err(e),
        }
    }

    /// Sets whether the chunk is text or binary (autodetected by default).
    pub fn set_mode(self, mode: ChunkMode) -> (chunk: Chunk<'lua, 'a>)
        ensures
            chunk@ == (ChunkView { mode: Some(mode), ..self@ }),
    {
        Chunk {
            lua: self.lua,
            source: self.source,
            name: self.name,
            env: self.env,
            mode: Some(mode),
        }
    }

    /// Loads the chunk into a function, without executing it.
    pub fn into_function(self) -> (plan: Plan)
        requires
            self@.env_owned(),
        ensures
            plan@ == load_chunk_plan(self@),
    {
        self.lua.load_chunk(self.source, self.name, self.env, self.mode)
    }

    /// Loads the chunk into the function that is to be called with the given arguments.
    pub fn call(self) -> (plan: Plan)
        requires
            self@.env_owned(),
        ensures
            plan@ == load_chunk_plan(self@),
    {
        self.into_function()
    }

    /// Loads the chunk into the function that is to be called with no arguments and whose results
    /// are ignored.
    pub fn exec(self) -> (plan: Plan)
        requires
            self@.env_owned(),
        ensures
            plan@ == load_chunk_plan(self@),
    {
        self.call()
    }

    /// Evaluates the chunk as either an expression or block. Bytecode is always a block; source code
    /// is tried as an expression first, then as a block.
    pub fn eval(self) -> (plan: EvalPlan)
        requires
            self@.env_owned(),
        ensures
            plan.fallback@ == load_chunk_plan(self@),
            binary(self@.lua.version, self@.source) ==> plan.attempt is None,
            !binary(self@.lua.version, self@.source) ==> {
                &&& plan.attempt is Some
                &&& (plan.attempt->0)@ == load_chunk_plan(self@.expression())
            },
            self@.source.len() == 0 || self@.source[0] != 0x1b ==> plan.attempt is Some,
            plan.attempt matches Some(attempt) ==> attempt@ == load_chunk_plan(
                ChunkView {
                    source: seq![0x72u8, 0x65, 0x74, 0x75, 0x72, 0x6e, 0x20] + self@.source,
                    ..self@
                },
            ),
    {
        proof {
            law_binary_chunks(self.lua.version, self.source@);
            law_expression(self@);
        }
        let attempt = if is_binary(self.lua.version, self.source) {
            None
        } else {
            let source = self.expression_source();
            proof {
                lemma_expression_is_text(self.lua.version, self.source@);
            }
            Some(
                self.lua.load_chunk(source.as_slice(), copied(&self.name), self.env, self.mode),
            )
        };
        EvalPlan { attempt, fallback: self.call() }
    }

    /// The source of the chunk as an expression.
    pub fn expression_source(&self) -> (buf: Vec<u8>)
        ensures
            buf@ == expression_bytes(self@.source),
            buf@ == seq![0x72u8, 0x65, 0x74, 0x75, 0x72, 0x6e, 0x20] + self@.source,
    {
        proof {
            law_expression_bytes(self@.source);
        }
        let mut buf = "return ".as_bytes_vec();
        let mut source = slice_to_vec(self.source);
        buf.append(&mut source);
        buf
    }
}

impl EvalPlan {
    /// Continues an evaluation after its attempt, if there was one: `function` is what the attempt
    /// gave, if it did not fail.
    pub fn settle(self, function: Option<LuaRef>) -> (step: EvalStep)
        requires
            self.attempt is None ==> function is None,
        ensures
            step == match function {
                Some(f) => EvalStep::Call(f),
                None => EvalStep::Load(self.fallback),
            },
    {
        match function {
            Some(f) => EvalStep::Call(f),
            None => EvalStep::Load(self.fallback),
        }
    }
}

/// In safe mode Lua is handed bytes only if text is all that it may take them for, or if they do not
/// begin with the signature of binary chunks.
pub proof fn law_safe_mode_loads_no_binary(chunk: ChunkView, i: int)
    requires
        chunk.lua.safe,
        0 <= i < load_chunk_plan(chunk).steps.len(),
    ensures
        load_chunk_plan(chunk).steps[i] matches InstrOf::LoadBuffer { source, mode, .. } ==> {
            &&& source == chunk.source
            &&& mode != LoadMode::Binary
            &&& mode == LoadMode::Any ==> !binary(chunk.lua.version, source)
            &&& mode == LoadMode::Any ==> !(if chunk.lua.version == Version::LuaJit {
                source.len() >= 3 && source[0] == 0x1b && source[1] == 0x4c && source[2] == 0x4a
            } else {
                source.len() >= 4 && source[0] == 0x1b && source[1] == 0x4c && source[2] == 0x75
                    && source[3] == 0x61
            })
        },
{
    law_binary_chunks(chunk.lua.version, chunk.source);
    match chunk.env {
        Some(value) => {
            if i >= 2 {
                assert(load_chunk_ops(chunk)[i] == env_ops(chunk.lua.version, chunk.env)[i - 2]);
            }
        },
        None => {},
    }
}

/// A declared or recognized binary chunk is refused in safe mode, and only then.
pub proof fn law_refused_chunks(chunk: ChunkView)
    ensures
        load_chunk_plan(chunk).steps.contains(
            InstrOf::Fail(ErrorOf::SafetyError("binary chunks are disabled in safe mode"@)),
        ) <==> chunk.lua.safe && (chunk.mode == Some(ChunkMode::Binary) || chunk.mode is None
            && binary(chunk.lua.version, chunk.source)),
        load_chunk_plan(chunk).steps.contains(
            InstrOf::Fail(ErrorOf::SafetyError("binary chunks are disabled in safe mode"@)),
        ) <==> chunk.lua.safe && (chunk.mode == Some(ChunkMode::Binary) || chunk.mode is None && (
        if chunk.lua.version == Version::LuaJit {
            chunk.source.len() >= 3 && chunk.source[0] == 0x1b && chunk.source[1] == 0x4c
                && chunk.source[2] == 0x4a
        } else {
            chunk.source.len() >= 4 && chunk.source[0] == 0x1b && chunk.source[1] == 0x4c
                && chunk.source[2] == 0x75 && chunk.source[3] == 0x61
        })),
{
    law_binary_chunks(chunk.lua.version, chunk.source);
    let fail: Op = InstrOf::Fail(ErrorOf::SafetyError("binary chunks are disabled in safe mode"@));
    let code = load_chunk_ops(chunk);
    match chunk.accepted() {
        Some(_) => {
            if code.contains(fail) {
                let i = code.index_of(fail);
                if i >= 2 {
                    assert(code[i] == env_ops(chunk.lua.version, chunk.env)[i - 2]);
                }
            }
        },
        None => {
            assert(code[1] == fail);
        },
    }
}

/// Without safe mode no chunk is refused. In safe mode one is refused if it was declared as binary,
/// and, without a declaration, if it begins with the bytes of binary chunks, which are an escape
/// character and the letters `Lua`, or `LJ` for LuaJIT. A chunk that is not refused is taken for what
/// it was declared as.
pub proof fn law_accepted_chunks(chunk: ChunkView)
    ensures
        ({
            let source = chunk.source;
            let signed = if chunk.lua.version == Version::LuaJit {
                source.len() >= 3 && source[0] == 0x1b && source[1] == 0x4c && source[2] == 0x4a
            } else {
                source.len() >= 4 && source[0] == 0x1b && source[1] == 0x4c && source[2] == 0x75
                    && source[3] == 0x61
            };
            chunk.accepted() == match chunk.mode {
                Some(ChunkMode::Text) => Some(LoadMode::Text),
                Some(ChunkMode::Binary) => if chunk.lua.safe {
                    None
                } else {
                    Some(LoadMode::Binary)
                },
                None => if chunk.lua.safe && signed {
                    None
                } else {
                    Some(LoadMode::Any)
                },
            }
        }),
{
    law_binary_chunks(chunk.lua.version, chunk.source);
}

/// A source that does not begin with an escape character is handed to Lua when no kind is declared,
/// with or without safe mode: it becomes a new function exactly if Lua compiles it.
pub proof fn law_text_is_loaded(m: Machine, chunk: ChunkView)
    requires
        m.roomy(),
        chunk.mode is None,
        chunk.source.len() == 0 || chunk.source[0] != 0x1b,
        chunk.env matches Some(value) ==> pushable(m, value),
        (m.world.compiles)(chunk.source, LoadMode::Any),
    ensures
        ({
            let end = m.run(load_chunk_plan(chunk).steps);
            &&& end is Some
            &&& end->0.stack == m.stack.push(Val::Chunk(m.fresh))
            &&& end->0.sources[m.fresh] == chunk.source
            &&& end->0.refs == m.refs
            &&& end->0.tables == m.tables
            &&& chunk.env matches Some(value) ==> end->0.envs[m.fresh] == denoted(m, value)
        }),
{
    law_binary_chunks(chunk.lua.version, chunk.source);
    law_loaded_chunk(m, chunk);
}

/// Lua is handed the source and the name of a chunk that is not refused as they are. Its environment
/// is set as the first upvalue of the function, or in Lua 5.1 and LuaJIT as its environment.
pub proof fn law_loading_instructions(chunk: ChunkView, mode: LoadMode)
    requires
        chunk.accepted() == Some(mode),
    ensures
        load_chunk_plan(chunk).steps[1] == (Op::LoadBuffer {
            source: chunk.source,
            name: chunk.name,
            mode,
        }),
        chunk.env is None ==> load_chunk_plan(chunk).steps.len() == 2,
        chunk.env is Some ==> load_chunk_plan(chunk).steps.last() == (if chunk.lua.version
            == Version::Lua51 || chunk.lua.version == Version::LuaJit {
            Op::SetFenv(Index::FromTop(2))
        } else {
            Op::SetUpvalue(Index::FromTop(2), 1)
        }),
{
}

/// The error for a name with a null byte gives the position of the byte in decimal digits.
pub proof fn law_name_error(position: nat)
    ensures
        name_error(position as int) == (ErrorView::ToLuaConversionError {
            from: "&str"@,
            to: "string"@,
            message: Some("nul byte found in provided data at position: "@ + decimal(position)),
        }),
{
}

/// The machine with a chunk made a function, on top of the stack.
pub open spec fn with_chunk(m: Machine, chunk: ChunkView) -> Machine {
    Machine {
        stack: m.stack.push(Val::Chunk(m.fresh)),
        envs: match chunk.env {
            Some(value) => m.envs.insert(m.fresh, denoted(m, value)),
            None => m.envs,
        },
        sources: m.sources.insert(m.fresh, chunk.source),
        fresh: m.fresh + 1,
        ..m
    }
}

/// A chunk that is not refused and compiles becomes a new function of its source on top of the
/// stack, whose environment is the given value if there is one; nothing else has changed.
pub proof fn law_loaded_chunk(m: Machine, chunk: ChunkView)
    requires
        m.roomy(),
        chunk.loads(m.world),
        chunk.env matches Some(value) ==> pushable(m, value),
    ensures
        m.run(load_chunk_plan(chunk).steps) == Some(with_chunk(m, chunk)),
{
    let mode = chunk.accepted()->0;
    let first = seq![
        Op::CheckStack(1),
        Op::LoadBuffer { source: chunk.source, name: chunk.name, mode },
    ];
    lemma_run_concat(m, first, env_ops(chunk.lua.version, chunk.env));
    let loaded = with_chunk(m, ChunkView { env: None, ..chunk });
    lemma_next(m, first, 0, m);
    lemma_next(m, first, 1, loaded);
    lemma_done(loaded, first, 2);
    match chunk.env {
        Some(value) => {
            let last = env_ops(chunk.lua.version, chunk.env).last();
            assert(env_ops(chunk.lua.version, chunk.env) =~= push_ops(value) + seq![last]);
            law_push_value(loaded, value);
            lemma_run_concat(loaded, push_ops(value), seq![last]);
            let pushed = loaded.push(denoted(m, value));
            assert(pushed.stack.take(pushed.height() - 1) =~= loaded.stack);
            assert(pushed.stack[pushed.height() - 2] == Val::Chunk(m.fresh));
            lemma_single(
                pushed,
                last,
                Machine { envs: m.envs.insert(m.fresh, denoted(m, value)), ..loaded },
            );
        },
        None => {},
    }
}

/// A chunk that is refused or does not compile gives nothing, and everything is as it was before.
pub proof fn law_chunk_is_not_made(m: Machine, chunk: ChunkView, slots: RefSlots, has_room: Room)
    requires
        !chunk.loads(m.world),
    ensures
        load_chunk_plan(chunk).end(m, slots, has_room) == (Ended {
            machine: m,
            slots,
            given: Given::Failed,
        }),
{
    let code = load_chunk_ops(chunk);
    if (m.world.room)(m.height(), 1) {
        lemma_not_halted(m, code, 0, m);
        lemma_halted_here(m, code, 1);
    } else {
        lemma_halted_here(m, code, 0);
    }
}

/// The function that an evaluation calls: that of the chunk as an expression if there is one, else
/// that of the chunk as it is. Bytecode is not tried as an expression.
pub open spec fn eval_end(
    m: Machine,
    chunk: ChunkView,
    slots: RefSlots,
    rooms: (Room, Room),
) -> Ended {
    let attempt = load_chunk_plan(chunk.expression()).end(m, slots, rooms.0);
    if binary(chunk.lua.version, chunk.source) {
        load_chunk_plan(chunk).end(m, slots, rooms.1)
    } else if attempt.given is Handle {
        attempt
    } else {
        load_chunk_plan(chunk).end(attempt.machine, attempt.slots, rooms.1)
    }
}

/// The form in which a chunk is evaluated: as an expression if that compiles, else as it is, if that
/// does.
pub open spec fn evaluated_form(world: World, chunk: ChunkView) -> Option<ChunkView> {
    if !binary(chunk.lua.version, chunk.source) && chunk.expression().loads(world) {
        Some(chunk.expression())
    } else if chunk.loads(world) {
        Some(chunk)
    } else {
        None
    }
}

proof fn lemma_chunk_is_made(m: Machine, chunk: ChunkView, slots: RefSlots, has_room: Room)
    requires
        m.roomy(),
        chunk.loads(m.world),
        chunk.env matches Some(value) ==> pushable(m, value),
        slots.wf(),
        slots_match(m, slots),
        room_fits(slots, has_room),
    ensures
        ({
            let ended = load_chunk_plan(chunk).end(m, slots, has_room);
            &&& ended.given is Handle || ended.given is Exhausted
            &&& ended.machine == (Machine {
                stack: m.stack,
                refs: ended.machine.refs,
                ..with_chunk(m, chunk)
            })
            &&& ended.given matches Given::Handle(index) ==> ended.machine.refs[index - 1]
                == Val::Chunk(m.fresh)
            &&& forall|i: i32| #[trigger]
                slots.live(i) ==> ended.machine.refs[i - 1] == m.refs[i - 1]
        }),
{
    law_load_chunk_is_sound(chunk);
    law_loaded_chunk(m, chunk);
    lemma_made(m, load_chunk_plan(chunk), slots, has_room, with_chunk(m, chunk));
}

/// An evaluation makes a function of the source as an expression if that compiles, and else of the
/// source as it is. If neither compiles, or the chunk is refused, it fails, and everything is as it
/// was before. The stack and the values behind handles are those of before in any case.
pub proof fn law_eval(m: Machine, chunk: ChunkView, slots: RefSlots, rooms: (Room, Room))
    requires
        m.roomy(),
        chunk.env matches Some(value) ==> pushable(m, value),
        slots.wf(),
        slots_match(m, slots),
        room_fits(slots, rooms.0),
        room_fits(slots, rooms.1),
        !binary(chunk.lua.version, chunk.source) ==> !(load_chunk_plan(chunk.expression()).end(
            m,
            slots,
            rooms.0,
        ).given is Exhausted),
    ensures
        ({
            let ended = eval_end(m, chunk, slots, rooms);
            match evaluated_form(m.world, chunk) {
                Some(form) => {
                    &&& ended.given is Handle || ended.given is Exhausted
                    &&& ended.given matches Given::Handle(index) ==> ended.machine.refs[index - 1]
                        == Val::Chunk(m.fresh)
                    &&& ended.machine == (Machine {
                        stack: m.stack,
                        refs: ended.machine.refs,
                        ..with_chunk(m, form)
                    })
                    &&& forall|i: i32| #[trigger]
                        slots.live(i) ==> ended.machine.refs[i - 1] == m.refs[i - 1]
                },
                None => ended == (Ended { machine: m, slots, given: Given::Failed }),
            }
        }),
{
    let expression = chunk.expression();
    if expression.loads(m.world) {
        lemma_chunk_is_made(m, expression, slots, rooms.0);
    } else {
        law_chunk_is_not_made(m, expression, slots, rooms.0);
    }
    if chunk.loads(m.world) {
        lemma_chunk_is_made(m, chunk, slots, rooms.1);
    } else {
        law_chunk_is_not_made(m, chunk, slots, rooms.1);
    }
}

/// What is evaluated of a source that does not begin with the bytes of binary chunks, and that was not
/// declared as one: `return ` and the source if Lua compiles that, else the source if Lua compiles it.
/// The function has the environment that was set. If Lua compiles neither, the evaluation fails, and
/// everything is as it was before.
pub proof fn law_evaluated_text(m: Machine, chunk: ChunkView, slots: RefSlots, rooms: (Room, Room))
    requires
        m.roomy(),
        chunk.mode != Some(ChunkMode::Binary),
        !(if chunk.lua.version == Version::LuaJit {
            chunk.source.len() >= 3 && chunk.source[0] == 0x1b && chunk.source[1] == 0x4c
                && chunk.source[2] == 0x4a
        } else {
            chunk.source.len() >= 4 && chunk.source[0] == 0x1b && chunk.source[1] == 0x4c
                && chunk.source[2] == 0x75 && chunk.source[3] == 0x61
        }),
        chunk.env matches Some(value) ==> pushable(m, value),
        slots.wf(),
        slots_match(m, slots),
        room_fits(slots, rooms.0),
        room_fits(slots, rooms.1),
        !(load_chunk_plan(chunk.expression()).end(m, slots, rooms.0).given is Exhausted),
    ensures
        ({
            let returned = seq![0x72u8, 0x65, 0x74, 0x75, 0x72, 0x6e, 0x20] + chunk.source;
            let kind = if chunk.mode is None {
                LoadMode::Any
            } else {
                LoadMode::Text
            };
            let ended = eval_end(m, chunk, slots, rooms);
            if (m.world.compiles)(returned, kind) || (m.world.compiles)(chunk.source, kind) {
                &&& ended.given is Handle || ended.given is Exhausted
                &&& ended.given matches Given::Handle(index) ==> ended.machine.refs[index - 1]
                    == Val::Chunk(m.fresh)
                &&& ended.machine.sources[m.fresh] == if (m.world.compiles)(returned, kind) {
                    returned
                } else {
                    chunk.source
                }
                &&& ended.machine.stack == m.stack
                &&& chunk.env matches Some(value) ==> ended.machine.envs[m.fresh] == denoted(
                    m,
                    value,
                )
            } else {
                ended == (Ended { machine: m, slots, given: Given::Failed })
            }
        }),
{
    let version = chunk.lua.version;
    law_binary_chunks(version, chunk.source);
    lemma_expression_is_text(version, chunk.source);
    law_expression_bytes(chunk.source);
    law_eval(m, chunk, slots, rooms);
}

/// A chunk as an expression is the same chunk but for its source, which comes after the word `return`
/// and a space.
pub proof fn law_expression(chunk: ChunkView)
    ensures
        chunk.expression() == (ChunkView {
            source: seq![0x72u8, 0x65, 0x74, 0x75, 0x72, 0x6e, 0x20] + chunk.source,
            ..chunk
        }),
{
    law_expression_bytes(chunk.source);
}

/// The expression of a source is the source after the word `return` and a space.
pub proof fn law_expression_bytes(source: Seq<u8>)
    ensures
        expression_bytes(source) == seq![0x72u8, 0x65, 0x74, 0x75, 0x72, 0x6e, 0x20] + source,
{
    reveal_strlit("return ");
    assert("return ".is_ascii());
    is_ascii_spec_bytes("return ");
    assert("return ".spec_bytes() =~= seq![0x72u8, 0x65, 0x74, 0x75, 0x72, 0x6e, 0x20]);
}

/// Bytecode is evaluated as it is, and never as an expression. In safe mode it is refused, unless it
/// was declared as text.
pub proof fn law_evaluated_bytecode(
    m: Machine,
    chunk: ChunkView,
    slots: RefSlots,
    rooms: (Room, Room),
)
    requires
        if chunk.lua.version == Version::LuaJit {
            chunk.source.len() >= 3 && chunk.source[0] == 0x1b && chunk.source[1] == 0x4c
                && chunk.source[2] == 0x4a
        } else {
            chunk.source.len() >= 4 && chunk.source[0] == 0x1b && chunk.source[1] == 0x4c
                && chunk.source[2] == 0x75 && chunk.source[3] == 0x61
        },
    ensures
        eval_end(m, chunk, slots, rooms) == load_chunk_plan(chunk).end(m, slots, rooms.1),
        chunk.lua.safe && chunk.mode != Some(ChunkMode::Text) ==> eval_end(m, chunk, slots, rooms)
            == (Ended { machine: m, slots, given: Given::Failed }),
{
    law_binary_chunks(chunk.lua.version, chunk.source);
    if chunk.lua.safe && chunk.mode != Some(ChunkMode::Text) {
        law_chunk_is_not_made(m, chunk, slots, rooms.1);
    }
}

} // verus!
