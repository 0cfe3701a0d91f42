//! A small part of the Lua language, enough for the function that drives a future: how its programs
//! are written, and what they do when they are called.

use vstd::prelude::*;
use vstd::string::*;
use vstd::utf8::*;

use crate::asynchronous::driver_text;
use crate::machine::{field, with_field, Val};
use crate::text::lemma_bytes_tell_texts_apart;

verus! {

/// An argument of a call.
pub enum Arg {
    /// The value of a variable.
    Name(&'static str),
    /// All the arguments that the program itself was called with.
    Rest,
}

/// A call of the function in a variable.
pub struct Call {
    pub function: &'static str,
    pub args: Seq<Arg>,
}

/// A statement.
pub enum Stat {
    /// Sets a variable to the first result of a call.
    Assign(&'static str, Call),
    /// Makes local variables out of the variables of the same names.
    Keep(Seq<&'static str>),
    /// Makes local variables out of the results of a call.
    Take(Seq<&'static str>, Call),
    /// Returns the results of a call, if a variable is neither nil nor false.
    ReturnIf(&'static str, Call),
    /// Makes a call and forgets its results.
    Do(Call),
}

/// A program: statements that are run once, and statements that are run again and again until one
/// of them returns.
pub struct Program {
    pub once: Seq<Stat>,
    pub again: Seq<Stat>,
}

impl Arg {
    /// How an argument is written.
    pub open spec fn written(self) -> Seq<char> {
        match self {
            Arg::Name(name) => name@,
            Arg::Rest => "..."@,
        }
    }
}

/// How a list is written, given how its members are.
pub open spec fn listed(members: Seq<Seq<char>>) -> Seq<char>
    decreases members.len(),
{
    if members.len() == 0 {
        Seq::empty()
    } else if members.len() == 1 {
        members[0]
    } else {
        listed(members.drop_last()) + ", "@ + members.last()
    }
}

/// How a list of names is written.
pub open spec fn names_written(names: Seq<&'static str>) -> Seq<char> {
    listed(names.map_values(|name: &'static str| name@))
}

impl Call {
    /// How a call is written.
    pub open spec fn written(self) -> Seq<char> {
        self.function@ + "("@ + listed(self.args.map_values(|arg: Arg| arg.written())) + ")"@
    }
}

impl Stat {
    /// How a statement is written, each of its lines after an indent.
    pub open spec fn written(self, indent: Seq<char>) -> Seq<char> {
        match self {
            Stat::Assign(name, call) => indent + name@ + " = "@ + call.written() + "\n"@,
            Stat::Keep(names) => indent + "local "@ + names_written(names) + " = "@
                + names_written(names) + "\n"@,
            Stat::Take(names, call) => indent + "local "@ + names_written(names) + " = "@
                + call.written() + "\n"@,
            Stat::ReturnIf(name, call) => indent + "if "@ + name@ + " then\n"@ + indent
                + "    return "@ + call.written() + "\n"@ + indent + "end\n"@,
            Stat::Do(call) => indent + call.written() + "\n"@,
        }
    }
}

/// How statements are written, one after another.
pub open spec fn stats_written(stats: Seq<Stat>, indent: Seq<char>) -> Seq<char>
    decreases stats.len(),
{
    if stats.len() == 0 {
        Seq::empty()
    } else {
        stats_written(stats.drop_last(), indent) + stats.last().written(indent)
    }
}

impl Program {
    /// How a program is written.
    pub open spec fn written(self) -> Seq<char> {
        "\n"@ + stats_written(self.once, "            "@) + "            while true do\n"@
            + stats_written(self.again, "                "@) + "            end\n"@
            + "            "@
    }
}

/// A call that a program has made: the function, and the values that it was given.
pub struct Made {
    pub function: Val,
    pub args: Seq<Val>,
}

/// A program that is running: its environment, its local variables, the arguments that it was called
/// with, and the calls that it has made.
#[verifier::ext_equal]
pub struct Running {
    pub env: Map<Val, Val>,
    pub locals: Map<Seq<char>, Val>,
    pub rest: Seq<Val>,
    pub made: Seq<Made>,
}

/// What the functions that are called answer: the results of the last of some calls.
pub type Answers = spec_fn(Seq<Made>) -> Seq<Val>;

/// A value of a list, nil beyond its end.
pub open spec fn value_at(values: Seq<Val>, i: int) -> Val {
    if 0 <= i < values.len() {
        values[i]
    } else {
        Val::Nil
    }
}

/// Whether Lua takes a value for true.
pub open spec fn truthy(value: Val) -> bool {
    value != Val::Nil && value != Val::Boolean(false)
}

impl Running {
    /// The value of a variable.
    pub open spec fn get(self, name: &'static str) -> Val {
        if self.locals.dom().contains(name@) {
            self.locals[name@]
        } else {
            field(self.env, Val::String(name.spec_bytes()))
        }
    }

    /// With a variable set.
    pub open spec fn set(self, name: &'static str, value: Val) -> Running {
        if self.locals.dom().contains(name@) {
            Running { locals: self.locals.insert(name@, value), ..self }
        } else {
            Running {
                env: with_field(self.env, Val::String(name.spec_bytes()), value),
                ..self
            }
        }
    }

    /// With local variables for values.
    pub open spec fn with_locals(self, names: Seq<&'static str>, values: Seq<Val>) -> Running
        decreases names.len(),
    {
        if names.len() == 0 {
            self
        } else {
            let first = self.with_locals(names.drop_last(), values);
            Running {
                locals: first.locals.insert(names.last()@, value_at(values, names.len() - 1)),
                ..first
            }
        }
    }

    /// The values of arguments. What a program was called with stands for all of its values at the
    /// end of a list, and else for the first of them.
    pub open spec fn values(self, args: Seq<Arg>) -> Seq<Val> {
        if args.len() == 0 {
            Seq::empty()
        } else {
            args.drop_last().map_values(
                |arg: Arg|
                    match arg {
                        Arg::Name(name) => self.get(name),
                        Arg::Rest => value_at(self.rest, 0),
                    },
            ) + match args.last() {
                Arg::Name(name) => seq![self.get(name)],
                Arg::Rest => self.rest,
            }
        }
    }

    /// After a call was made.
    pub open spec fn calling(self, call: Call) -> Running {
        Running {
            made: self.made.push(
                Made { function: self.get(call.function), args: self.values(call.args) },
            ),
            ..self
        }
    }

    /// After a statement, with the results that it returns, if it does.
    pub open spec fn after(self, stat: Stat, answers: Answers) -> (Running, Option<Seq<Val>>) {
        match stat {
            Stat::Assign(name, call) => {
                let called = self.calling(call);
                (called.set(name, value_at(answers(called.made), 0)), None)
            },
            Stat::Keep(names) => (
                self.with_locals(names, names.map_values(|name: &'static str| self.get(name))),
                None,
            ),
            Stat::Take(names, call) => {
                let called = self.calling(call);
                (called.with_locals(names, answers(called.made)), None)
            },
            Stat::ReturnIf(name, call) => if truthy(self.get(name)) {
                let called = self.calling(call);
                (called, Some(answers(called.made)))
            } else {
                (self, None)
            },
            Stat::Do(call) => (self.calling(call), None),
        }
    }

    /// After statements up to the first that returns, from position `i` on.
    pub open spec fn through(self, stats: Seq<Stat>, i: int, answers: Answers) -> (
        Running,
        Option<Seq<Val>>,
    )
        decreases stats.len() - i,
    {
        if i >= stats.len() {
            (self, None)
        } else {
            let (next, returned) = self.after(stats[i], answers);
            match returned {
                Some(results) => (next, Some(results)),
                None => next.through(stats, i + 1, answers),
            }
        }
    }

    /// After at most so many repetitions of statements. Local variables last for one repetition.
    pub open spec fn repeating(self, stats: Seq<Stat>, times: nat, answers: Answers) -> (
        Running,
        Option<Seq<Val>>,
    )
        decreases times,
    {
        if times == 0 {
            (self, None)
        } else {
            let (next, returned) = self.through(stats, 0, answers);
            match returned {
                Some(results) => (next, Some(results)),
                None => Running { locals: self.locals, ..next }.repeating(
                    stats,
                    (times - 1) as nat,
                    answers,
                ),
            }
        }
    }
}

impl Program {
    /// A call of a program in an environment, up to so many repetitions: the calls that it makes,
    /// and the results that it returns, if it does.
    pub open spec fn called(
        self,
        env: Map<Val, Val>,
        args: Seq<Val>,
        times: nat,
        answers: Answers,
    ) -> (Seq<Made>, Option<Seq<Val>>) {
        let start = Running { env, locals: Map::empty(), rest: args, made: Seq::empty() };
        let (begun, returned) = start.through(self.once, 0, answers);
        match returned {
            Some(results) => (begun.made, Some(results)),
            None => {
                let (end, returned) = begun.repeating(self.again, times, answers);
                (end.made, returned)
            },
        }
    }
}

/// A call is written as the name of the function and, in brackets, its arguments: variables by their
/// names and the arguments of the program by three dots, with a comma and a space in between.
pub proof fn law_written_calls(function: &'static str, a: &'static str, b: &'static str)
    ensures
        (Call { function, args: seq![] }).written() == function@ + "()"@,
        (Call { function, args: seq![Arg::Rest] }).written() == function@ + "(...)"@,
        (Call { function, args: seq![Arg::Name(a)] }).written() == function@ + "("@ + a@ + ")"@,
        (Call { function, args: seq![Arg::Name(a), Arg::Name(b)] }).written() == function@ + "("@
            + a@ + ", "@ + b@ + ")"@,
{
    let text = |arg: Arg| arg.written();
    reveal_strlit("()");
    reveal_strlit("(...)");
    reveal_strlit("(");
    reveal_strlit("...");
    reveal_strlit(")");
    lemma_listed(seq![], text, seq![]);
    lemma_listed(seq![Arg::Rest], text, seq!["..."@]);
    lemma_listed(seq![Arg::Name(a)], text, seq![a@]);
    lemma_listed(seq![Arg::Name(a), Arg::Name(b)], text, seq![a@, b@]);
    reveal_with_fuel(listed, 3);
    assert(seq![a@, b@].drop_last() =~= seq![a@]);
    assert((Call { function, args: seq![] }).written() =~= function@ + "()"@);
    assert((Call { function, args: seq![Arg::Rest] }).written() =~= function@ + "(...)"@);
    assert((Call { function, args: seq![Arg::Name(a), Arg::Name(b)] }).written() =~= function@
        + "("@ + a@ + ", "@ + b@ + ")"@);
}

proof fn lemma_listed(args: Seq<Arg>, text: spec_fn(Arg) -> Seq<char>, members: Seq<Seq<char>>)
    requires
        text == (|arg: Arg| arg.written()),
        args.len() == members.len(),
        forall|i: int| 0 <= i < args.len() ==> (#[trigger] args[i]).written() == members[i],
    ensures
        args.map_values(text) == members,
{
    assert(args.map_values(text) =~= members);
}

proof fn lemma_driver_lines()
    ensures
        driver_text()@ == "\n"@ + "            poll = get_poll(...)\n"@
            + "            local poll, pending, yield, unpack = poll, pending, yield, unpack\n"@
            + "            while true do\n"@
            + "                local ready, res, nres = poll()\n"@
            + "                if ready then\n"@
            + "                    return unpack(res, nres)\n"@
            + "                end\n"@
            + "                yield(pending)\n"@
            + "            end\n"@
            + "            "@,
{
    let text = driver_text()@;
    reveal_strlit(
        "
            poll = get_poll(...)
            local poll, pending, yield, unpack = poll, pending, yield, unpack
            while true do
                local ready, res, nres = poll()
                if ready then
                    return unpack(res, nres)
                end
                yield(pending)
            end
            ",
    );
    assert(text.subrange(0, 1) =~= "\n"@) by {
        reveal_strlit("\n");
    }
    assert(text.subrange(1, 34) =~= "            poll = get_poll(...)\n"@) by {
        reveal_strlit("            poll = get_poll(...)\n");
    }
    assert(text.subrange(34, 112)
        =~= "            local poll, pending, yield, unpack = poll, pending, yield, unpack\n"@) by {
        reveal_strlit("            local poll, pending, yield, unpack = poll, pending, yield, unpack\n");
    }
    assert(text.subrange(112, 138) =~= "            while true do\n"@) by {
        reveal_strlit("            while true do\n");
    }
    assert(text.subrange(138, 186) =~= "                local ready, res, nres = poll()\n"@) by {
        reveal_strlit("                local ready, res, nres = poll()\n");
    }
    assert(text.subrange(186, 216) =~= "                if ready then\n"@) by {
        reveal_strlit("                if ready then\n");
    }
    assert(text.subrange(216, 261) =~= "                    return unpack(res, nres)\n"@) by {
        reveal_strlit("                    return unpack(res, nres)\n");
    }
    assert(text.subrange(261, 281) =~= "                end\n"@) by {
        reveal_strlit("                end\n");
    }
    assert(text.subrange(281, 312) =~= "                yield(pending)\n"@) by {
        reveal_strlit("                yield(pending)\n");
    }
    assert(text.subrange(312, 328) =~= "            end\n"@) by {
        reveal_strlit("            end\n");
    }
    assert(text.subrange(328, 340) =~= "            "@) by {
        reveal_strlit("            ");
    }
}

/// The program that drives a future.
pub open spec fn driver() -> Program {
    Program {
        once: seq![
            Stat::Assign("poll", Call { function: "get_poll", args: seq![Arg::Rest] }),
            Stat::Keep(seq!["poll", "pending", "yield", "unpack"]),
        ],
        again: seq![
            Stat::Take(seq!["ready", "res", "nres"], Call { function: "poll", args: seq![] }),
            Stat::ReturnIf(
                "ready",
                Call { function: "unpack", args: seq![Arg::Name("res"), Arg::Name("nres")] },
            ),
            Stat::Do(Call { function: "yield", args: seq![Arg::Name("pending")] }),
        ],
    }
}

proof fn lemma_first_line()
    ensures
        driver().once[0].written("            "@) == "            poll = get_poll(...)\n"@,
{
    law_written_calls("get_poll", "", "");
    reveal_strlit("            ");
    reveal_strlit("poll");
    reveal_strlit(" = ");
    reveal_strlit("get_poll");
    reveal_strlit("(...)");
    reveal_strlit("\n");
    reveal_strlit("            poll = get_poll(...)\n");
    assert(driver().once[0].written("            "@) =~= "            poll = get_poll(...)\n"@);
}

proof fn lemma_kept_names()
    ensures
        names_written(seq!["poll", "pending", "yield", "unpack"])
            == "poll, pending, yield, unpack"@,
{
    let names = seq!["poll", "pending", "yield", "unpack"];
    let texts = seq!["poll"@, "pending"@, "yield"@, "unpack"@];
    assert(names.map_values(|name: &'static str| name@) =~= texts);
    assert(texts.drop_last() =~= seq!["poll"@, "pending"@, "yield"@]);
    assert(seq!["poll"@, "pending"@, "yield"@].drop_last() =~= seq!["poll"@, "pending"@]);
    assert(seq!["poll"@, "pending"@].drop_last() =~= seq!["poll"@]);
    reveal_with_fuel(listed, 5);
    reveal_strlit("poll");
    reveal_strlit("pending");
    reveal_strlit("yield");
    reveal_strlit("unpack");
    reveal_strlit(", ");
    reveal_strlit("poll, pending, yield, unpack");
    assert(listed(texts) =~= "poll, pending, yield, unpack"@);
}

proof fn lemma_second_line()
    ensures
        driver().once[1].written("            "@)
            == "            local poll, pending, yield, unpack = poll, pending, yield, unpack\n"@,
{
    lemma_kept_names();
    reveal_strlit("            ");
    reveal_strlit("local ");
    reveal_strlit(" = ");
    reveal_strlit("poll, pending, yield, unpack");
    reveal_strlit("\n");
    reveal_strlit("            local poll, pending, yield, unpack = poll, pending, yield, unpack\n");
    assert(driver().once[1].written("            "@)
        =~= "            local poll, pending, yield, unpack = poll, pending, yield, unpack\n"@);
}

proof fn lemma_polling_line()
    ensures
        driver().again[0].written("                "@)
            == "                local ready, res, nres = poll()\n"@,
{
    let names = seq!["ready", "res", "nres"];
    let texts = seq!["ready"@, "res"@, "nres"@];
    assert(names.map_values(|name: &'static str| name@) =~= texts);
    assert(texts.drop_last() =~= seq!["ready"@, "res"@]);
    assert(seq!["ready"@, "res"@].drop_last() =~= seq!["ready"@]);
    reveal_with_fuel(listed, 4);
    law_written_calls("poll", "", "");
    reveal_strlit("                ");
    reveal_strlit("local ");
    reveal_strlit("ready");
    reveal_strlit("res");
    reveal_strlit("nres");
    reveal_strlit(", ");
    reveal_strlit(" = ");
    reveal_strlit("poll");
    reveal_strlit("()");
    reveal_strlit("\n");
    reveal_strlit("                local ready, res, nres = poll()\n");
    assert(driver().again[0].written("                "@)
        =~= "                local ready, res, nres = poll()\n"@);
}

proof fn lemma_returning_lines()
    ensures
        driver().again[1].written("                "@) == "                if ready then\n"@
            + "                    return unpack(res, nres)\n"@ + "                end\n"@,
{
    let indent = "                "@;
    law_written_calls("unpack", "res", "nres");
    reveal_strlit("                ");
    assert("                if ready then\n"@ =~= indent + "if "@ + "ready"@ + " then\n"@) by {
        reveal_strlit("if ");
        reveal_strlit("ready");
        reveal_strlit(" then\n");
        reveal_strlit("                if ready then\n");
    }
    let call = "unpack"@ + "("@ + "res"@ + ", "@ + "nres"@ + ")"@;
    assert("                    return unpack(res, nres)\n"@ =~= indent + "    return "@ + call
        + "\n"@) by {
        reveal_strlit("    return ");
        reveal_strlit("unpack");
        reveal_strlit("(");
        reveal_strlit("res");
        reveal_strlit(", ");
        reveal_strlit("nres");
        reveal_strlit(")");
        reveal_strlit("\n");
        reveal_strlit("                    return unpack(res, nres)\n");
    }
    assert("                end\n"@ =~= indent + "end\n"@) by {
        reveal_strlit("end\n");
        reveal_strlit("                end\n");
    }
    assert(driver().again[1].written(indent) =~= "                if ready then\n"@
        + "                    return unpack(res, nres)\n"@ + "                end\n"@);
}

proof fn lemma_yielding_line()
    ensures
        driver().again[2].written("                "@) == "                yield(pending)\n"@,
{
    law_written_calls("yield", "pending", "");
    reveal_strlit("                ");
    reveal_strlit("yield");
    reveal_strlit("(");
    reveal_strlit("pending");
    reveal_strlit(")");
    reveal_strlit("\n");
    reveal_strlit("                yield(pending)\n");
    assert(driver().again[2].written("                "@)
        =~= "                yield(pending)\n"@);
}

proof fn lemma_two_stats(stats: Seq<Stat>, indent: Seq<char>)
    requires
        stats.len() == 2,
    ensures
        stats_written(stats, indent) == stats[0].written(indent) + stats[1].written(indent),
{
    reveal_with_fuel(stats_written, 3);
    assert(Seq::<char>::empty() + stats[0].written(indent) =~= stats[0].written(indent));
}

proof fn lemma_three_stats(stats: Seq<Stat>, indent: Seq<char>)
    requires
        stats.len() == 3,
    ensures
        stats_written(stats, indent) == stats[0].written(indent) + stats[1].written(indent)
            + stats[2].written(indent),
{
    lemma_two_stats(stats.drop_last(), indent);
}

impl Program {
    /// Whether a source is the program, as it is written.
    pub open spec fn is_source(self, source: Seq<u8>) -> bool {
        source == encode_utf8(self.written())
    }
}

/// The text of the driver is the program that drives a future, as it is written.
pub proof fn law_driver_text()
    ensures
        driver_text()@ == driver().written(),
        driver().is_source(driver_text().spec_bytes()),
{
    lemma_driver_lines();
    lemma_first_line();
    lemma_second_line();
    lemma_polling_line();
    lemma_returning_lines();
    lemma_yielding_line();
    lemma_two_stats(driver().once, "            "@);
    lemma_three_stats(driver().again, "                "@);
    assert(driver_text()@ =~= driver().written());
}

/// The calls of a program that has polled `n` times in vain and yielded each time.
pub open spec fn waited(begun: Seq<Made>, poll: Val, yielding: Val, pending: Val, n: nat) -> Seq<Made>
    decreases n,
{
    if n == 0 {
        begun
    } else {
        waited(begun, poll, yielding, pending, (n - 1) as nat).push(
            Made { function: poll, args: Seq::empty() },
        ).push(Made { function: yielding, args: seq![pending] })
    }
}

proof fn lemma_names_differ()
    ensures
        "poll"@ != "pending"@,
        "poll"@ != "yield"@,
        "poll"@ != "unpack"@,
        "poll"@ != "ready"@,
        "poll"@ != "res"@,
        "poll"@ != "nres"@,
        "pending"@ != "yield"@,
        "pending"@ != "unpack"@,
        "pending"@ != "ready"@,
        "pending"@ != "res"@,
        "pending"@ != "nres"@,
        "yield"@ != "unpack"@,
        "yield"@ != "ready"@,
        "yield"@ != "res"@,
        "yield"@ != "nres"@,
        "unpack"@ != "ready"@,
        "unpack"@ != "res"@,
        "unpack"@ != "nres"@,
        "ready"@ != "res"@,
        "ready"@ != "nres"@,
        "res"@ != "nres"@,
{
    reveal_strlit("poll");
    reveal_strlit("pending");
    reveal_strlit("yield");
    reveal_strlit("unpack");
    reveal_strlit("ready");
    reveal_strlit("res");
    reveal_strlit("nres");
    assert("poll"@[0] != "nres"@[0]);
    assert("yield"@[0] != "ready"@[0]);
    assert("poll"@.len() == 4 && "nres"@.len() == 4 && "yield"@.len() == 5 && "ready"@.len() == 5);
    assert("pending"@.len() == 7 && "unpack"@.len() == 6 && "res"@.len() == 3);
}

/// The local variables that the driver keeps.
spec fn kept(poll: Val, pending: Val, yielding: Val, unpack: Val) -> Map<Seq<char>, Val> {
    Map::empty().insert("poll"@, poll).insert("pending"@, pending).insert(
        "yield"@,
        yielding,
    ).insert("unpack"@, unpack)
}

proof fn lemma_begun(env: Map<Val, Val>, args: Seq<Val>, answers: Answers)
    ensures
        ({
            let start = Running { env, locals: Map::empty(), rest: args, made: Seq::empty() };
            let begun = seq![
                Made { function: field(env, Val::String("get_poll".spec_bytes())), args },
            ];
            let poll = value_at(answers(begun), 0);
            start.through(driver().once, 0, answers) == (
                Running {
                    env: with_field(env, Val::String("poll".spec_bytes()), poll),
                    locals: kept(
                        poll,
                        field(env, Val::String("pending".spec_bytes())),
                        field(env, Val::String("yield".spec_bytes())),
                        field(env, Val::String("unpack".spec_bytes())),
                    ),
                    rest: args,
                    made: begun,
                },
                None::<Seq<Val>>,
            )
        }),
{
    let start = Running { env, locals: Map::empty(), rest: args, made: Seq::empty() };
    let begun = seq![Made { function: field(env, Val::String("get_poll".spec_bytes())), args }];
    let poll = value_at(answers(begun), 0);
    let call = Call { function: "get_poll", args: seq![Arg::Rest] };
    assert(start.values(call.args) =~= args);
    assert(start.calling(call).made =~= begun);
    let set = Running {
        env: with_field(env, Val::String("poll".spec_bytes()), poll),
        made: begun,
        ..start
    };
    assert(start.after(driver().once[0], answers) == (set, None::<Seq<Val>>));
    lemma_names_differ();
    lemma_bytes_tell_texts_apart("poll", "pending");
    lemma_bytes_tell_texts_apart("poll", "yield");
    lemma_bytes_tell_texts_apart("poll", "unpack");
    let names = seq!["poll", "pending", "yield", "unpack"];
    let values = names.map_values(|name: &'static str| set.get(name));
    let pending = field(env, Val::String("pending".spec_bytes()));
    let yielding = field(env, Val::String("yield".spec_bytes()));
    let unpack = field(env, Val::String("unpack".spec_bytes()));
    assert(values[0] == poll);
    assert(values[1] == pending);
    assert(values[2] == yielding);
    assert(values[3] == unpack);
    assert(names.drop_last() =~= seq!["poll", "pending", "yield"]);
    assert(seq!["poll", "pending", "yield"].drop_last() =~= seq!["poll", "pending"]);
    assert(seq!["poll", "pending"].drop_last() =~= seq!["poll"]);
    reveal_with_fuel(Running::with_locals, 5);
    let end = Running { locals: kept(poll, pending, yielding, unpack), ..set };
    assert(set.with_locals(names, values) =~= end);
    assert(set.after(driver().once[1], answers) == (end, None::<Seq<Val>>));
    reveal_with_fuel(Running::through, 3);
}

proof fn lemma_round(
    r: Running,
    poll: Val,
    pending: Val,
    yielding: Val,
    unpack: Val,
    answers: Answers,
)
    requires
        r.locals == kept(poll, pending, yielding, unpack),
    ensures
        ({
            let polled = r.made.push(Made { function: poll, args: Seq::empty() });
            let answer = answers(polled);
            let (next, returned) = r.through(driver().again, 0, answers);
            if truthy(value_at(answer, 0)) {
                let last = polled.push(
                    Made {
                        function: unpack,
                        args: seq![value_at(answer, 1), value_at(answer, 2)],
                    },
                );
                next.made == last && returned == Some(answers(last))
            } else {
                &&& returned is None
                &&& next.made == polled.push(Made { function: yielding, args: seq![pending] })
                &&& next.env == r.env
                &&& next.rest == r.rest
            }
        }),
{
    lemma_names_differ();
    let again = driver().again;
    let poll_call = Call { function: "poll", args: seq![] };
    let unpack_call = Call { function: "unpack", args: seq![Arg::Name("res"), Arg::Name("nres")] };
    let yield_call = Call { function: "yield", args: seq![Arg::Name("pending")] };
    let polled = r.made.push(Made { function: poll, args: Seq::empty() });
    let answer = answers(polled);
    assert(r.calling(poll_call).made =~= polled);
    let names = seq!["ready", "res", "nres"];
    assert(names.drop_last() =~= seq!["ready", "res"]);
    assert(seq!["ready", "res"].drop_last() =~= seq!["ready"]);
    reveal_with_fuel(Running::with_locals, 4);
    let taken = Running {
        locals: r.locals.insert("ready"@, value_at(answer, 0)).insert(
            "res"@,
            value_at(answer, 1),
        ).insert("nres"@, value_at(answer, 2)),
        made: polled,
        ..r
    };
    assert(r.calling(poll_call).with_locals(names, answer) =~= taken);
    assert(r.after(again[0], answers) == (taken, None::<Seq<Val>>));
    assert(taken.get("ready") == value_at(answer, 0));
    assert(taken.values(unpack_call.args) =~= seq![value_at(answer, 1), value_at(answer, 2)]);
    assert(taken.get("unpack") == unpack);
    assert(taken.get("yield") == yielding);
    assert(taken.values(yield_call.args) =~= seq![pending]);
    reveal_with_fuel(Running::through, 4);
    if !truthy(value_at(answer, 0)) {
        assert(taken.after(again[1], answers) == (taken, None::<Seq<Val>>));
        assert(taken.after(again[2], answers) == (taken.calling(yield_call), None::<Seq<Val>>));
    }
}

proof fn lemma_rounds(
    r: Running,
    begun: Seq<Made>,
    poll: Val,
    pending: Val,
    yielding: Val,
    unpack: Val,
    answers: Answers,
    done: nat,
    n: nat,
)
    requires
        done <= n,
        r.locals == kept(poll, pending, yielding, unpack),
        r.made == waited(begun, poll, yielding, pending, done),
        forall|k: nat|
            done <= k <= n ==> truthy(
                value_at(
                    answers(
                        (#[trigger] waited(begun, poll, yielding, pending, k)).push(
                            Made { function: poll, args: Seq::empty() },
                        ),
                    ),
                    0,
                ),
            ) == (k == n),
    ensures
        ({
            let polled = waited(begun, poll, yielding, pending, n).push(
                Made { function: poll, args: Seq::empty() },
            );
            let answer = answers(polled);
            let last = polled.push(
                Made { function: unpack, args: seq![value_at(answer, 1), value_at(answer, 2)] },
            );
            let (end, returned) = r.repeating(driver().again, (n - done + 1) as nat, answers);
            end.made == last && returned == Some(answers(last))
        }),
    decreases n - done,
{
    lemma_round(r, poll, pending, yielding, unpack, answers);
    assert(waited(begun, poll, yielding, pending, done) == r.made);
    if done < n {
        let (next, returned) = r.through(driver().again, 0, answers);
        let again = Running { locals: r.locals, ..next };
        assert(again.made == waited(begun, poll, yielding, pending, done + 1));
        lemma_rounds(
            again,
            begun,
            poll,
            pending,
            yielding,
            unpack,
            answers,
            done + 1,
            n,
        );
    }
}

/// Called with any arguments, the driver first calls `get_poll` with exactly these arguments. It then
/// calls the function that this gives, without arguments, until the first result is neither nil nor
/// false, and after each time that it is not it calls `yield` with `pending`. At last it calls
/// `unpack` with the second and the third result, and returns what this gives. It makes no other
/// calls. Here `n` is how often the future is polled in vain.
pub proof fn law_driver(env: Map<Val, Val>, args: Seq<Val>, answers: Answers, n: nat)
    requires
        ({
            let begun = seq![
                Made { function: field(env, Val::String("get_poll".spec_bytes())), args },
            ];
            let poll = value_at(answers(begun), 0);
            let yielding = field(env, Val::String("yield".spec_bytes()));
            let pending = field(env, Val::String("pending".spec_bytes()));
            forall|k: nat|
                k <= n ==> truthy(
                    value_at(
                        answers(
                            (#[trigger] waited(begun, poll, yielding, pending, k)).push(
                                Made { function: poll, args: Seq::empty() },
                            ),
                        ),
                        0,
                    ),
                ) == (k == n)
        }),
    ensures
        ({
            let begun = seq![
                Made { function: field(env, Val::String("get_poll".spec_bytes())), args },
            ];
            let poll = value_at(answers(begun), 0);
            let yielding = field(env, Val::String("yield".spec_bytes()));
            let pending = field(env, Val::String("pending".spec_bytes()));
            let polled = waited(begun, poll, yielding, pending, n).push(
                Made { function: poll, args: Seq::empty() },
            );
            let answer = answers(polled);
            let last = polled.push(
                Made {
                    function: field(env, Val::String("unpack".spec_bytes())),
                    args: seq![value_at(answer, 1), value_at(answer, 2)],
                },
            );
            driver().called(env, args, n + 1, answers) == (last, Some(answers(last)))
        }),
{
    let begun = seq![Made { function: field(env, Val::String("get_poll".spec_bytes())), args }];
    let poll = value_at(answers(begun), 0);
    let yielding = field(env, Val::String("yield".spec_bytes()));
    let pending = field(env, Val::String("pending".spec_bytes()));
    let unpack = field(env, Val::String("unpack".spec_bytes()));
    lemma_begun(env, args, answers);
    let start = Running { env, locals: Map::empty(), rest: args, made: Seq::empty() };
    let (ready, returned) = start.through(driver().once, 0, answers);
    lemma_rounds(ready, begun, poll, pending, yielding, unpack, answers, 0, n);
}

/// Before anything else, and whatever it is answered, the driver calls `get_poll` with exactly the
/// arguments that it was called with.
pub proof fn law_driver_start(env: Map<Val, Val>, args: Seq<Val>, answers: Answers)
    ensures
        driver().called(env, args, 0, answers) == (
            seq![Made { function: field(env, Val::String("get_poll".spec_bytes())), args }],
            None::<Seq<Val>>,
        ),
{
    lemma_begun(env, args, answers);
}

} // verus!
