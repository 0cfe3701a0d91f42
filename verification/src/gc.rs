use vstd::prelude::*;

use crate::lua::Lua;
use crate::options::GCMode;
use crate::version::Version;

verus! {

pub const LUA_GCSTOP: i32 = 0;

pub const LUA_GCRESTART: i32 = 1;

pub const LUA_GCCOLLECT: i32 = 2;

pub const LUA_GCCOUNT: i32 = 3;

pub const LUA_GCCOUNTB: i32 = 4;

pub const LUA_GCSTEP: i32 = 5;

pub const LUA_GCSETPAUSE: i32 = 6;

pub const LUA_GCSETSTEPMUL: i32 = 7;

pub const LUA_GCISRUNNING: i32 = 9;

pub const LUA_GCGEN: i32 = 10;

pub const LUA_GCINC: i32 = 11;

/// A command to the collector of a state: its number and its arguments.
#[derive(Debug, PartialEq, Eq)]
pub struct GcCall {
    pub state: u64,
    pub what: i32,
    pub args: Vec<i32>,
}

/// Commands that change the mode of the collector.
#[derive(Debug, PartialEq, Eq)]
pub struct GcModeChange {
    /// To be given in order.
    pub calls: Vec<GcCall>,
    /// The mode before, if it is known without asking; else the last command answers it.
    pub previous: Option<GCMode>,
}

impl GcCall {
    /// The command `what` with arguments, to a state.
    pub open spec fn commands(self, state: u64, what: i32, args: Seq<i32>) -> bool {
        self.state == state && self.what == what && self.args@ == args
    }
}

impl Lua {
    fn gc_call(&self, what: i32, arg: i32) -> (call: GcCall)
        ensures
            call.commands(self.home(), what, seq![arg]),
            call.state == self.home() && call.what == what && call.args@ == seq![arg],
    {
        let mut args: Vec<i32> = Vec::new();
        args.push(arg);
        assert(args@ =~= seq![arg]);
        GcCall { state: self.main_or_current(), what, args }
    }

    /// Asks whether the collector runs on its own; see `gc_answer`.
    pub fn gc_is_running(&self) -> (call: GcCall)
        requires
            self.version.modern(),
        ensures
            call.commands(self.home(), LUA_GCISRUNNING, seq![0]),
            call.state == self.home() && call.what == 9 && call.args@ == seq![0i32],
    {
        self.gc_call(LUA_GCISRUNNING, 0)
    }

    /// The answer yes or no of the collector to `gc_is_running`, `gc_step` and `gc_step_kbytes`.
    pub fn gc_answer(answer: i32) -> (b: bool)
        ensures
            b == (answer != 0),
    {
        answer != 0
    }

    /// Stops the collector.
    pub fn gc_stop(&self) -> (call: GcCall)
        ensures
            call.commands(self.home(), LUA_GCSTOP, seq![0]),
            call.state == self.home() && call.what == 0 && call.args@ == seq![0i32],
    {
        self.gc_call(LUA_GCSTOP, 0)
    }

    /// Restarts the collector if it is not running.
    pub fn gc_restart(&self) -> (call: GcCall)
        ensures
            call.commands(self.home(), LUA_GCRESTART, seq![0]),
            call.state == self.home() && call.what == 1 && call.args@ == seq![0i32],
    {
        self.gc_call(LUA_GCRESTART, 0)
    }

    /// Performs a full collection cycle.
    pub fn gc_collect(&self) -> (call: GcCall)
        ensures
            call.commands(self.home(), LUA_GCCOLLECT, seq![0]),
            call.state == self.home() && call.what == 2 && call.args@ == seq![0i32],
    {
        self.gc_call(LUA_GCCOLLECT, 0)
    }

    /// Steps the collector one indivisible step; the answer says whether a cycle was finished.
    pub fn gc_step(&self) -> (call: GcCall)
        ensures
            call.commands(self.home(), LUA_GCSTEP, seq![0]),
            call.state == self.home() && call.what == 5 && call.args@ == seq![0i32],
    {
        self.gc_step_kbytes(0)
    }

    /// Steps the collector as though memory had been allocated; the answer says whether a cycle
    /// was finished.
    pub fn gc_step_kbytes(&self, kbytes: i32) -> (call: GcCall)
        ensures
            call.commands(self.home(), LUA_GCSTEP, seq![kbytes]),
            call.state == self.home() && call.what == 5 && call.args@ == seq![kbytes],
    {
        self.gc_call(LUA_GCSTEP, kbytes)
    }

    /// Sets the pause of the collector; the answer is the pause before.
    pub fn gc_set_pause(&self, pause: i32) -> (call: GcCall)
        ensures
            call.commands(self.home(), LUA_GCSETPAUSE, seq![pause]),
            call.state == self.home() && call.what == 6 && call.args@ == seq![pause],
    {
        self.gc_call(LUA_GCSETPAUSE, pause)
    }

    /// Sets the step multiplier of the collector; the answer is the step multiplier before.
    pub fn gc_set_step_multiplier(&self, step_multiplier: i32) -> (call: GcCall)
        ensures
            call.commands(self.home(), LUA_GCSETSTEPMUL, seq![step_multiplier]),
            call.state == self.home() && call.what == 7 && call.args@ == seq![step_multiplier],
    {
        self.gc_call(LUA_GCSETSTEPMUL, step_multiplier)
    }

    /// Changes the collector to incremental mode. Before Lua 5.4 that is the only mode: the
    /// parameters that are positive are set, and the step size is ignored.
    pub fn gc_inc(&self, pause: i32, step_multiplier: i32, step_size: i32) -> (change: GcModeChange)
        ensures
            self.version == Version::Lua54 ==> {
                &&& change.previous is None
                &&& change.calls@.len() == 1
                &&& change.calls@[0].commands(
                    self.home(),
                    LUA_GCINC,
                    seq![pause, step_multiplier, step_size],
                )
                &&& change.calls@[0].state == self.home()
                &&& change.calls@[0].what == 11
                &&& change.calls@[0].args@ == seq![pause, step_multiplier, step_size]
            },
            self.version != Version::Lua54 ==> {
                &&& change.previous == Some(GCMode::Incremental)
                &&& change.calls@.len() == (if pause > 0 { 1int } else { 0 }) + (if step_multiplier
                    > 0 { 1int } else { 0 })
                &&& pause > 0 ==> change.calls@[0].commands(self.home(), LUA_GCSETPAUSE, seq![pause])
                &&& step_multiplier > 0 ==> change.calls@.last().commands(
                    self.home(),
                    LUA_GCSETSTEPMUL,
                    seq![step_multiplier],
                )
                &&& pause > 0 ==> change.calls@[0].state == self.home() && change.calls@[0].what
                    == 6 && change.calls@[0].args@ == seq![pause]
                &&& step_multiplier > 0 ==> change.calls@.last().state == self.home()
                    && change.calls@.last().what == 7 && change.calls@.last().args@ == seq![
                    step_multiplier,
                ]
            },
    {
        let mut calls: Vec<GcCall> = Vec::new();
        match self.version {
            Version::Lua54 => {
                let mut args: Vec<i32> = Vec::new();
                args.push(pause);
                args.push(step_multiplier);
                args.push(step_size);
                assert(args@ =~= seq![pause, step_multiplier, step_size]);
                calls.push(GcCall { state: self.main_or_current(), what: LUA_GCINC, args });
                GcModeChange { calls, previous: None }
            },
            _ => {
                if pause > 0 {
                    calls.push(self.gc_set_pause(pause));
                }
                if step_multiplier > 0 {
                    calls.push(self.gc_set_step_multiplier(step_multiplier));
                }
                GcModeChange { calls, previous: Some(GCMode::Incremental) }
            },
        }
    }

    /// Changes the collector to generational mode.
    pub fn gc_gen(&self, minor_multiplier: i32, major_multiplier: i32) -> (change: GcModeChange)
        requires
            self.version == Version::Lua54,
        ensures
            change.previous is None,
            change.calls@.len() == 1,
            change.calls@[0].commands(
                self.home(),
                LUA_GCGEN,
                seq![minor_multiplier, major_multiplier],
            ),
            change.calls@[0].state == self.home(),
            change.calls@[0].what == 10,
            change.calls@[0].args@ == seq![minor_multiplier, major_multiplier],
    {
        let mut args: Vec<i32> = Vec::new();
        args.push(minor_multiplier);
        args.push(major_multiplier);
        assert(args@ =~= seq![minor_multiplier, major_multiplier]);
        let mut calls: Vec<GcCall> = Vec::new();
        calls.push(GcCall { state: self.main_or_current(), what: LUA_GCGEN, args });
        GcModeChange { calls, previous: None }
    }

    /// The mode that the collector answers to a change of its mode.
    pub fn gc_previous_mode(answer: i32) -> (mode: GCMode)
        requires
            answer == LUA_GCINC || answer == LUA_GCGEN,
        ensures
            mode == (if answer == LUA_GCINC {
                GCMode::Incremental
            } else {
                GCMode::Generational
            }),
            answer == 11 ==> mode == GCMode::Incremental,
            answer == 10 ==> mode == GCMode::Generational,
    {
        if answer == LUA_GCINC {
            GCMode::Incremental
        } else {
            GCMode::Generational
        }
    }
}

} // verus!
