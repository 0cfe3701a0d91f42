use vstd::prelude::*;

use crate::error::{refused, Error, ErrorOf, ErrorView};
use crate::machine::CallKind;
use crate::value::{MultiValue, Value};

verus! {

/// Stages of a call of user code.
#[derive(Clone, Copy, Debug, PartialEq, Eq, Structural)]
pub enum Stage {
    /// Take the first argument, which is to be a userdata.
    Receiver,
    /// Borrow the userdata.
    Borrow,
    /// Borrow the userdata mutably.
    BorrowMut,
    /// Enter the mutable closure.
    Enter,
    /// Convert the arguments.
    Arguments,
    /// Run the user code.
    Call,
    /// Leave the mutable closure.
    Leave,
    /// Convert the results.
    Results,
}

/// What the embedder does next in a call of user code.
#[derive(Clone, Copy, Debug, PartialEq, Eq, Structural)]
pub enum Step {
    /// Convert this value to a userdata.
    Receiver(Value),
    /// Borrow the userdata.
    Borrow,
    /// Borrow the userdata mutably.
    BorrowMut,
    /// Convert the arguments.
    Arguments,
    /// Run the user code.
    Call,
    /// Convert the results.
    Results,
    /// Nothing: the call is over.
    Finished,
}

/// The stages of a call, in order.
pub open spec fn order(kind: CallKind) -> Seq<Stage> {
    match kind {
        CallKind::Function | CallKind::AsyncFunction => seq![
            Stage::Arguments,
            Stage::Call,
            Stage::Results,
        ],
        CallKind::FunctionMut => seq![
            Stage::Enter,
            Stage::Arguments,
            Stage::Call,
            Stage::Results,
        ],
        CallKind::ClosureMut => seq![
            Stage::Arguments,
            Stage::Enter,
            Stage::Call,
            Stage::Leave,
            Stage::Results,
        ],
        CallKind::Method | CallKind::AsyncMethod => seq![
            Stage::Receiver,
            Stage::Borrow,
            Stage::Arguments,
            Stage::Call,
            Stage::Results,
        ],
        CallKind::MethodMut => seq![
            Stage::Receiver,
            Stage::BorrowMut,
            Stage::Enter,
            Stage::Arguments,
            Stage::Call,
            Stage::Results,
        ],
    }
}

/// A call of user code that is under way.
///
/// A mutable closure has a flag that says whether it is running; a call that has entered the closure
/// keeps the flag set until it leaves it or is over, whether it succeeds or fails. A closure that was
/// registered on its own is left before its results are converted, so that the conversion may call
/// it again.
#[derive(Debug)]
pub struct Invocation {
    kind: CallKind,
    next: usize,
    entered: bool,
}

/// What an `Invocation` holds: the kind of the call, the stages that are still to come, and whether
/// the mutable closure has been entered and not been left.
pub struct InvocationView {
    pub kind: CallKind,
    pub rest: Seq<Stage>,
    pub entered: bool,
}

impl View for Invocation {
    type V = InvocationView;

    closed spec fn view(&self) -> InvocationView {
        InvocationView {
            kind: self.kind,
            rest: order(self.kind).skip(self.next as int),
            entered: self.entered,
        }
    }
}

/// What a stage asks of the embedder, if it asks for anything.
pub open spec fn stage_step(stage: Stage, args: Seq<Value>) -> Step {
    match stage {
        Stage::Receiver => Step::Receiver(args[0]),
        Stage::Borrow => Step::Borrow,
        Stage::BorrowMut => Step::BorrowMut,
        Stage::Arguments => Step::Arguments,
        Stage::Call => Step::Call,
        Stage::Results => Step::Results,
        Stage::Enter | Stage::Leave => Step::Finished,
    }
}

/// The error for a method that was called without a receiver.
pub open spec fn missing_receiver() -> ErrorView {
    ErrorOf::FromLuaConversionError {
        from: "missing argument"@,
        to: "userdata"@,
        message: None,
    }
}

impl InvocationView {
    /// Why the call cannot go on.
    pub open spec fn refusal(self, args: Seq<Value>, running: bool) -> Option<ErrorView> {
        if self.rest.len() == 0 {
            None
        } else if self.rest[0] == Stage::Receiver && args.len() == 0 {
            Some(missing_receiver())
        } else if self.rest[0] == Stage::Enter && running {
            Some(ErrorOf::RecursiveMutCallback)
        } else {
            None
        }
    }

    /// Whether the next step enters the mutable closure.
    pub open spec fn enters(self) -> bool {
        self.rest.len() > 0 && self.rest[0] == Stage::Enter
    }

    /// Whether the next step leaves the mutable closure.
    pub open spec fn leaves(self) -> bool {
        self.rest.len() > 0 && self.rest[0] == Stage::Leave
    }

    /// Whether the mutable closure is running after the next step.
    pub open spec fn running_after(self, running: bool) -> bool {
        self.enters() || running && !self.leaves()
    }

    /// The stages that are still to come after the next step.
    pub open spec fn rest_after(self) -> Seq<Stage> {
        if self.rest.len() == 0 {
            self.rest
        } else if self.enters() || self.leaves() {
            self.rest.skip(2)
        } else {
            self.rest.skip(1)
        }
    }

    /// The next step, if the call can go on.
    pub open spec fn step(self, args: Seq<Value>) -> Step {
        if self.rest.len() == 0 {
            Step::Finished
        } else if self.enters() || self.leaves() {
            stage_step(self.rest[1], args)
        } else {
            stage_step(self.rest[0], args)
        }
    }

    /// The call after the next step.
    pub open spec fn after(self) -> InvocationView {
        InvocationView {
            rest: self.rest_after(),
            entered: self.enters() || self.entered && !self.leaves(),
            ..self
        }
    }
}

impl Invocation {
    /// The stages of a call, in order.
    pub fn stages(kind: CallKind) -> (stages: Vec<Stage>)
        ensures
            stages@ == order(kind),
    {
        let mut stages: Vec<Stage> = Vec::new();
        match kind {
            CallKind::Function | CallKind::AsyncFunction => {
                stages.push(Stage::Arguments);
            },
            CallKind::FunctionMut => {
                stages.push(Stage::Enter);
                stages.push(Stage::Arguments);
            },
            CallKind::ClosureMut => {
                stages.push(Stage::Arguments);
                stages.push(Stage::Enter);
                stages.push(Stage::Call);
                stages.push(Stage::Leave);
                stages.push(Stage::Results);
                assert(stages@ =~= order(kind));
                return stages;
            },
            CallKind::Method | CallKind::AsyncMethod => {
                stages.push(Stage::Receiver);
                stages.push(Stage::Borrow);
                stages.push(Stage::Arguments);
            },
            CallKind::MethodMut => {
                stages.push(Stage::Receiver);
                stages.push(Stage::BorrowMut);
                stages.push(Stage::Enter);
                stages.push(Stage::Arguments);
            },
        }
        stages.push(Stage::Call);
        stages.push(Stage::Results);
        assert(stages@ =~= order(kind));
        stages
    }

    /// Starts a call.
    pub fn start(kind: CallKind) -> (call: Invocation)
        ensures
            call@ == (InvocationView { kind, rest: order(kind), entered: false }),
            call.wf(),
    {
        let call = Invocation { kind, next: 0, entered: false };
        assert(order(kind).skip(0) =~= order(kind));
        call
    }

    /// The call has the stages of its kind, from some stage on.
    pub closed spec fn wf(&self) -> bool {
        self.next <= order(self.kind).len()
    }

    /// Goes on with a call whose last step succeeded, given the arguments that are left and whether
    /// its mutable closure is running.
    pub fn proceed(&mut self, args: &mut MultiValue, running: &mut bool) -> (r: Result<Step, Error>)
        requires
            old(self).wf(),
            old(self)@.entered ==> *old(running),
        ensures
            final(self).wf(),
            final(self)@.entered ==> *final(running),
            match old(self)@.refusal(old(args)@, *old(running)) {
                Some(e) => {
                    &&& refused(r, e)
                    &&& final(self)@ == old(self)@
                    &&& final(args)@ == old(args)@
                    &&& *final(running) == *old(running)
                },
                None => {
                    &&& r == Ok::<Step, Error>(old(self)@.step(old(args)@))
                    &&& final(self)@ == old(self)@.after()
                    &&& final(args)@ == (if r->Ok_0 is Receiver {
                        old(args)@.skip(1)
                    } else {
                        old(args)@
                    })
                    &&& *final(running) == old(self)@.running_after(*old(running))
                },
            },
            old(self)@.rest.len() == 0 ==> r == Ok::<Step, Error>(Step::Finished),
            old(self)@.rest.len() > 0 ==> match old(self)@.rest[0] {
                Stage::Receiver => {
                    &&& r is Err <==> old(args)@.len() == 0
                    &&& old(args)@.len() > 0 ==> r == Ok::<Step, Error>(
                        Step::Receiver(old(args)@[0]),
                    ) && final(args)@ == old(args)@.skip(1)
                },
                Stage::Enter => r is Err <==> *old(running),
                _ => r is Ok && final(args)@ == old(args)@,
            },
    {
        let stages = Invocation::stages(self.kind);
        let ghost before = self@;
        if self.next >= stages.len() {
            assert(self@.after().rest =~= self@.rest);
            return Ok(Step::Finished);
        }
        let mut stage = stages[self.next];
        assert(before.rest[0] == stage);
        if let Stage::Enter = stage {
            if *running {
                return Err(ErrorOf::RecursiveMutCallback);
            }
            *running = true;
            self.entered = true;
            self.next = self.next + 1;
            stage = stages[self.next];
            assert(before.rest[1] == stage);
        } else if let Stage::Leave = stage {
            *running = false;
            self.entered = false;
            self.next = self.next + 1;
            stage = stages[self.next];
            assert(before.rest[1] == stage);
        }
        if let Stage::Receiver = stage {
            match args.pop_front() {
                Some(front) => {
                    self.next = self.next + 1;
                    assert(self@.rest =~= before.rest_after());
                    return Ok(Step::Receiver(front));
                },
                None => {
                    return Err(
                        ErrorOf::FromLuaConversionError {
                            from: "missing argument".to_owned(),
                            to: "userdata".to_owned(),
                            message: None,
                        },
                    );
                },
            }
        }
        self.next = self.next + 1;
        assert(self@.rest =~= before.rest_after());
        match stage {
            Stage::Borrow => Ok(Step::Borrow),
            Stage::BorrowMut => Ok(Step::BorrowMut),
            Stage::Arguments => Ok(Step::Arguments),
            Stage::Call => Ok(Step::Call),
            Stage::Results | Stage::Enter | Stage::Leave | Stage::Receiver => Ok(Step::Results),
        }
    }

    /// Ends a call, whether it succeeded or failed: a mutable closure that it entered and has not left
    /// is no longer running.
    pub fn finish(self, running: &mut bool)
        ensures
            *final(running) == (*old(running) && !self@.entered),
    {
        if self.entered {
            *running = false;
        }
    }
}

/// In every call the arguments are converted before the user code runs and the results after it, a
/// method borrows its userdata before that, and a mutable closure is entered before it runs. One that
/// was registered on its own is left as soon as it has run.
pub proof fn law_stage_order(kind: CallKind)
    ensures
        ({
            let stages = order(kind);
            let n = stages.len() as int;
            &&& stages[n - 1] == Stage::Results
            &&& if kind == CallKind::ClosureMut {
                stages[n - 3] == Stage::Call && stages[n - 2] == Stage::Leave
            } else {
                stages[n - 2] == Stage::Call && !stages.contains(Stage::Leave)
            }
            &&& stages.contains(Stage::Arguments)
            &&& stages.contains(Stage::Enter) <==> kind == CallKind::FunctionMut || kind
                == CallKind::ClosureMut || kind == CallKind::MethodMut
            &&& stages.contains(Stage::Receiver) <==> kind == CallKind::Method || kind
                == CallKind::MethodMut || kind == CallKind::AsyncMethod
            &&& stages.contains(Stage::Receiver) ==> stages[0] == Stage::Receiver && stages[1] == (
            if kind == CallKind::MethodMut {
                Stage::BorrowMut
            } else {
                Stage::Borrow
            })
            &&& stages.no_duplicates()
        }),
{
    let stages = order(kind);
    match kind {
        CallKind::Function | CallKind::AsyncFunction => {
            assert(stages[0] == Stage::Arguments);
        },
        CallKind::FunctionMut => {
            assert(stages[0] == Stage::Enter && stages[1] == Stage::Arguments);
        },
        CallKind::ClosureMut => {
            assert(stages[0] == Stage::Arguments && stages[1] == Stage::Enter);
            assert(stages[3] == Stage::Leave);
        },
        CallKind::Method | CallKind::AsyncMethod => {
            assert(stages[0] == Stage::Receiver && stages[2] == Stage::Arguments);
        },
        CallKind::MethodMut => {
            assert(stages[0] == Stage::Receiver && stages[2] == Stage::Enter && stages[3]
                == Stage::Arguments);
        },
    }
}

/// A mutable closure is never entered while it is running: a call that would enter it then is
/// refused, whatever its arguments are, and a call that enters it finds it not running.
pub proof fn law_no_recursive_entry(call: InvocationView, args: Seq<Value>, running: bool)
    requires
        call.rest.len() > 0,
        call.rest[0] == Stage::Enter,
    ensures
        call.refusal(args, running) == (if running {
            Some(ErrorView::RecursiveMutCallback)
        } else {
            None
        }),
        !running ==> call.running_after(running) && call.after().entered,
{
}

/// While the results of a mutable closure that was registered on its own are converted, the closure
/// can be called again: it is no longer running, and another call of it is not refused.
pub proof fn law_closure_is_free_for_its_results(
    call: InvocationView,
    other: InvocationView,
    args: Seq<Value>,
    running: bool,
)
    requires
        call.kind == CallKind::ClosureMut,
        call.rest == order(call.kind).skip(3),
        other.enters(),
    ensures
        call.step(args) == Step::Results,
        !call.running_after(running),
        !call.after().entered,
        other.refusal(args, call.running_after(running)) is None,
{
}

/// A call stops at the stage that takes the receiver exactly if there are no arguments, with the error
/// for a missing argument, and where a mutable closure is to be entered exactly if it is running. At
/// no other stage does it stop, and neither does a call that is over.
pub proof fn law_refusals(call: InvocationView, args: Seq<Value>, running: bool)
    ensures
        call.rest.len() > 0 && call.rest[0] == Stage::Receiver ==> call.refusal(args, running) == (
        if args.len() == 0 {
            Some(
                ErrorView::FromLuaConversionError {
                    from: "missing argument"@,
                    to: "userdata"@,
                    message: None,
                },
            )
        } else {
            None
        }),
        call.rest.len() > 0 && call.rest[0] == Stage::Enter ==> call.refusal(args, running) == (
        if running {
            Some(ErrorView::RecursiveMutCallback)
        } else {
            None
        }),
        call.rest.len() > 0 && call.rest[0] != Stage::Receiver && call.rest[0] != Stage::Enter
            ==> call.refusal(args, running) is None,
        call.rest.len() == 0 ==> call.refusal(args, running) is None,
{
}

/// A mutable closure is running from the step that enters it until the one that leaves it, and a call
/// that has entered it keeps that in mind for as long. No other step changes either, and each step
/// takes one stage, or two where the closure is entered or left before it.
pub proof fn law_running(call: InvocationView, running: bool)
    requires
        call.rest.len() > 0,
    ensures
        call.running_after(running) == (call.rest[0] == Stage::Enter || running && call.rest[0]
            != Stage::Leave),
        call.after().entered == (call.rest[0] == Stage::Enter || call.entered && call.rest[0]
            != Stage::Leave),
        call.after().kind == call.kind,
        call.after().rest == (if call.rest[0] == Stage::Enter || call.rest[0] == Stage::Leave {
            call.rest.skip(2)
        } else {
            call.rest.skip(1)
        }),
{
}

/// The steps of a call that is never refused and whose steps all succeed, with whether its closure is
/// running while each of them is done. The first argument goes with the step that takes it as the
/// receiver.
pub open spec fn steps_of(call: InvocationView, args: Seq<Value>, running: bool) -> Seq<
    (Step, bool),
>
    decreases call.rest.len(),
{
    if call.after().rest.len() >= call.rest.len() {
        Seq::empty()
    } else {
        let step = call.step(args);
        let rest = if step is Receiver {
            args.skip(1)
        } else {
            args
        };
        let running = call.running_after(running);
        seq![(step, running)] + steps_of(call.after(), rest, running)
    }
}

/// A function is called by converting its arguments, running it and converting its results. It is not
/// refused, and no closure is entered.
pub proof fn law_function_call(kind: CallKind, args: Seq<Value>, running: bool)
    requires
        kind == CallKind::Function || kind == CallKind::AsyncFunction,
    ensures
        steps_of(InvocationView { kind, rest: order(kind), entered: false }, args, running)
            == seq![(Step::Arguments, running), (Step::Call, running), (Step::Results, running)],
{
    let call = InvocationView { kind, rest: order(kind), entered: false };
    reveal_with_fuel(steps_of, 4);
    assert(steps_of(call, args, running).len() == 3);
}

/// A mutable function is entered before its arguments are converted, and is running until the call is
/// over.
pub proof fn law_mutable_function_call(args: Seq<Value>)
    ensures
        steps_of(
            InvocationView {
                kind: CallKind::FunctionMut,
                rest: order(CallKind::FunctionMut),
                entered: false,
            },
            args,
            false,
        ) == seq![(Step::Arguments, true), (Step::Call, true), (Step::Results, true)],
{
    let kind = CallKind::FunctionMut;
    let call = InvocationView { kind, rest: order(kind), entered: false };
    reveal_with_fuel(steps_of, 4);
    assert(steps_of(call, args, false).len() == 3);
}

/// A mutable closure that was registered on its own is running while it is called, but neither while
/// its arguments are converted nor while its results are.
pub proof fn law_mutable_closure_call(args: Seq<Value>)
    ensures
        steps_of(
            InvocationView {
                kind: CallKind::ClosureMut,
                rest: order(CallKind::ClosureMut),
                entered: false,
            },
            args,
            false,
        ) == seq![(Step::Arguments, false), (Step::Call, true), (Step::Results, false)],
{
    let kind = CallKind::ClosureMut;
    let call = InvocationView { kind, rest: order(kind), entered: false };
    reveal_with_fuel(steps_of, 4);
    assert(steps_of(call, args, false).len() == 3);
}

/// A method takes the first of its arguments as the receiver, however many there are, borrows it, and
/// then goes on with the others as a function does.
pub proof fn law_method_call(kind: CallKind, args: Seq<Value>, running: bool)
    requires
        kind == CallKind::Method || kind == CallKind::AsyncMethod,
        args.len() > 0,
    ensures
        ({
            let call = InvocationView { kind, rest: order(kind), entered: false };
            &&& call.refusal(args, running) is None
            &&& steps_of(call, args, running) == seq![
                (Step::Receiver(args[0]), running),
                (Step::Borrow, running),
                (Step::Arguments, running),
                (Step::Call, running),
                (Step::Results, running),
            ]
        }),
{
    let call = InvocationView { kind, rest: order(kind), entered: false };
    reveal_with_fuel(steps_of, 6);
    assert(steps_of(call, args, running).len() == 5);
}

/// A mutable method takes the first of its arguments as the receiver, however many there are, and
/// borrows it mutably before the closure is entered, which is running until the call is over.
pub proof fn law_mutable_method_call(args: Seq<Value>)
    requires
        args.len() > 0,
    ensures
        ({
            let kind = CallKind::MethodMut;
            let call = InvocationView { kind, rest: order(kind), entered: false };
            &&& call.refusal(args, false) is None
            &&& steps_of(call, args, false) == seq![
                (Step::Receiver(args[0]), false),
                (Step::BorrowMut, false),
                (Step::Arguments, true),
                (Step::Call, true),
                (Step::Results, true),
            ]
        }),
{
    let kind = CallKind::MethodMut;
    let call = InvocationView { kind, rest: order(kind), entered: false };
    reveal_with_fuel(steps_of, 6);
    assert(steps_of(call, args, false).len() == 5);
}

} // verus!
