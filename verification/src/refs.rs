use vstd::arithmetic::div_mod::{lemma_basic_div, lemma_div_denominator};
use vstd::arithmetic::power2::{lemma2_to64, lemma_pow2_pos, lemma_pow2_unfold, pow2};
use vstd::prelude::*;
use vstd::set_lib::*;

use crate::value::LuaRef;

verus! {

/// Number of free stack slots that Lua guarantees to a function it calls.
pub const LUA_MINSTACK: i32 = 20;

/// Slots of the reference thread, the stack of an auxiliary Lua thread that pins values.
///
/// Slots are numbered from one. Slots up to the top are in use, or were in use and are free again.
#[derive(Debug)]
pub struct RefStack {
    ref_stack_size: i32,
    ref_stack_top: i32,
    ref_free: Vec<i32>,
}

/// What a `RefStack` records: the slots that the thread has room for, the topmost slot that was
/// ever used, and the freed slots, the latest last.
#[verifier::ext_equal]
pub struct RefSlots {
    pub size: int,
    pub top: int,
    pub free: Seq<i32>,
}

/// Next step on the way to a slot for the value on top of the reference thread.
#[derive(Clone, Copy, Debug, PartialEq, Eq, Structural)]
pub enum PopStep {
    /// Move the value down into the freed slot `index`; the slot is the answer.
    Replace { index: i32 },
    /// Ask Lua for room for `inc` more values and report the answer.
    Grow { inc: i32 },
    /// The value lies in slot `index`; the slot is the answer.
    Fresh { index: i32 },
    /// There is no room: the value is taken off the thread and no slot is given. `used` slots are
    /// taken.
    Exhausted { used: i32 },
}

/// The largest of `inc`, half of it, a quarter of it and so on that Lua has room for.
pub open spec fn largest_growth(inc: int, has_room: spec_fn(int) -> bool) -> Option<int>
    decreases inc,
{
    if inc <= 0 {
        None
    } else if has_room(inc) {
        Some(inc)
    } else {
        largest_growth(inc / 2, has_room)
    }
}

impl RefSlots {
    /// The recorded slots fit together.
    pub open spec fn wf(self) -> bool {
        &&& 0 <= self.top <= self.size <= i32::MAX
        &&& 0 < self.size
        &&& self.free.no_duplicates()
        &&& forall|k: int|
            0 <= k < self.free.len() ==> 1 <= #[trigger] self.free[k] <= self.top
    }

    /// Whether slot `index` holds a value that is referred to.
    pub open spec fn live(self, index: i32) -> bool {
        1 <= index <= self.top && !self.free.contains(index)
    }

    /// The slots after a slot was asked for.
    pub open spec fn asked(self) -> RefSlots {
        if self.free.len() > 0 {
            RefSlots { free: self.free.drop_last(), ..self }
        } else if self.top >= self.size {
            self
        } else {
            RefSlots { top: self.top + 1, ..self }
        }
    }

    /// The step after a slot was asked for.
    pub open spec fn asked_step(self) -> PopStep {
        if self.free.len() > 0 {
            PopStep::Replace { index: self.free.last() }
        } else if self.top >= self.size {
            PopStep::Grow { inc: self.size as i32 }
        } else {
            PopStep::Fresh { index: (self.top + 1) as i32 }
        }
    }

    /// The slots after Lua has answered whether it has room for `inc` more.
    pub open spec fn answered(self, inc: int, room: bool) -> RefSlots {
        if room {
            RefSlots { size: self.size + inc, top: self.top + 1, ..self }
        } else {
            self
        }
    }

    /// The step after Lua has answered whether it has room for `inc` more.
    pub open spec fn answered_step(self, inc: int, room: bool) -> PopStep {
        if room {
            PopStep::Fresh { index: (self.top + 1) as i32 }
        } else if inc / 2 == 0 {
            PopStep::Exhausted { used: self.top as i32 }
        } else {
            PopStep::Grow { inc: (inc / 2) as i32 }
        }
    }

    /// The slots after `index` was freed.
    pub open spec fn dropped(self, index: i32) -> RefSlots {
        RefSlots { free: self.free.push(index), ..self }
    }

    /// Slots and step at which the questions to Lua end that begin with `step`, if Lua answers
    /// them by `has_room`.
    pub open spec fn settled(self, step: PopStep, has_room: spec_fn(int) -> bool) -> (
        RefSlots,
        PopStep,
    )
        decreases
            (match step {
                PopStep::Grow { inc } => inc as int,
                _ => 0,
            }),
    {
        match step {
            PopStep::Grow { inc } => {
                if inc <= 0 {
                    (self, step)
                } else {
                    let room = has_room(inc as int);
                    let next = self.answered_step(inc as int, room);
                    self.answered(inc as int, room).settled(next, has_room)
                }
            },
            _ => (self, step),
        }
    }
}

impl View for RefStack {
    type V = RefSlots;

    closed spec fn view(&self) -> RefSlots {
        RefSlots {
            size: self.ref_stack_size as int,
            top: self.ref_stack_top as int,
            free: self.ref_free@,
        }
    }
}

impl RefStack {
    /// No slots in use, and room for what Lua guarantees but for the one slot that values pass
    /// through on their way in and out.
    pub fn new() -> (refs: RefStack)
        ensures
            refs@ == (RefSlots { size: LUA_MINSTACK - 1, top: 0, free: Seq::empty() }),
            refs@ == (RefSlots { size: 19, top: 0, free: Seq::empty() }),
            refs@.wf(),
    {
        RefStack { ref_stack_size: LUA_MINSTACK - 1, ref_stack_top: 0, ref_free: Vec::new() }
    }

    /// Asks for a slot for the value on top of the reference thread: a freed one if there is one,
    /// else the next one, for which Lua may first have to be asked for room.
    pub fn ref_stack_pop(&mut self) -> (step: PopStep)
        requires
            old(self)@.wf(),
        ensures
            step == old(self)@.asked_step(),
            final(self)@ == old(self)@.asked(),
            final(self)@.wf(),
            old(self)@.free.len() > 0 ==> step == (PopStep::Replace {
                index: old(self)@.free.last(),
            }) && final(self)@ == (RefSlots { free: old(self)@.free.drop_last(), ..old(self)@ }),
            old(self)@.free.len() == 0 && old(self)@.top < old(self)@.size ==> step
                == (PopStep::Fresh { index: (old(self)@.top + 1) as i32 }) && final(self)@
                == (RefSlots { top: old(self)@.top + 1, ..old(self)@ }),
            old(self)@.free.len() == 0 && old(self)@.top >= old(self)@.size ==> step
                == (PopStep::Grow { inc: old(self)@.size as i32 }) && final(self)@ == old(self)@,
            step matches PopStep::Replace { index } ==> {
                &&& !old(self)@.live(index)
                &&& final(self)@.live(index)
            },
            step matches PopStep::Fresh { index } ==> {
                &&& !old(self)@.live(index)
                &&& final(self)@.live(index)
            },
            !(step is Grow) ==> forall|i: i32| #[trigger]
                old(self)@.live(i) ==> final(self)@.live(i),
    {
        let ghost before = self@;
        if let Some(free) = self.ref_free.pop() {
            proof {
                let after = before.free.drop_last();
                assert(self@.free == after);
                assert(before.free.last() == before.free[before.free.len() - 1]);
                assert forall|k: int| 0 <= k < after.len() implies 1 <= #[trigger] after[k]
                    <= before.top by {
                    assert(after[k] == before.free[k]);
                }
                assert(!after.contains(free)) by {
                    if after.contains(free) {
                        let k = after.index_of(free);
                        assert(before.free[k] == before.free[before.free.len() - 1]);
                    }
                }
                assert forall|i: i32| #[trigger] before.live(i) implies self@.live(i) by {
                    if after.contains(i) {
                        let k = after.index_of(i);
                        assert(before.free[k] == i);
                    }
                }
                assert(before.free.contains(free)) by {
                    assert(before.free[before.free.len() - 1] == free);
                }
            }
            return PopStep::Replace { index: free };
        }
        if self.ref_stack_top >= self.ref_stack_size {
            // Try to double stack size
            return PopStep::Grow { inc: self.ref_stack_size };
        }
        self.ref_stack_top = self.ref_stack_top + 1;
        PopStep::Fresh { index: self.ref_stack_top }
    }

    /// Takes Lua's answer to the question for room for `inc` more values.
    pub fn ref_stack_grow(&mut self, inc: i32, room: bool) -> (step: PopStep)
        requires
            old(self)@.wf(),
            old(self)@.free.len() == 0,
            old(self)@.top >= old(self)@.size,
            0 < inc,
            room ==> old(self)@.size + inc <= i32::MAX,
        ensures
            step == old(self)@.answered_step(inc as int, room),
            final(self)@ == old(self)@.answered(inc as int, room),
            room ==> step == (PopStep::Fresh { index: (old(self)@.top + 1) as i32 })
                && final(self)@ == (RefSlots {
                size: old(self)@.size + inc,
                top: old(self)@.top + 1,
                ..old(self)@
            }),
            !room ==> final(self)@ == old(self)@ && step == (if inc < 2 {
                PopStep::Exhausted { used: old(self)@.top as i32 }
            } else {
                PopStep::Grow { inc: (inc / 2) as i32 }
            }),
            final(self)@.wf(),
            step matches PopStep::Fresh { index } ==> {
                &&& !old(self)@.live(index)
                &&& final(self)@.live(index)
            },
            step matches PopStep::Grow { inc: next } ==> 0 < next < inc,
            forall|i: i32| #[trigger] old(self)@.live(i) ==> final(self)@.live(i),
    {
        if room {
            self.ref_stack_size = self.ref_stack_size + inc;
            self.ref_stack_top = self.ref_stack_top + 1;
            PopStep::Fresh { index: self.ref_stack_top }
        } else {
            let half: i32 = inc / 2;
            if half == 0 {
                PopStep::Exhausted { used: self.ref_stack_top }
            } else {
                PopStep::Grow { inc: half }
            }
        }
    }

    /// Frees the slot of a reference, which is to be overwritten with nil.
    pub fn drop_ref(&mut self, lref: LuaRef)
        requires
            old(self)@.wf(),
            old(self)@.live(lref.index),
        ensures
            final(self)@ == old(self)@.dropped(lref.index),
            final(self)@ == (RefSlots { free: old(self)@.free.push(lref.index), ..old(self)@ }),
            final(self)@.wf(),
            !final(self)@.live(lref.index),
            forall|i: i32|
                i != lref.index ==> #[trigger] final(self)@.live(i) == old(self)@.live(i),
    {
        let ghost before = self@;
        self.ref_free.push(lref.index);
        proof {
            let after = before.free.push(lref.index);
            assert(self@.free == after);
            assert(after[after.len() - 1] == lref.index);
            assert forall|i: i32| i != lref.index implies #[trigger] self@.live(i) == before.live(
                i,
            ) by {
                if before.free.contains(i) {
                    let k = before.free.index_of(i);
                    assert(after[k] == i);
                }
                if after.contains(i) {
                    let k = after.index_of(i);
                    assert(before.free[k] == i);
                }
            }
            assert(after.no_duplicates()) by {
                assert forall|i: int, j: int|
                    0 <= i < after.len() && 0 <= j < after.len() && i != j implies after[i]
                    != after[j] by {
                    if i == after.len() - 1 {
                        assert(before.free.contains(after[j]));
                    } else if j == after.len() - 1 {
                        assert(before.free.contains(after[i]));
                    }
                }
            }
        }
    }

    /// Whether no slot is in use, given the height of the reference thread.
    pub fn no_leak(&self, thread_top: i32) -> (b: bool)
        requires
            self@.wf(),
        ensures
            b == (thread_top == self@.top && forall|i: i32| !#[trigger] self@.live(i)),
    {
        proof {
            lemma_free_bound(self@);
            lemma_all_free(self@);
        }
        thread_top == self.ref_stack_top && self.ref_stack_top as usize == self.ref_free.len()
    }
}

proof fn lemma_free_bound(slots: RefSlots)
    requires
        slots.wf(),
    ensures
        slots.free.len() <= slots.top,
{
    let ints = slots.free.map_values(|i: i32| i as int);
    assert(ints.no_duplicates());
    ints.unique_seq_to_set();
    lemma_int_range(1, slots.top + 1);
    assert(ints.to_set().subset_of(set_int_range(1, slots.top + 1)));
    lemma_len_subset(ints.to_set(), set_int_range(1, slots.top + 1));
}

proof fn lemma_all_free(slots: RefSlots)
    requires
        slots.wf(),
    ensures
        slots.free.len() == slots.top <==> forall|i: i32| !#[trigger] slots.live(i),
{
    let ints = slots.free.map_values(|i: i32| i as int);
    assert(ints.no_duplicates());
    ints.unique_seq_to_set();
    let all = set_int_range(1, slots.top + 1);
    lemma_int_range(1, slots.top + 1);
    assert(ints.to_set().subset_of(all));
    if slots.free.len() == slots.top {
        lemma_subset_equality(ints.to_set(), all);
        assert forall|i: i32| !#[trigger] slots.live(i) by {
            if 1 <= i <= slots.top {
                assert(all.contains(i as int));
                assert(ints.contains(i as int));
                let k = ints.index_of(i as int);
                assert(slots.free[k] == i);
            }
        }
    }
    if forall|i: i32| !#[trigger] slots.live(i) {
        assert(ints.to_set() =~= all) by {
            assert forall|i: int| all.contains(i) implies ints.to_set().contains(i) by {
                assert(!slots.live(i as i32));
                let k = slots.free.index_of(i as i32);
                assert(ints[k] == i);
            }
        }
    }
}

/// A slot is in use exactly if it is one of those up to the top and was not freed.
pub proof fn law_slots_in_use(slots: RefSlots, index: i32)
    ensures
        slots.live(index) <==> 1 <= index <= slots.top && forall|k: int|
            0 <= k < slots.free.len() ==> slots.free[k] != index,
        slots.dropped(index) == (RefSlots { free: slots.free.push(index), ..slots }),
{
}

/// Freeing a slot and asking for one right after gives the same slot back and leaves the slots as
/// they were.
pub proof fn law_freed_slot_comes_back(slots: RefSlots, index: i32)
    requires
        slots.wf(),
        slots.live(index),
    ensures
        slots.dropped(index).asked_step() == (PopStep::Replace { index }),
        slots.dropped(index).asked() == slots,
{
    assert(slots.dropped(index).asked().free =~= slots.free);
}

/// When there is no room left, Lua is asked for as much room again as there is, then for half of
/// that and so on; the first request that it meets is taken, and without one no slot is given and
/// nothing changes.
pub proof fn law_growth(slots: RefSlots, has_room: spec_fn(int) -> bool)
    requires
        slots.wf(),
        slots.free.len() == 0,
        slots.top >= slots.size,
    ensures
        slots.asked() == slots,
        match largest_growth(slots.size, has_room) {
            Some(inc) => slots.settled(slots.asked_step(), has_room) == (
                RefSlots { size: slots.size + inc, top: slots.top + 1, ..slots },
                PopStep::Fresh { index: (slots.top + 1) as i32 },
            ),
            None => slots.settled(slots.asked_step(), has_room) == (
                slots,
                PopStep::Exhausted { used: slots.top as i32 },
            ),
        },
{
    lemma_growth(slots, slots.size, has_room);
}

/// The room that is taken is the number of slots, halved as often as Lua refused before: it is the
/// first of the number of slots, half of it, a quarter of it and so on that Lua has room for. None is
/// taken exactly if Lua has room for none of those that are not zero.
pub proof fn law_growth_is_by_halving(slots: RefSlots, has_room: spec_fn(int) -> bool, k: nat)
    requires
        slots.wf(),
        slots.free.len() == 0,
        slots.top >= slots.size,
        forall|j: nat| j < k ==> !has_room(slots.size / #[trigger] (pow2(j) as int)),
    ensures
        slots.size / pow2(k) as int > 0 && has_room(slots.size / pow2(k) as int)
            ==> slots.settled(slots.asked_step(), has_room) == (
            RefSlots {
                size: slots.size + slots.size / pow2(k) as int,
                top: slots.top + 1,
                ..slots
            },
            PopStep::Fresh { index: (slots.top + 1) as i32 },
        ),
        slots.size / pow2(k) as int == 0 ==> slots.settled(slots.asked_step(), has_room) == (
            slots,
            PopStep::Exhausted { used: slots.top as i32 },
        ),
{
    law_growth(slots, has_room);
    lemma_halved(slots.size, has_room, k);
}

proof fn lemma_half(inc: int, j: nat)
    requires
        inc > 0,
    ensures
        inc / pow2(j + 1) as int == (inc / 2) / pow2(j) as int,
{
    lemma_pow2_unfold(j + 1);
    lemma_pow2_pos(j);
    lemma_div_denominator(inc, 2, pow2(j) as int);
}

proof fn lemma_halved(inc: int, has_room: spec_fn(int) -> bool, k: nat)
    requires
        inc > 0,
        forall|j: nat| j < k ==> !has_room(inc / #[trigger] (pow2(j) as int)),
    ensures
        inc / pow2(k) as int > 0 && has_room(inc / pow2(k) as int) ==> largest_growth(inc, has_room)
            == Some(inc / pow2(k) as int),
        inc / pow2(k) as int == 0 ==> largest_growth(inc, has_room) is None,
    decreases k,
{
    assert(inc / pow2(0) as int == inc) by {
        lemma2_to64();
    }
    if k > 0 {
        let before = (k - 1) as nat;
        let half = inc / 2;
        assert(!has_room(inc / pow2(0) as int));
        lemma_half(inc, before);
        assert(before + 1 == k);
        if half > 0 {
            assert forall|j: nat| j < before implies !has_room(
                half / #[trigger] (pow2(j) as int),
            ) by {
                lemma_half(inc, j);
                assert(!has_room(inc / (pow2(j + 1) as int)));
            }
            lemma_halved(half, has_room, before);
        } else {
            lemma_pow2_pos(before);
            lemma_basic_div(0, pow2(before) as int);
        }
    }
}

proof fn lemma_growth(slots: RefSlots, inc: int, has_room: spec_fn(int) -> bool)
    requires
        0 < inc <= i32::MAX,
    ensures
        match largest_growth(inc, has_room) {
            Some(found) => slots.settled(PopStep::Grow { inc: inc as i32 }, has_room) == (
                RefSlots { size: slots.size + found, top: slots.top + 1, ..slots },
                PopStep::Fresh { index: (slots.top + 1) as i32 },
            ),
            None => slots.settled(PopStep::Grow { inc: inc as i32 }, has_room) == (
                slots,
                PopStep::Exhausted { used: slots.top as i32 },
            ),
        },
    decreases inc,
{
    reveal_with_fuel(RefSlots::settled, 2);
    reveal_with_fuel(largest_growth, 2);
    if !has_room(inc) && inc / 2 > 0 {
        lemma_growth(slots, inc / 2, has_room);
    }
}

} // verus!
