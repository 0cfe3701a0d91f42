use vstd::prelude::*;

verus! {

/// Memory accounting of a Lua state that allocates through the embedder.
#[derive(Clone, Copy, Debug, PartialEq, Eq, Structural)]
pub struct MemoryInfo {
    /// Bytes that the state holds.
    pub used_memory: isize,
    /// Most bytes that the state may hold; zero, and what a signed size cannot hold, mean no limit.
    pub memory_limit: usize,
}

/// What the allocator asks of the system.
#[derive(Clone, Copy, Debug, PartialEq, Eq, Structural)]
pub enum AllocStep {
    /// Nothing: there is no block to free.
    Nothing,
    /// Release a block of `size` bytes.
    Free { size: usize },
    /// Nothing: the request would pass the memory limit.
    Refuse,
    /// Allocate a block of `size` bytes.
    Allocate { size: usize },
    /// Change a block of `old` bytes into one of `new` bytes.
    Reallocate { old: usize, new: usize },
}

/// What the allocator answers to Lua.
#[derive(Clone, Copy, Debug, PartialEq, Eq, Structural)]
pub enum AllocResult {
    /// A null pointer.
    Null,
    /// The block that the system gave.
    Block,
    /// No answer: Lua counts on a block never failing to shrink, so the process has to end.
    Abort,
}

/// Change of the used memory if a request for `nsize` bytes in place of `block` is met.
pub open spec fn memory_diff(block: Option<usize>, nsize: usize) -> int {
    match block {
        Some(osize) => nsize - osize,
        None => nsize as int,
    }
}

impl MemoryInfo {
    /// Whether a limit is in force.
    pub open spec fn limited(self) -> bool {
        0 < self.memory_limit <= isize::MAX
    }

    /// A request that signed sizes can account for.
    pub open spec fn accountable(self, block: Option<usize>, nsize: usize) -> bool {
        &&& nsize <= isize::MAX
        &&& block matches Some(osize) ==> osize <= isize::MAX
        &&& isize::MIN <= self.used_memory + memory_diff(block, nsize) <= isize::MAX
    }

    /// A request that would leave the state with more memory than its limit.
    pub open spec fn passes_limit(self, block: Option<usize>, nsize: usize) -> bool {
        self.limited() && self.used_memory + memory_diff(block, nsize) > self.memory_limit
    }

    /// What is asked of the system for a request.
    pub open spec fn decided(self, block: Option<usize>, nsize: usize) -> AllocStep {
        if nsize == 0 {
            match block {
                Some(osize) => AllocStep::Free { size: osize },
                None => AllocStep::Nothing,
            }
        } else if self.passes_limit(block, nsize) {
            AllocStep::Refuse
        } else {
            match block {
                Some(osize) => AllocStep::Reallocate { old: osize, new: nsize },
                None => AllocStep::Allocate { size: nsize },
            }
        }
    }

    /// Used memory after the system has met (`success`) or not met what was asked of it.
    pub open spec fn used_after(self, step: AllocStep, success: bool) -> int {
        match step {
            AllocStep::Nothing => self.used_memory as int,
            AllocStep::Free { size } => self.used_memory - size,
            AllocStep::Refuse => self.used_memory as int,
            AllocStep::Allocate { size } => {
                if success {
                    self.used_memory + size
                } else {
                    self.used_memory as int
                }
            },
            AllocStep::Reallocate { old, new } => {
                if success {
                    self.used_memory + (new - old)
                } else {
                    self.used_memory as int
                }
            },
        }
    }

    /// With another limit.
    pub open spec fn with_limit(self, memory_limit: usize) -> MemoryInfo {
        MemoryInfo { memory_limit, ..self }
    }

    /// The accounting of a state that holds nothing and has no limit.
    pub fn new() -> (info: MemoryInfo)
        ensures
            info == (MemoryInfo { used_memory: 0, memory_limit: 0 }),
    {
        MemoryInfo { used_memory: 0, memory_limit: 0 }
    }

    /// Decides on a request of Lua: `nsize` bytes in place of `block`, a block of that many bytes,
    /// or a new block.
    pub fn allocator(&self, block: Option<usize>, nsize: usize) -> (step: AllocStep)
        requires
            self.accountable(block, nsize),
        ensures
            step == self.decided(block, nsize),
            step == AllocStep::Refuse <==> nsize > 0 && 0 < self.memory_limit <= isize::MAX
                && self.used_memory + nsize - (match block {
                Some(osize) => osize as int,
                None => 0,
            }) > self.memory_limit,
    {
        if nsize == 0 {
            return match block {
                Some(osize) => AllocStep::Free { size: osize },
                None => AllocStep::Nothing,
            };
        }
        // Are we fit to the memory limits?
        let mut mem_diff: isize = nsize as isize;
        if let Some(osize) = block {
            mem_diff = mem_diff - osize as isize;
        }
        let new_used_memory: isize = self.used_memory + mem_diff;
        if self.memory_limit > 0 && self.memory_limit <= isize::MAX as usize && new_used_memory
            > self.memory_limit as isize {
            return AllocStep::Refuse;
        }
        match block {
            Some(osize) => AllocStep::Reallocate { old: osize, new: nsize },
            None => AllocStep::Allocate { size: nsize },
        }
    }

    /// Accounts for what the system did with a step (`success` is false if it gave a null pointer)
    /// and says what Lua is answered.
    pub fn settle(&mut self, step: AllocStep, success: bool) -> (result: AllocResult)
        requires
            isize::MIN <= old(self).used_after(step, success) <= isize::MAX,
            step matches AllocStep::Free { size } ==> size <= isize::MAX,
            step matches AllocStep::Allocate { size } ==> size <= isize::MAX,
            step matches AllocStep::Reallocate { old: o, new: n } ==> o <= isize::MAX && n
                <= isize::MAX,
        ensures
            final(self).used_memory == old(self).used_after(step, success),
            final(self).used_memory - old(self).used_memory == match step {
                AllocStep::Free { size } => -size,
                AllocStep::Allocate { size } if success => size as int,
                AllocStep::Reallocate { old: o, new: n } if success => n - o,
                _ => 0,
            },
            final(self).memory_limit == old(self).memory_limit,
            result == match step {
                AllocStep::Allocate { .. } => if success {
                    AllocResult::Block
                } else {
                    AllocResult::Null
                },
                AllocStep::Reallocate { old: o, new: n } => if success {
                    AllocResult::Block
                } else if n < o {
                    AllocResult::Abort
                } else {
                    AllocResult::Null
                },
                _ => AllocResult::Null,
            },
    {
        match step {
            AllocStep::Nothing => AllocResult::Null,
            AllocStep::Refuse => AllocResult::Null,
            AllocStep::Free { size } => {
                self.used_memory = self.used_memory - size as isize;
                AllocResult::Null
            },
            AllocStep::Allocate { size } => {
                if success {
                    self.used_memory = self.used_memory + size as isize;
                    AllocResult::Block
                } else {
                    AllocResult::Null
                }
            },
            AllocStep::Reallocate { old, new } => {
                if success {
                    self.used_memory = self.used_memory + (new as isize - old as isize);
                    AllocResult::Block
                } else if new < old {
                    AllocResult::Abort
                } else {
                    AllocResult::Null
                }
            },
        }
    }
}

/// One request of a state and the system's answer, over the blocks that the state holds: `block`
/// is the position of the block that the request is about.
pub struct Request {
    pub block: Option<int>,
    pub nsize: usize,
    pub success: bool,
}

/// Bytes in all of the given blocks.
pub open spec fn total(blocks: Seq<usize>) -> int
    decreases blocks.len(),
{
    if blocks.len() == 0 {
        0
    } else {
        total(blocks.drop_last()) + blocks.last()
    }
}

impl Request {
    /// The request is about a block that there is.
    pub open spec fn valid(self, blocks: Seq<usize>) -> bool {
        self.block matches Some(i) ==> 0 <= i < blocks.len()
    }

    /// Size of the block that the request is about.
    pub open spec fn size_in(self, blocks: Seq<usize>) -> Option<usize> {
        match self.block {
            Some(i) => Some(blocks[i]),
            None => None,
        }
    }

    /// What is asked of the system.
    pub open spec fn step(self, info: MemoryInfo, blocks: Seq<usize>) -> AllocStep {
        info.decided(self.size_in(blocks), self.nsize)
    }

    /// The blocks that the state holds afterwards.
    pub open spec fn blocks_after(self, info: MemoryInfo, blocks: Seq<usize>) -> Seq<usize> {
        match self.step(info, blocks) {
            AllocStep::Nothing => blocks,
            AllocStep::Refuse => blocks,
            AllocStep::Free { .. } => blocks.remove(self.block->0),
            AllocStep::Allocate { size } => if self.success {
                blocks.push(size)
            } else {
                blocks
            },
            AllocStep::Reallocate { new, .. } => if self.success {
                blocks.update(self.block->0, new)
            } else {
                blocks
            },
        }
    }

    /// The accounting afterwards.
    pub open spec fn info_after(self, info: MemoryInfo, blocks: Seq<usize>) -> MemoryInfo {
        MemoryInfo {
            used_memory: info.used_after(self.step(info, blocks), self.success) as isize,
            ..info
        }
    }
}

/// A history of requests, each of which is valid and accountable when it is made.
pub open spec fn admissible(info: MemoryInfo, blocks: Seq<usize>, history: Seq<Request>) -> bool
    decreases history.len(),
{
    history.len() == 0 || {
        let r = history[0];
        &&& r.valid(blocks)
        &&& info.accountable(r.size_in(blocks), r.nsize)
        &&& admissible(
            r.info_after(info, blocks),
            r.blocks_after(info, blocks),
            history.skip(1),
        )
    }
}

/// Accounting and blocks at the end of a history.
pub open spec fn replay(info: MemoryInfo, blocks: Seq<usize>, history: Seq<Request>) -> (
    MemoryInfo,
    Seq<usize>,
)
    decreases history.len(),
{
    if history.len() == 0 {
        (info, blocks)
    } else {
        let r = history[0];
        replay(r.info_after(info, blocks), r.blocks_after(info, blocks), history.skip(1))
    }
}

proof fn lemma_total_update(blocks: Seq<usize>, i: int, size: usize)
    requires
        0 <= i < blocks.len(),
    ensures
        total(blocks.update(i, size)) == total(blocks) - blocks[i] + size,
    decreases blocks.len(),
{
    let updated = blocks.update(i, size);
    if i == blocks.len() - 1 {
        assert(updated.drop_last() =~= blocks.drop_last());
    } else {
        assert(updated.drop_last() =~= blocks.drop_last().update(i, size));
        lemma_total_update(blocks.drop_last(), i, size);
    }
}

proof fn lemma_total_remove(blocks: Seq<usize>, i: int)
    requires
        0 <= i < blocks.len(),
    ensures
        total(blocks.remove(i)) == total(blocks) - blocks[i],
    decreases blocks.len(),
{
    let removed = blocks.remove(i);
    if i == blocks.len() - 1 {
        assert(removed =~= blocks.drop_last());
    } else {
        assert(removed.drop_last() =~= blocks.drop_last().remove(i));
        assert(removed.last() == blocks.last());
        lemma_total_remove(blocks.drop_last(), i);
    }
}

/// The used memory is at all times the number of bytes in the blocks that the state holds.
pub proof fn law_used_memory_is_what_is_held(
    info: MemoryInfo,
    blocks: Seq<usize>,
    history: Seq<Request>,
)
    requires
        info.used_memory == total(blocks),
        admissible(info, blocks, history),
    ensures
        replay(info, blocks, history).0.used_memory == total(replay(info, blocks, history).1),
    decreases history.len(),
{
    if history.len() > 0 {
        let r = history[0];
        let step = r.step(info, blocks);
        let after = r.blocks_after(info, blocks);
        match r.block {
            Some(i) => {
                lemma_total_remove(blocks, i);
                lemma_total_update(blocks, i, r.nsize);
            },
            None => {
                assert(blocks.push(r.nsize).drop_last() =~= blocks);
            },
        }
        assert(isize::MIN <= info.used_after(step, r.success) <= isize::MAX);
        law_used_memory_is_what_is_held(r.info_after(info, blocks), after, history.skip(1));
    }
}

/// While a limit is in force, a state that is within it stays within it, and no request changes
/// the limit.
pub proof fn law_limit_is_kept(info: MemoryInfo, blocks: Seq<usize>, history: Seq<Request>)
    requires
        0 < info.memory_limit <= isize::MAX,
        info.used_memory <= info.memory_limit,
        admissible(info, blocks, history),
    ensures
        replay(info, blocks, history).0.used_memory <= info.memory_limit,
        replay(info, blocks, history).0.memory_limit == info.memory_limit,
    decreases history.len(),
{
    if history.len() > 0 {
        let r = history[0];
        assert(isize::MIN <= info.used_after(r.step(info, blocks), r.success) <= isize::MAX);
        law_limit_is_kept(
            r.info_after(info, blocks),
            r.blocks_after(info, blocks),
            history.skip(1),
        );
    }
}

/// Each limit that is set stands until the next one is set, and no limit changes what the state
/// holds. Zero lifts the limit, so that nothing is refused any more.
pub proof fn law_limits_succeed_each_other(
    info: MemoryInfo,
    first: usize,
    second: usize,
    block: Option<usize>,
    nsize: usize,
)
    ensures
        info.with_limit(first).memory_limit == first,
        info.with_limit(first).with_limit(second) == info.with_limit(second),
        info.with_limit(first).used_memory == info.used_memory,
        info.with_limit(0).decided(block, nsize) != AllocStep::Refuse,
{
}

/// A request is refused exactly if it asks for memory and would pass the limit in force; a refused
/// request changes no accounting. Without a limit nothing is refused, and freeing never is.
pub proof fn law_refusal(info: MemoryInfo, block: Option<usize>, nsize: usize, success: bool)
    ensures
        info.decided(block, nsize) == AllocStep::Refuse <==> nsize > 0 && info.passes_limit(
            block,
            nsize,
        ),
        info.decided(block, nsize) == AllocStep::Refuse ==> info.used_after(
            info.decided(block, nsize),
            success,
        ) == info.used_memory,
        info.memory_limit == 0 ==> info.decided(block, nsize) != AllocStep::Refuse,
        nsize == 0 ==> info.decided(block, nsize) != AllocStep::Refuse,
{
}

/// Under every limit that a signed size can hold, a request for a new block is refused exactly if the
/// used memory and the block together are more than the limit, and a request to change a block
/// exactly if they are with the new block in place of the old one. What is not refused is asked of
/// the system as it was asked for. Without a limit, or with one that no signed size can hold, nothing
/// is refused, and a request for no bytes frees the block, if there is one, under every limit.
pub proof fn law_requests(info: MemoryInfo, osize: usize, nsize: usize)
    requires
        nsize > 0,
    ensures
        info.decided(None, nsize) == (if 0 < info.memory_limit <= isize::MAX && info.used_memory
            + nsize > info.memory_limit {
            AllocStep::Refuse
        } else {
            AllocStep::Allocate { size: nsize }
        }),
        info.decided(Some(osize), nsize) == (if 0 < info.memory_limit <= isize::MAX
            && info.used_memory - osize + nsize > info.memory_limit {
            AllocStep::Refuse
        } else {
            AllocStep::Reallocate { old: osize, new: nsize }
        }),
        info.decided(Some(osize), 0) == (AllocStep::Free { size: osize }),
        info.decided(None, 0) == AllocStep::Nothing,
{
}

/// What a request does to the accounting and to the blocks: a request that was refused or that the
/// system did not meet changes neither, and one that was met puts a block of the asked size in the
/// place of the old one, and counts the difference.
pub proof fn law_request_is_accounted(info: MemoryInfo, blocks: Seq<usize>, i: int, nsize: usize)
    requires
        0 <= i < blocks.len(),
        nsize > 0,
        info.accountable(None, nsize),
        info.accountable(Some(blocks[i]), nsize),
        info.accountable(Some(blocks[i]), 0),
    ensures
        ({
            let unmet = Request { block: Some(i), nsize, success: false };
            &&& unmet.blocks_after(info, blocks) == blocks
            &&& unmet.info_after(info, blocks) == info
        }),
        ({
            let freed = Request { block: Some(i), nsize: 0, success: true };
            &&& freed.blocks_after(info, blocks) == blocks.remove(i)
            &&& freed.info_after(info, blocks).used_memory == info.used_memory - blocks[i]
            &&& freed.info_after(info, blocks).memory_limit == info.memory_limit
        }),
        ({
            let met = Request { block: Some(i), nsize, success: true };
            let fits = info.memory_limit == 0 || info.memory_limit > isize::MAX
                || info.used_memory - blocks[i] + nsize <= info.memory_limit;
            &&& met.blocks_after(info, blocks) == if fits {
                blocks.update(i, nsize)
            } else {
                blocks
            }
            &&& met.info_after(info, blocks).used_memory == if fits {
                info.used_memory - blocks[i] + nsize
            } else {
                info.used_memory as int
            }
            &&& met.info_after(info, blocks).memory_limit == info.memory_limit
        }),
        ({
            let met = Request { block: None, nsize, success: true };
            let fits = info.memory_limit == 0 || info.memory_limit > isize::MAX
                || info.used_memory + nsize <= info.memory_limit;
            &&& met.blocks_after(info, blocks) == if fits {
                blocks.push(nsize)
            } else {
                blocks
            }
            &&& met.info_after(info, blocks).used_memory == if fits {
                info.used_memory + nsize
            } else {
                info.used_memory as int
            }
            &&& met.info_after(info, blocks).memory_limit == info.memory_limit
        }),
{
}

} // verus!
