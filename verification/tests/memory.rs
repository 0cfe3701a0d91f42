use mlua_core::error::Error;
use mlua_core::lua::{Lua, UsedMemory};
use mlua_core::memory::{AllocResult, AllocStep, MemoryInfo};
use mlua_core::version::Version;

fn handle() -> Lua {
    Lua {
        state: 10,
        main_state: Some(20),
        extra: 1,
        ephemeral: true,
        safe: false,
        version: Version::Lua54,
    }
}

#[test]
fn new_accounting_holds_nothing() {
    assert_eq!(MemoryInfo::new(), MemoryInfo { used_memory: 0, memory_limit: 0 });
}

#[test]
fn allocation_is_counted_if_it_succeeds() {
    let mut info = MemoryInfo::new();
    let step = info.allocator(None, 64);
    assert_eq!(step, AllocStep::Allocate { size: 64 });
    assert_eq!(info.settle(step, false), AllocResult::Null);
    assert_eq!(info.used_memory, 0);
    assert_eq!(info.settle(step, true), AllocResult::Block);
    assert_eq!(info.used_memory, 64);
}

#[test]
fn reallocation_counts_the_difference() {
    let mut info = MemoryInfo { used_memory: 100, memory_limit: 0 };
    let step = info.allocator(Some(40), 10);
    assert_eq!(step, AllocStep::Reallocate { old: 40, new: 10 });
    assert_eq!(info.settle(step, true), AllocResult::Block);
    assert_eq!(info.used_memory, 70);
}

#[test]
fn a_block_that_cannot_shrink_ends_the_process() {
    let mut info = MemoryInfo { used_memory: 100, memory_limit: 0 };
    let step = info.allocator(Some(40), 10);
    assert_eq!(info.settle(step, false), AllocResult::Abort);
    let grow = info.allocator(Some(40), 80);
    assert_eq!(info.settle(grow, false), AllocResult::Null);
    assert_eq!(info.used_memory, 100);
}

#[test]
fn freeing_gives_memory_back() {
    let mut info = MemoryInfo { used_memory: 100, memory_limit: 0 };
    assert_eq!(info.allocator(None, 0), AllocStep::Nothing);
    let step = info.allocator(Some(30), 0);
    assert_eq!(step, AllocStep::Free { size: 30 });
    assert_eq!(info.settle(step, true), AllocResult::Null);
    assert_eq!(info.used_memory, 70);
}

#[test]
fn the_limit_refuses_what_passes_it() {
    let info = MemoryInfo { used_memory: 90, memory_limit: 100 };
    assert_eq!(info.allocator(None, 10), AllocStep::Allocate { size: 10 });
    assert_eq!(info.allocator(None, 11), AllocStep::Refuse);
    assert_eq!(info.allocator(Some(5), 15), AllocStep::Reallocate { old: 5, new: 15 });
    assert_eq!(info.allocator(Some(5), 16), AllocStep::Refuse);
    assert_eq!(info.allocator(Some(5), 0), AllocStep::Free { size: 5 });
}

#[test]
fn a_refused_request_changes_nothing() {
    let mut info = MemoryInfo { used_memory: 90, memory_limit: 100 };
    let step = info.allocator(None, 11);
    assert_eq!(info.settle(step, true), AllocResult::Null);
    assert_eq!(info, MemoryInfo { used_memory: 90, memory_limit: 100 });
}

#[test]
fn a_limit_beyond_signed_sizes_is_no_limit() {
    let info = MemoryInfo { used_memory: 90, memory_limit: usize::MAX };
    assert_eq!(info.allocator(None, 1000), AllocStep::Allocate { size: 1000 });
}

#[test]
fn used_memory_is_the_sum_of_the_blocks() {
    let mut info = MemoryInfo::new();
    let mut blocks: Vec<usize> = Vec::new();
    for size in [16usize, 32, 64] {
        let step = info.allocator(None, size);
        info.settle(step, true);
        blocks.push(size);
    }
    let step = info.allocator(Some(blocks[1]), 8);
    info.settle(step, true);
    blocks[1] = 8;
    let step = info.allocator(Some(blocks[0]), 0);
    info.settle(step, true);
    blocks.remove(0);
    assert_eq!(info.used_memory as usize, blocks.iter().sum::<usize>());
}

#[test]
fn limits_are_returned_in_turn() {
    let lua = handle();
    let mut info = Some(MemoryInfo::new());
    assert_eq!(lua.set_memory_limit(&mut info, 500), Ok(0));
    assert_eq!(lua.set_memory_limit(&mut info, 700), Ok(500));
    assert_eq!(lua.set_memory_limit(&mut info, 0), Ok(700));
    assert_eq!(info, Some(MemoryInfo::new()));
}

#[test]
fn no_limit_without_accounting() {
    let lua = handle();
    let mut info = None;
    assert_eq!(lua.set_memory_limit(&mut info, 500), Err(Error::MemoryLimitNotAvailable));
    assert_eq!(info, None);
}

#[test]
fn used_memory_is_known_or_asked_of_the_collector() {
    let lua = handle();
    let info = Some(MemoryInfo { used_memory: 77, memory_limit: 0 });
    assert_eq!(lua.used_memory(&info), UsedMemory::Known(77));
    assert_eq!(lua.used_memory(&None), UsedMemory::AskCollector { state: 20 });
    assert_eq!(Lua::collector_memory(3, 5), 3077);
    assert_eq!(Lua::collector_memory(0, 1023), 1023);
}
