use std::collections::HashMap;
use std::collections::HashSet;

use vstd::prelude::*;

use crate::error::{refused, Error, ErrorOf, ErrorView};
use crate::memory::MemoryInfo;
use crate::refs::{RefSlots, RefStack, LUA_MINSTACK};
use crate::stdlib::StdLib;
use crate::version::Version;

verus! {

/// A handle to a Lua state.
///
/// States are known by the addresses that the embedder gives them; `extra` identifies the data that
/// all handles with one main state share.
#[derive(Debug, PartialEq, Eq)]
pub struct Lua {
    pub state: u64,
    pub main_state: Option<u64>,
    pub extra: u64,
    pub ephemeral: bool,
    pub safe: bool,
    pub version: Version,
}

/// Data that all handles with one main state share.
#[derive(Debug)]
pub struct ExtraData {
    /// Registry integers of the metatables of userdata types, by the number of the type.
    pub registered_userdata: HashMap<u64, i32>,
    /// Addresses of the metatables that userdata may have.
    pub registered_userdata_mt: HashSet<isize>,
    /// Registry integers whose keys have been dropped; none once the state is closed.
    pub registry_unref_list: Option<Vec<i32>>,
    /// Modules that have been loaded.
    pub libs: StdLib,
    /// Same as in the handle.
    pub safe: bool,
    /// Slots of the reference thread.
    pub refs: RefStack,
    /// Number under which the embedder keeps the hook.
    pub hook_callback: Option<u64>,
}

/// What an `ExtraData` holds.
#[verifier::ext_equal]
pub struct ExtraView {
    pub registered_userdata: Map<u64, i32>,
    pub registered_userdata_mt: Set<isize>,
    pub registry_unref_list: Option<Seq<i32>>,
    pub libs: StdLib,
    pub safe: bool,
    pub refs: RefSlots,
    pub hook_callback: Option<u64>,
}

impl View for ExtraData {
    type V = ExtraView;

    open spec fn view(&self) -> ExtraView {
        ExtraView {
            registered_userdata: self.registered_userdata@,
            registered_userdata_mt: self.registered_userdata_mt@,
            registry_unref_list: match self.registry_unref_list {
                Some(list) => Some(list@),
                None => None,
            },
            libs: self.libs,
            safe: self.safe,
            refs: self.refs@,
            hook_callback: self.hook_callback,
        }
    }
}

impl ExtraView {
    /// What is shared right after a state was taken over.
    pub open spec fn initial() -> ExtraView {
        ExtraView {
            registered_userdata: Map::empty(),
            registered_userdata_mt: Set::empty(),
            registry_unref_list: Some(Seq::empty()),
            libs: StdLib { bits: 0 },
            safe: false,
            refs: RefSlots { size: LUA_MINSTACK - 1, top: 0, free: Seq::empty() },
            hook_callback: None,
        }
    }
}

impl ExtraData {
    /// Nothing registered, loaded or referred to.
    pub fn new() -> (extra: ExtraData)
        ensures
            extra@ == ExtraView::initial(),
            extra@.refs.wf(),
            extra@ == (ExtraView {
                registered_userdata: Map::empty(),
                registered_userdata_mt: Set::empty(),
                registry_unref_list: Some(Seq::empty()),
                libs: StdLib { bits: 0 },
                safe: false,
                refs: RefSlots { size: 19, top: 0, free: Seq::empty() },
                hook_callback: None,
            }),
    {
        broadcast use vstd::std_specs::hash::group_hash_axioms;

        let extra = ExtraData {
            registered_userdata: HashMap::new(),
            registered_userdata_mt: HashSet::new(),
            registry_unref_list: Some(Vec::new()),
            libs: StdLib::none(),
            safe: false,
            refs: RefStack::new(),
            hook_callback: None,
        };
        extra
    }
}

/// The memory that a state uses.
#[derive(Clone, Copy, Debug, PartialEq, Eq, Structural)]
pub enum UsedMemory {
    /// So many bytes.
    Known(usize),
    /// What the collector of the state answers; see `Lua::collector_memory`.
    AskCollector { state: u64 },
}

/// A call that sets or removes the hook of a state.
#[derive(Clone, Copy, Debug, PartialEq, Eq, Structural)]
pub struct HookCall {
    pub state: u64,
    pub installed: bool,
    pub mask: i32,
    pub count: i32,
}

/// What closing a handle asks for.
#[derive(Clone, Copy, Debug, PartialEq, Eq, Structural)]
pub struct Close {
    /// The state to close; the accounting of its memory ends with it.
    pub main_state: u64,
    /// Whether references are still in use.
    pub leak: bool,
}

impl ExtraView {
    /// With another hook, or none.
    pub open spec fn hooked(self, hook: Option<u64>) -> ExtraView {
        ExtraView { hook_callback: hook, ..self }
    }
}

impl Lua {
    /// The state that operations on the whole virtual machine go to.
    pub open spec fn home(&self) -> u64 {
        match self.main_state {
            Some(state) => state,
            None => self.state,
        }
    }

    /// A second, ephemeral handle.
    pub open spec fn ephemeral_copy(self) -> Lua {
        Lua { ephemeral: true, ..self }
    }

    /// The handle is in safe mode if and only if the shared data says so.
    pub open spec fn agrees(self, extra: ExtraView) -> bool {
        self.safe == extra.safe
    }

    /// Returns the state that operations on the whole virtual machine go to: the main state, or
    /// this state if the main state is not known.
    pub fn main_or_current(&self) -> (state: u64)
        ensures
            state == self.home(),
            self.main_state matches Some(main) ==> state == main,
            self.main_state is None ==> state == self.state,
    {
        match self.main_state {
            Some(state) => state,
            None => self.state,
        }
    }

    /// A second, ephemeral handle to the same state, which shares all data and does not close the
    /// state.
    pub fn clone(&self) -> (lua: Lua)
        ensures
            lua == self.ephemeral_copy(),
            lua == (Lua { ephemeral: true, ..*self }),
    {
        Lua {
            state: self.state,
            main_state: self.main_state,
            extra: self.extra,
            ephemeral: true,
            safe: self.safe,
            version: self.version,
        }
    }

    /// Closes a handle. An ephemeral one does nothing; the owner of the state closes the state, and
    /// from then on dropped registry keys are no longer collected. `ref_thread_top` is the height of
    /// the reference thread.
    pub fn close(&self, extra: &mut ExtraData, ref_thread_top: i32) -> (close: Option<Close>)
        requires
            old(extra)@.refs.wf(),
            !self.ephemeral ==> self.main_state is Some,
        ensures
            self.ephemeral ==> close is None && final(extra)@ == old(extra)@,
            !self.ephemeral ==> {
                &&& close matches Some(c)
                &&& c.main_state == self.home()
                &&& Some(c.main_state) == self.main_state
                &&& c.leak == !(ref_thread_top == old(extra)@.refs.top && forall|i: i32|
                    !#[trigger] old(extra)@.refs.live(i))
                &&& final(extra)@ == (ExtraView { registry_unref_list: None, ..old(extra)@ })
            },
    {
        if self.ephemeral {
            return None;
        }
        let leak = !extra.refs.no_leak(ref_thread_top);
        extra.registry_unref_list = None;
        Some(Close { main_state: self.main_or_current(), leak })
    }

    /// Sets a hook, which needs the main state. `hook` is the number under which the embedder keeps
    /// the hook; `mask` and `count` say when it is called.
    pub fn install_hook(&self, extra: &mut ExtraData, hook: u64, mask: i32, count: i32) -> (r: Result<
        HookCall,
        Error,
    >)
        ensures
            match self.main_state {
                Some(state) => r == Ok::<HookCall, Error>(
                    HookCall { state, installed: true, mask, count },
                ) && final(extra)@ == old(extra)@.hooked(Some(hook)),
                None => refused(r, ErrorView::MainThreadNotAvailable) && final(extra)@ == old(
                    extra,
                )@,
            },
            self.main_state is Some ==> final(extra)@ == (ExtraView {
                hook_callback: Some(hook),
                ..old(extra)@
            }),
    {
        match self.main_state {
            Some(state) => {
                extra.hook_callback = Some(hook);
                Ok(HookCall { state, installed: true, mask, count })
            },
            None => Err(ErrorOf::MainThreadNotAvailable),
        }
    }

    /// Removes the hook. Without the main state no hook was set and nothing is done.
    pub fn remove_hook(&self, extra: &mut ExtraData) -> (call: Option<HookCall>)
        ensures
            match self.main_state {
                Some(state) => call == Some(
                    HookCall { state, installed: false, mask: 0, count: 0 },
                ) && final(extra)@ == old(extra)@.hooked(None),
                None => call is None && final(extra)@ == old(extra)@,
            },
            self.main_state is Some ==> final(extra)@ == (ExtraView {
                hook_callback: None,
                ..old(extra)@
            }),
    {
        match self.main_state {
            Some(state) => {
                extra.hook_callback = None;
                Some(HookCall { state, installed: false, mask: 0, count: 0 })
            },
            None => None,
        }
    }

    /// The hook that is set.
    pub fn hook_callback(&self, extra: &ExtraData) -> (hook: Option<u64>)
        ensures
            hook == extra@.hook_callback,
    {
        extra.hook_callback
    }

    /// The memory that the state uses: by its accounting, or else by its collector.
    pub fn used_memory(&self, info: &Option<MemoryInfo>) -> (used: UsedMemory)
        requires
            *info matches Some(i) ==> i.used_memory >= 0,
        ensures
            used == match *info {
                Some(i) => UsedMemory::Known(i.used_memory as usize),
                None => UsedMemory::AskCollector { state: self.home() },
            },
            *info is None && self.main_state is None ==> used == (UsedMemory::AskCollector {
                state: self.state,
            }),
            *info is None ==> (self.main_state matches Some(main) ==> used
                == (UsedMemory::AskCollector { state: main })),
    {
        match *info {
            Some(i) => UsedMemory::Known(i.used_memory as usize),
            None => UsedMemory::AskCollector { state: self.main_or_current() },
        }
    }

    /// The bytes that the collector counts, given the kilobytes and the bytes beyond them.
    pub fn collector_memory(used_kbytes: i32, used_kbytes_rem: i32) -> (bytes: usize)
        requires
            0 <= used_kbytes,
            0 <= used_kbytes_rem,
            used_kbytes * 1024 + used_kbytes_rem <= usize::MAX,
        ensures
            bytes == used_kbytes * 1024 + used_kbytes_rem,
    {
        (used_kbytes as usize) * 1024 + (used_kbytes_rem as usize)
    }

    /// Sets the memory limit of a state whose memory is accounted for, zero for none, and returns
    /// the limit before.
    pub fn set_memory_limit(&self, info: &mut Option<MemoryInfo>, memory_limit: usize) -> (r: Result<
        usize,
        Error,
    >)
        ensures
            match *old(info) {
                Some(i) => r == Ok::<usize, Error>(i.memory_limit) && *final(info) == Some(
                    i.with_limit(memory_limit),
                ),
                None => refused(r, ErrorView::MemoryLimitNotAvailable) && *final(info) == None::<
                    MemoryInfo,
                >,
            },
            *old(info) matches Some(i) ==> *final(info) == Some(
                MemoryInfo { used_memory: i.used_memory, memory_limit },
            ),
    {
        match *info {
            Some(i) => {
                *info = Some(MemoryInfo { memory_limit, ..i });
                Ok(i.memory_limit)
            },
            None => Err(ErrorOf::MemoryLimitNotAvailable),
        }
    }
}

/// Operations on the whole virtual machine go to the main state, and to the state of the handle where
/// the main state is not known.
pub proof fn law_home(lua: Lua, main: u64)
    ensures
        lua.main_state == Some(main) ==> lua.home() == main,
        lua.main_state is None ==> lua.home() == lua.state,
{
}

/// A second handle differs from the first in nothing but that it does not close the state.
pub proof fn law_second_handle(lua: Lua)
    ensures
        lua.ephemeral_copy() == (Lua { ephemeral: true, ..lua }),
        lua.ephemeral_copy().home() == lua.home(),
        lua.ephemeral_copy().ephemeral_copy() == lua.ephemeral_copy(),
{
}

/// Removing a hook undoes setting one: whatever hook was set, none is left and nothing else that
/// handles share has changed. Without a hook it changes nothing.
pub proof fn law_removed_hook(extra: ExtraView, hook: u64)
    ensures
        extra.hooked(Some(hook)).hook_callback == Some(hook),
        extra.hooked(Some(hook)).hooked(None) == extra.hooked(None),
        extra.hook_callback is None ==> extra.hooked(None) == extra,
{
}

} // verus!
