//! The cache of lazily loaded view modules.
//!
//! Every node with a lazy view has one slot. The slot does not load anything
//! itself: it says when a load is owed and takes its outcome back. While a
//! load is in flight the slot is its marker, which every further caller
//! finds and waits on, so that no node ever has two loads under way.

use vstd::prelude::*;

verus! {

/// A loaded view module, as the loader named it.
#[derive(Clone, Copy, Debug, PartialEq, Eq, Structural)]
pub struct ModuleId(pub u64);

/// Why a load failed, as the loader named it.
#[derive(Clone, Copy, Debug, PartialEq, Eq, Structural)]
pub struct LoadFault(pub u64);

/// The state of one slot.
#[derive(Clone, Copy, Debug, PartialEq, Eq, Structural)]
pub enum LazySlot {
    /// Nothing was loaded yet.
    Unloaded,
    /// A load is in flight.
    Loading,
    /// The module is loaded, and is kept for good.
    Ready(ModuleId),
    /// The last load failed. The next call for the module tries again.
    Failed(LoadFault),
}

/// What a call for the module found.
#[derive(Clone, Copy, Debug, PartialEq, Eq, Structural)]
pub enum Resolution {
    /// The module was loaded before: here it is.
    Cached(ModuleId),
    /// A load is in flight already: wait for it.
    Joined,
    /// No load was in flight: one is owed now.
    Started,
}

impl LazySlot {
    /// Whether a call for the module starts a load.
    pub open spec fn starts_load(self) -> bool {
        self is Unloaded || self is Failed
    }

    /// What a call for the module finds.
    pub open spec fn finds(self) -> Resolution {
        match self {
            LazySlot::Ready(module) => Resolution::Cached(module),
            LazySlot::Loading => Resolution::Joined,
            _ => Resolution::Started,
        }
    }

    /// The slot after a call for the module.
    pub open spec fn called(self) -> LazySlot {
        if self.starts_load() {
            LazySlot::Loading
        } else {
            self
        }
    }

    /// The slot after a load reported its outcome. Where no load was in
    /// flight, the report changes nothing.
    pub open spec fn settled(self, outcome: Result<ModuleId, LoadFault>) -> LazySlot {
        match self {
            LazySlot::Loading => match outcome {
                Ok(module) => LazySlot::Ready(module),
                Err(fault) => LazySlot::Failed(fault),
            },
            _ => self,
        }
    }

    /// The module, where it is loaded.
    pub open spec fn module(self) -> Option<ModuleId> {
        match self {
            LazySlot::Ready(module) => Some(module),
            _ => None,
        }
    }

    /// Calls for the module.
    pub fn resolve(&mut self) -> (found: Resolution)
        ensures
            *final(self) == old(self).called(),
            found == old(self).finds(),
    {
        match *self {
            LazySlot::Ready(module) => Resolution::Cached(module),
            LazySlot::Loading => Resolution::Joined,
            _ => {
                *self = LazySlot::Loading;
                Resolution::Started
            },
        }
    }

    /// Takes the outcome of the load in flight. Returns whether there was
    /// one.
    pub fn settle(&mut self, outcome: Result<ModuleId, LoadFault>) -> (applied: bool)
        ensures
            *final(self) == old(self).settled(outcome),
            applied == (*old(self) is Loading),
    {
        match *self {
            LazySlot::Loading => {
                *self = match outcome {
                    Ok(module) => LazySlot::Ready(module),
                    Err(fault) => LazySlot::Failed(fault),
                };
                true
            },
            _ => false,
        }
    }

    /// The module, where it is loaded.
    pub fn loaded(&self) -> (module: Option<ModuleId>)
        ensures
            module == self.module(),
    {
        match *self {
            LazySlot::Ready(module) => Some(module),
            _ => None,
        }
    }
}

/// How many loads `calls` calls in a row start, none of them settled in
/// between.
pub open spec fn loads_started(slot: LazySlot, calls: nat) -> nat
    decreases calls,
{
    if calls == 0 {
        0
    } else if slot.starts_load() {
        1 + loads_started(slot.called(), (calls - 1) as nat)
    } else {
        loads_started(slot.called(), (calls - 1) as nat)
    }
}

/// The slot after `calls` calls in a row.
pub open spec fn after_calls(slot: LazySlot, calls: nat) -> LazySlot
    decreases calls,
{
    if calls == 0 {
        slot
    } else {
        after_calls(slot.called(), (calls - 1) as nat)
    }
}

/// However many callers ask for a module before its load settles, exactly
/// one load is started where none was in flight and the module was not
/// there, and none otherwise; and all of them leave the slot as the first
/// did.
pub proof fn law_one_load_for_all_callers(slot: LazySlot, calls: nat)
    requires
        calls > 0,
    ensures
        loads_started(slot, calls) == if slot.starts_load() {
            1nat
        } else {
            0nat
        },
        after_calls(slot, calls) == slot.called(),
    decreases calls,
{
    if calls > 1 {
        law_one_load_for_all_callers(slot.called(), (calls - 1) as nat);
    } else {
        assert(loads_started(slot.called(), 0) == 0);
        assert(after_calls(slot.called(), 0) == slot.called());
    }
}

/// A failed load does not stay: the next call starts a fresh one, and its
/// success is kept.
pub proof fn law_failure_is_retried(fault: LoadFault, module: ModuleId)
    ensures
        LazySlot::Failed(fault).finds() == Resolution::Started,
        LazySlot::Failed(fault).called().settled(Ok(module)) == LazySlot::Ready(module),
{
}

/// A loaded module stays: neither a call nor a late report changes the slot.
pub proof fn law_ready_is_kept(module: ModuleId, outcome: Result<ModuleId, LoadFault>)
    ensures
        LazySlot::Ready(module).called() == LazySlot::Ready(module),
        LazySlot::Ready(module).finds() == Resolution::Cached(module),
        LazySlot::Ready(module).settled(outcome) == LazySlot::Ready(module),
{
}

} // verus!
