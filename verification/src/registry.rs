//! The registry: both pools and the lock journal, owned in one place and
//! handed to every operation by reference.
use crate::fst::StoreFSTPool;
use crate::kv::StoreKVPool;
use crate::lock::{StoreLockEventView, StoreLockJournal};
use vstd::prelude::*;

verus! {

/// The stores of the process.
pub struct StoreRegistry {
    /// The key/value family.
    pub kv: StoreKVPool,
    /// The full-text family.
    pub fst: StoreFSTPool,
    /// The record of the lock events of all operations, oldest first.
    pub journal: StoreLockJournal,
}

impl StoreRegistry {
    /// Well-formedness: both pools are well-formed.
    pub open spec fn wf(&self) -> bool {
        &&& self.kv.wf()
        &&& self.fst.wf()
    }

    /// Whether no operation is under way: no lock of either family is held.
    pub open spec fn idle(&self) -> bool {
        &&& self.kv@.idle()
        &&& self.fst@.idle()
    }

    /// A registry with two empty pools and an empty journal.
    pub fn new() -> (registry: StoreRegistry)
        ensures
            registry.wf(),
            registry.idle(),
            registry.kv@.available,
            registry.fst@.available,
            registry.kv@.stores.dom() == Set::<Seq<char>>::empty(),
            registry.fst@.stores.dom() == Set::<Seq<char>>::empty(),
            registry.journal@ == Seq::<StoreLockEventView>::empty(),
    {
        StoreRegistry { kv: StoreKVPool::new(), fst: StoreFSTPool::new(), journal: StoreLockJournal::new() }
    }
}

} // verus!
