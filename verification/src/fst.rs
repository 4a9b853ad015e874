//! The full-text side: one store of words per bucket, the pool that opens,
//! keeps and erases them, and the count of the buckets of a collection.
//!
//! A store lives on backing storage whether or not the pool has it open. The
//! pool keeps, with each store, whether it is resident: opened and held in
//! memory. Residency is the pool's business alone: what a store holds, and
//! which stores a collection has, do not depend on it.
use crate::lock::{StoreLock, StoreLockMode, StoreLockState};
use crate::table::StoreTable;
use crate::term::{lemma_merge_terms, merge_into, merge_terms, terms_view};
use vstd::prelude::*;

verus! {

/// The store of one bucket, as a plain value.
pub struct StoreFSTView {
    /// The state of the instance lock.
    pub lock: StoreLockState,
    /// Whether the pool has the store open.
    pub resident: bool,
    /// The words of the bucket, each once.
    pub words: Seq<Seq<char>>,
}

impl StoreFSTView {
    /// The lock state is in order, and the store holds each word once, and
    /// no more words than can be counted.
    pub open spec fn wf(self) -> bool {
        &&& self.lock.wf()
        &&& self.words.no_duplicates()
        &&& self.words.len() <= u32::MAX
    }

    /// The store with its lock in another state.
    pub open spec fn with_lock(self, lock: StoreLockState) -> StoreFSTView {
        StoreFSTView { lock, ..self }
    }

    /// The store after its lock was taken in `mode`.
    pub open spec fn locked(self, mode: StoreLockMode) -> StoreFSTView {
        self.with_lock(self.lock.acquired(mode))
    }

    /// The store after its lock was given back in `mode`.
    pub open spec fn unlocked(self, mode: StoreLockMode) -> StoreFSTView {
        self.with_lock(self.lock.released(mode))
    }

    /// The store after `added` was merged into its words.
    pub open spec fn pushed(self, added: Seq<Seq<char>>) -> StoreFSTView {
        StoreFSTView { words: merge_terms(self.words, added), ..self }
    }

    /// The store, open or not.
    pub open spec fn with_resident(self, resident: bool) -> StoreFSTView {
        StoreFSTView { resident, ..self }
    }

    /// Whether the store takes `added` no more: the list of words would
    /// outgrow its bound.
    pub open spec fn push_refused(self, added: Seq<Seq<char>>) -> bool {
        self.words.len() + added.len() > u32::MAX
    }
}

/// The store that the pool creates on demand: free, resident and empty.
pub open spec fn fresh_graph() -> StoreFSTView {
    StoreFSTView { lock: StoreLockState::Free, resident: true, words: Seq::empty() }
}

/// The full-text store of one bucket.
pub struct StoreFST {
    lock: StoreLock,
    resident: bool,
    words: Vec<String>,
}

impl View for StoreFST {
    type V = StoreFSTView;

    closed spec fn view(&self) -> StoreFSTView {
        StoreFSTView { lock: self.lock@, resident: self.resident, words: terms_view(self.words@) }
    }
}

impl StoreFST {
    /// Well-formedness of a store is that of its value.
    pub open spec fn wf(&self) -> bool {
        self@.wf()
    }

    /// A fresh store.
    pub fn new() -> (store: StoreFST)
        ensures
            store.wf(),
            store@ == fresh_graph(),
    {
        let store = StoreFST { lock: StoreLock::new(), resident: true, words: Vec::new() };
        assert(store@.words =~= Seq::<Seq<char>>::empty());
        store
    }

    /// Takes the instance lock in `mode`.
    pub fn lock(&mut self, mode: StoreLockMode)
        requires
            old(self)@.lock.admits(mode),
        ensures
            final(self)@ == old(self)@.locked(mode),
    {
        self.lock.acquire(mode);
    }

    /// Gives the instance lock back.
    pub fn unlock(&mut self, mode: StoreLockMode)
        requires
            old(self)@.lock.held(mode),
        ensures
            final(self)@ == old(self)@.unlocked(mode),
    {
        self.lock.release(mode);
    }

    /// The number of distinct words in the store.
    pub fn count_words(&self) -> (count: usize)
        requires
            self.wf(),
        ensures
            count == self@.words.len(),
            count <= u32::MAX,
    {
        self.words.len()
    }

    /// Adds to the store each of `words` that it does not hold yet. A refusal
    /// leaves the store as it was.
    pub fn push_words(&mut self, words: &Vec<String>) -> (pushed: Result<(), ()>)
        requires
            old(self).wf(),
            old(self)@.lock.held(StoreLockMode::Exclusive),
        ensures
            final(self).wf(),
            pushed is Err == old(self)@.push_refused(terms_view(words@)),
            pushed is Err ==> final(self)@ == old(self)@,
            pushed is Ok ==> final(self)@ == old(self)@.pushed(terms_view(words@)),
    {
        if words.len() > 0xffff_ffff || self.words.len() > 0xffff_ffff - words.len() {
            return Err(());
        }
        merge_into(&mut self.words, words);
        proof {
            lemma_merge_terms(old(self)@.words, terms_view(words@));
        }
        Ok(())
    }
}

/// How a store is asked of the pool.
#[derive(Clone, Copy, Debug, PartialEq, Eq, Structural)]
pub enum StoreFSTAcquireMode {
    /// Open the store, and create it if there is none.
    Any,
    /// Open the store only if there is one.
    OpenOnly,
}

/// The handle of an acquired store: the slot of its collection in the pool
/// and the slot of its bucket in the collection. It stays good for as long
/// as the access lock is held.
#[derive(Clone, Copy, Debug, PartialEq, Eq, Structural)]
pub struct StoreFSTSlot {
    pub collection: usize,
    pub bucket: usize,
}

/// The full-text pool, as a plain value.
pub struct StoreFSTPoolView {
    /// The state of the access lock of the family.
    pub access: StoreLockState,
    /// Whether backing storage answers. While it does not, opening, erasing
    /// and listing fail.
    pub available: bool,
    /// The stores on backing storage, by collection and then by bucket.
    pub stores: Map<Seq<char>, Map<Seq<char>, StoreFSTView>>,
}

impl StoreFSTPoolView {
    /// The pool holds finitely many collections, each with a bounded number
    /// of stores, and every store is well-formed.
    pub open spec fn wf(self) -> bool {
        &&& self.access.wf()
        &&& self.stores.dom().finite()
        &&& forall|collection: Seq<char>| #[trigger]
            self.stores.dom().contains(collection) ==> self.stores[collection].dom().finite()
                && self.stores[collection].dom().len() <= u32::MAX
        &&& forall|collection: Seq<char>, bucket: Seq<char>|
            self.has(collection, bucket) ==> (#[trigger] self.stores[collection][bucket]).wf()
    }

    /// Whether no lock of the family is held.
    pub open spec fn idle(self) -> bool {
        &&& self.access is Free
        &&& forall|collection: Seq<char>, bucket: Seq<char>|
            self.has(collection, bucket) ==> (
            #[trigger] self.stores[collection][bucket]).lock is Free
    }

    /// Whether `bucket` of `collection` has a store.
    pub open spec fn has(self, collection: Seq<char>, bucket: Seq<char>) -> bool {
        self.stores.dom().contains(collection) && self.stores[collection].dom().contains(bucket)
    }

    /// The stores of `collection`, by bucket.
    pub open spec fn buckets(self, collection: Seq<char>) -> Map<Seq<char>, StoreFSTView> {
        if self.stores.dom().contains(collection) {
            self.stores[collection]
        } else {
            Map::empty()
        }
    }

    /// The words of `bucket` of `collection`; none when it has no store.
    pub open spec fn words(self, collection: Seq<char>, bucket: Seq<char>) -> Seq<Seq<char>> {
        if self.has(collection, bucket) {
            self.stores[collection][bucket].words
        } else {
            Seq::empty()
        }
    }

    /// The number of buckets of `collection` that have a store.
    pub open spec fn bucket_count(self, collection: Seq<char>) -> nat {
        self.buckets(collection).dom().len()
    }

    /// Opening a store and putting one out of memory change which stores
    /// are resident, and not which buckets of a collection have a store.
    pub proof fn lemma_residency_keeps_buckets(
        self,
        collection: Seq<char>,
        bucket: Seq<char>,
        counted: Seq<char>,
    )
        ensures
            self.evicted(collection, bucket).bucket_count(counted) == self.bucket_count(counted),
            self.acquired(StoreFSTAcquireMode::OpenOnly, collection, bucket).bucket_count(counted)
                == self.bucket_count(counted),
    {
        assert(self.evicted(collection, bucket).buckets(counted).dom() =~= self.buckets(
            counted,
        ).dom());
    }

    /// Whether the lock of the store of `bucket` of `collection` admits a
    /// request in `mode`. Where there is no such store there is no lock to
    /// wait for.
    pub open spec fn instance_admits(
        self,
        collection: Seq<char>,
        bucket: Seq<char>,
        mode: StoreLockMode,
    ) -> bool {
        self.has(collection, bucket) ==> self.stores[collection][bucket].lock.admits(mode)
    }

    /// The pool with its access lock in another state.
    pub open spec fn with_access(self, access: StoreLockState) -> StoreFSTPoolView {
        StoreFSTPoolView { access, ..self }
    }

    /// The pool after its access lock was taken in `mode`.
    pub open spec fn locked(self, mode: StoreLockMode) -> StoreFSTPoolView {
        self.with_access(self.access.acquired(mode))
    }

    /// The pool after its access lock was given back in `mode`.
    pub open spec fn unlocked(self, mode: StoreLockMode) -> StoreFSTPoolView {
        self.with_access(self.access.released(mode))
    }

    /// The pool with `store` as the store of `bucket` of `collection`.
    pub open spec fn with_store(
        self,
        collection: Seq<char>,
        bucket: Seq<char>,
        store: StoreFSTView,
    ) -> StoreFSTPoolView {
        StoreFSTPoolView {
            stores: self.stores.insert(collection, self.buckets(collection).insert(bucket, store)),
            ..self
        }
    }

    /// Whether a request for the store of `bucket` of `collection` fails:
    /// backing storage does not answer, or a store would have to be created
    /// and there is room for none.
    pub open spec fn acquire_fails(
        self,
        mode: StoreFSTAcquireMode,
        collection: Seq<char>,
        bucket: Seq<char>,
    ) -> bool {
        ||| !self.available
        ||| mode is Any && !self.has(collection, bucket) && if self.stores.dom().contains(
            collection,
        ) {
            self.stores[collection].dom().len() >= u32::MAX
        } else {
            self.stores.dom().len() >= u32::MAX
        }
    }

    /// The pool after a request that did not fail: a store that exists is
    /// resident from then on, and a creating request adds a fresh store where
    /// there was none.
    pub open spec fn acquired(
        self,
        mode: StoreFSTAcquireMode,
        collection: Seq<char>,
        bucket: Seq<char>,
    ) -> StoreFSTPoolView {
        if self.has(collection, bucket) {
            self.with_store(
                collection,
                bucket,
                self.stores[collection][bucket].with_resident(true),
            )
        } else if mode is Any {
            self.with_store(collection, bucket, fresh_graph())
        } else {
            self
        }
    }

    /// The number of stores that erasing takes away.
    pub open spec fn erase_count(self, collection: Seq<char>, bucket: Option<Seq<char>>) -> nat {
        match bucket {
            Some(bucket) => if self.has(collection, bucket) {
                1
            } else {
                0
            },
            None => self.bucket_count(collection),
        }
    }

    /// The pool after an erasure: without the store of one bucket, or
    /// without any store of the collection.
    pub open spec fn erased(self, collection: Seq<char>, bucket: Option<Seq<char>>) -> StoreFSTPoolView {
        match bucket {
            Some(bucket) => if self.stores.dom().contains(collection) {
                StoreFSTPoolView {
                    stores: self.stores.insert(collection, self.stores[collection].remove(bucket)),
                    ..self
                }
            } else {
                self
            },
            None => StoreFSTPoolView { stores: self.stores.remove(collection), ..self },
        }
    }

    /// The pool after the store of `bucket` of `collection` was put out of
    /// memory: it is no longer resident, and nothing else has changed.
    pub open spec fn evicted(self, collection: Seq<char>, bucket: Seq<char>) -> StoreFSTPoolView {
        if self.has(collection, bucket) {
            self.with_store(
                collection,
                bucket,
                self.stores[collection][bucket].with_resident(false),
            )
        } else {
            self
        }
    }
}

/// The stores of one collection as plain values, by bucket.
pub closed spec fn graphs(buckets: StoreTable<StoreFST>) -> Map<Seq<char>, StoreFSTView> {
    buckets@.map_values(|store: StoreFST| store@)
}

/// The name of a bucket that may be absent, as a plain value.
pub open spec fn bucket_view(bucket: Option<&String>) -> Option<Seq<char>> {
    match bucket {
        Some(bucket) => Some(bucket@),
        None => None,
    }
}

/// Whether every store of a collection is well-formed.
spec fn graphs_wf(buckets: StoreTable<StoreFST>) -> bool {
    &&& buckets.wf()
    &&& forall|bucket: Seq<char>| #[trigger]
        graphs(buckets).dom().contains(bucket) ==> graphs(buckets)[bucket].wf()
}

/// Opens the store of `bucket` among the stores of one collection.
fn open_graph(buckets: &mut StoreTable<StoreFST>, mode: StoreFSTAcquireMode, bucket: &String) -> (opened:
    Result<Option<usize>, ()>)
    requires
        graphs_wf(*old(buckets)),
    ensures
        graphs_wf(*final(buckets)),
        opened is Err == {
            &&& mode is Any
            &&& !graphs(*old(buckets)).dom().contains(bucket@)
            &&& old(buckets).names().len() >= u32::MAX
        },
        opened is Err ==> final(buckets).names() == old(buckets).names() && graphs(*final(buckets))
            == graphs(*old(buckets)),
        match opened {
            Ok(Some(slot)) => {
                &&& slot < final(buckets).names().len()
                &&& final(buckets).names()[slot as int] == bucket@
                &&& if graphs(*old(buckets)).dom().contains(bucket@) {
                    &&& final(buckets).names() == old(buckets).names()
                    &&& graphs(*final(buckets)) == graphs(*old(buckets)).insert(
                        bucket@,
                        graphs(*old(buckets))[bucket@].with_resident(true),
                    )
                } else {
                    &&& mode is Any
                    &&& final(buckets).names() == old(buckets).names().push(bucket@)
                    &&& graphs(*final(buckets)) == graphs(*old(buckets)).insert(
                        bucket@,
                        fresh_graph(),
                    )
                }
            },
            Ok(None) => {
                &&& mode is OpenOnly
                &&& !graphs(*old(buckets)).dom().contains(bucket@)
                &&& final(buckets).names() == old(buckets).names()
                &&& graphs(*final(buckets)) == graphs(*old(buckets))
            },
            Err(_) => true,
        },
{
    let ghost before = graphs(*buckets);
    match buckets.find(bucket) {
        Some(slot) => {
            let store = buckets.at_mut(slot);
            store.resident = true;
            proof {
                assert(graphs(*buckets) =~= before.insert(
                    bucket@,
                    before[bucket@].with_resident(true),
                ));
            }
            Ok(Some(slot))
        },
        None => match mode {
            StoreFSTAcquireMode::OpenOnly => Ok(None),
            StoreFSTAcquireMode::Any => {
                if buckets.is_full() {
                    return Err(());
                }
                let slot = buckets.insert(bucket.clone(), StoreFST::new());
                proof {
                    assert(graphs(*buckets) =~= before.insert(bucket@, fresh_graph()));
                }
                Ok(Some(slot))
            },
        },
    }
}

/// The rows of the pool as they lie in memory: per collection slot, the
/// collection and the buckets of its slots.
pub struct StoreFSTRow {
    pub collection: Seq<char>,
    pub buckets: Seq<Seq<char>>,
}

/// The pool of full-text stores, one per bucket of a collection.
pub struct StoreFSTPool {
    access: StoreLock,
    available: bool,
    collections: StoreTable<StoreTable<StoreFST>>,
}

impl View for StoreFSTPool {
    type V = StoreFSTPoolView;

    closed spec fn view(&self) -> StoreFSTPoolView {
        StoreFSTPoolView {
            access: self.access@,
            available: self.available,
            stores: self.collections@.map_values(|buckets: StoreTable<StoreFST>| graphs(buckets)),
        }
    }
}

impl StoreFSTPool {
    /// Well-formedness: the tables are in order, and so is the pool as a value.
    pub open spec fn wf(&self) -> bool {
        &&& self.inv()
        &&& self@.wf()
    }

    /// What holds of the tables behind the pool.
    pub closed spec fn inv(&self) -> bool {
        &&& self.collections.wf()
        &&& forall|slot: int|
            0 <= slot < self.collections.items().len() ==> (
            #[trigger] self.collections.items()[slot]).wf()
    }

    /// The layout of the pool, by which slots are read.
    pub closed spec fn rows(&self) -> Seq<StoreFSTRow> {
        Seq::new(
            self.collections.names().len(),
            |slot: int|
                StoreFSTRow {
                    collection: self.collections.names()[slot],
                    buckets: self.collections.items()[slot].names(),
                },
        )
    }

    /// Whether `slot` points at a store of the pool.
    pub open spec fn valid_slot(&self, slot: StoreFSTSlot) -> bool {
        &&& slot.collection < self.rows().len()
        &&& slot.bucket < self.rows()[slot.collection as int].buckets.len()
    }

    /// The collection that `slot` points into.
    pub open spec fn slot_collection(&self, slot: StoreFSTSlot) -> Seq<char> {
        self.rows()[slot.collection as int].collection
    }

    /// The bucket that `slot` points at.
    pub open spec fn slot_bucket(&self, slot: StoreFSTSlot) -> Seq<char> {
        self.rows()[slot.collection as int].buckets[slot.bucket as int]
    }

    /// The store that `slot` points at, as a plain value.
    pub open spec fn stored(&self, slot: StoreFSTSlot) -> StoreFSTView {
        self@.stores[self.slot_collection(slot)][self.slot_bucket(slot)]
    }

    /// The pool with `store` in the place that `slot` points at.
    pub open spec fn with_stored(&self, slot: StoreFSTSlot, store: StoreFSTView) -> StoreFSTPoolView {
        self@.with_store(self.slot_collection(slot), self.slot_bucket(slot), store)
    }

    /// An empty pool whose backing storage is available.
    pub fn new() -> (pool: StoreFSTPool)
        ensures
            pool.wf(),
            pool@.idle(),
            pool@.available,
            pool@.stores == Map::<Seq<char>, Map<Seq<char>, StoreFSTView>>::empty(),
    {
        let pool = StoreFSTPool {
            access: StoreLock::new(),
            available: true,
            collections: StoreTable::new(),
        };
        assert(pool@.stores =~= Map::<Seq<char>, Map<Seq<char>, StoreFSTView>>::empty());
        pool
    }

    /// Marks backing storage as answering or not.
    pub fn set_available(&mut self, available: bool)
        ensures
            final(self)@ == (StoreFSTPoolView { available, ..old(self)@ }),
            final(self).rows() == old(self).rows(),
            old(self).wf() ==> final(self).wf(),
    {
        self.available = available;
    }

    /// Takes the access lock of the family in `mode`.
    pub fn lock_access(&mut self, mode: StoreLockMode)
        requires
            old(self)@.access.admits(mode),
        ensures
            final(self)@ == old(self)@.locked(mode),
            final(self).rows() == old(self).rows(),
            old(self).wf() ==> final(self).wf(),
    {
        self.access.acquire(mode);
    }

    /// Gives the access lock of the family back.
    pub fn unlock_access(&mut self, mode: StoreLockMode)
        requires
            old(self)@.access.held(mode),
        ensures
            final(self)@ == old(self)@.unlocked(mode),
            final(self).rows() == old(self).rows(),
            old(self).wf() ==> final(self).wf(),
    {
        self.access.release(mode);
    }

    /// Whether the access lock admits a request in `mode`.
    pub fn access_admits(&self, mode: StoreLockMode) -> (admitted: bool)
        ensures
            admitted == self@.access.admits(mode),
    {
        self.access.admits(mode)
    }

    /// Whether the lock of the store of `bucket` of `collection` admits a
    /// request in `mode`.
    pub fn instance_admits(&self, collection: &String, bucket: &String, mode: StoreLockMode) -> (admitted:
        bool)
        requires
            self.wf(),
        ensures
            admitted == self@.instance_admits(collection@, bucket@, mode),
    {
        match self.collections.find(collection) {
            Some(at) => {
                match self.collections.at(at).find(bucket) {
                    Some(slot) => {
                        self.collections.at(at).at(slot).lock.admits(mode)
                    },
                    None => true,
                }
            },
            None => true,
        }
    }

    /// The store that `slot` points at.
    pub fn instance(&self, slot: StoreFSTSlot) -> (store: &StoreFST)
        requires
            self.wf(),
            self.valid_slot(slot),
        ensures
            store.wf(),
            store@ == self.stored(slot),
    {
        self.collections.at(slot.collection).at(slot.bucket)
    }

    /// How the pool's stores change when the stores of one collection do.
    proof fn lemma_row_update(
        before: StoreTable<StoreTable<StoreFST>>,
        after: StoreTable<StoreTable<StoreFST>>,
        slot: int,
    )
        requires
            before.wf(),
            0 <= slot < before.names().len(),
            after.names() == before.names(),
            after.items() == before.items().update(slot, after.items()[slot]),
            after@ == before@.insert(before.names()[slot], after.items()[slot]),
        ensures
            after@.map_values(|buckets: StoreTable<StoreFST>| graphs(buckets)) == before@.map_values(
                |buckets: StoreTable<StoreFST>| graphs(buckets),
            ).insert(before.names()[slot], graphs(after.items()[slot])),
    {
    }

    /// Asks for the store of `bucket` of `collection` and returns its slot.
    /// With `OpenOnly`, that there is no such store is an answer, `None`, and
    /// no failure; with `Any` the store is then created. A store that is
    /// there is resident afterwards.
    pub fn acquire(
        &mut self,
        mode: StoreFSTAcquireMode,
        collection: &String,
        bucket: &String,
    ) -> (opened: Result<Option<StoreFSTSlot>, ()>)
        requires
            old(self).wf(),
            old(self)@.access.held_any(),
        ensures
            final(self).wf(),
            opened is Err == old(self)@.acquire_fails(mode, collection@, bucket@),
            opened is Err ==> final(self)@ == old(self)@ && final(self).rows() == old(self).rows(),
            opened is Ok ==> final(self)@ == old(self)@.acquired(mode, collection@, bucket@),
            match opened {
                Ok(Some(slot)) => {
                    &&& final(self).valid_slot(slot)
                    &&& final(self).slot_collection(slot) == collection@
                    &&& final(self).slot_bucket(slot) == bucket@
                    &&& final(self)@.has(collection@, bucket@)
                },
                Ok(None) => {
                    &&& mode is OpenOnly
                    &&& !old(self)@.has(collection@, bucket@)
                    &&& final(self).rows() == old(self).rows()
                },
                Err(_) => true,
            },
    {
        let ghost before = *self;
        proof {
            self.collections.lemma_len();
            assert(self@.stores.dom() =~= self.collections@.dom());
        }
        if !self.available {
            return Err(());
        }
        match self.collections.find(collection) {
            Some(at) => {
                proof {
                    self.collections.items()[at as int].lemma_len();
                    assert(graphs(self.collections.items()[at as int]).dom()
                        =~= self.collections.items()[at as int]@.dom());
                }
                let buckets = self.collections.at_mut(at);
                let opened = open_graph(buckets, mode, bucket);
                proof {
                    if before@.acquire_fails(mode, collection@, bucket@) {
                        assert(self@.stores =~= before@.stores);
                    } else {
                        assert(self@.stores =~= before@.acquired(mode, collection@, bucket@).stores);
                    }
                }
                match opened {
                    Ok(Some(slot)) => Ok(Some(StoreFSTSlot { collection: at, bucket: slot })),
                    Ok(None) => Ok(None),
                    Err(_) => Err(()),
                }
            },
            None => match mode {
                StoreFSTAcquireMode::OpenOnly => Ok(None),
                StoreFSTAcquireMode::Any => {
                    if self.collections.is_full() {
                        return Err(());
                    }
                    let mut buckets: StoreTable<StoreFST> = StoreTable::new();
                    let slot = buckets.insert(bucket.clone(), StoreFST::new());
                    proof {
                        assert(graphs(buckets) =~= Map::<Seq<char>, StoreFSTView>::empty().insert(
                            bucket@,
                            fresh_graph(),
                        ));
                    }
                    let at = self.collections.insert(collection.clone(), buckets);
                    proof {
                        assert(self@.stores =~= before@.acquired(mode, collection@, bucket@).stores);
                    }
                    Ok(Some(StoreFSTSlot { collection: at, bucket: slot }))
                },
            },
        }
    }

    /// How the pool changes when one of its stores does.
    proof fn lemma_store_update(before: StoreFSTPool, after: StoreFSTPool, slot: StoreFSTSlot)
        requires
            before.wf(),
            before.valid_slot(slot),
            after.access == before.access,
            after.available == before.available,
            after.collections.wf(),
            after.collections.names() == before.collections.names(),
            after.collections.items() == before.collections.items().update(
                slot.collection as int,
                after.collections.items()[slot.collection as int],
            ),
            after.collections@ == before.collections@.insert(
                before.collections.names()[slot.collection as int],
                after.collections.items()[slot.collection as int],
            ),
            after.collections.items()[slot.collection as int].wf(),
            after.collections.items()[slot.collection as int].names()
                == before.collections.items()[slot.collection as int].names(),
            after.collections.items()[slot.collection as int]@
                == before.collections.items()[slot.collection as int]@.insert(
                before.slot_bucket(slot),
                after.collections.items()[slot.collection as int].items()[slot.bucket as int],
            ),
            after.collections.items()[slot.collection as int].items()[slot.bucket as int].wf(),
        ensures
            after.wf(),
            after.rows() == before.rows(),
            after@ == before@.with_store(
                before.slot_collection(slot),
                before.slot_bucket(slot),
                after.collections.items()[slot.collection as int].items()[slot.bucket as int]@,
            ),
    {
        let bucket = before.slot_bucket(slot);
        let row = before.collections.items()[slot.collection as int];
        let row_after = after.collections.items()[slot.collection as int];
        let store = row_after.items()[slot.bucket as int];
        assert(before.slot_collection(slot) == before.collections.names()[slot.collection as int]);
        assert(graphs(row_after) =~= graphs(row).insert(bucket, store@));
        Self::lemma_row_update(before.collections, after.collections, slot.collection as int);
    }

    /// Takes the lock of the store that `slot` points at.
    pub fn lock_instance(&mut self, slot: StoreFSTSlot, mode: StoreLockMode)
        requires
            old(self).wf(),
            old(self).valid_slot(slot),
            old(self).stored(slot).lock.admits(mode),
        ensures
            final(self).wf(),
            final(self).rows() == old(self).rows(),
            final(self)@ == old(self).with_stored(slot, old(self).stored(slot).locked(mode)),
    {
        let buckets = self.collections.at_mut(slot.collection);
        let store = buckets.at_mut(slot.bucket);
        store.lock(mode);
        proof {
            Self::lemma_store_update(*old(self), *self, slot);
        }
    }

    /// Gives the lock of the store that `slot` points at back.
    pub fn unlock_instance(&mut self, slot: StoreFSTSlot, mode: StoreLockMode)
        requires
            old(self).wf(),
            old(self).valid_slot(slot),
            old(self).stored(slot).lock.held(mode),
        ensures
            final(self).wf(),
            final(self).rows() == old(self).rows(),
            final(self)@ == old(self).with_stored(slot, old(self).stored(slot).unlocked(mode)),
    {
        let buckets = self.collections.at_mut(slot.collection);
        let store = buckets.at_mut(slot.bucket);
        store.unlock(mode);
        proof {
            Self::lemma_store_update(*old(self), *self, slot);
        }
    }

    /// Adds `words` to the store that `slot` points at, under the write lock
    /// that the caller holds on it. A refusal leaves the pool as it was.
    pub fn push_words(&mut self, slot: StoreFSTSlot, words: &Vec<String>) -> (pushed: Result<(), ()>)
        requires
            old(self).wf(),
            old(self).valid_slot(slot),
            old(self).stored(slot).lock.held(StoreLockMode::Exclusive),
        ensures
            final(self).wf(),
            final(self).rows() == old(self).rows(),
            pushed is Err == old(self).stored(slot).push_refused(terms_view(words@)),
            pushed is Err ==> final(self)@ == old(self)@,
            pushed is Ok ==> final(self)@ == old(self).with_stored(
                slot,
                old(self).stored(slot).pushed(terms_view(words@)),
            ),
    {
        let buckets = self.collections.at_mut(slot.collection);
        let store = buckets.at_mut(slot.bucket);
        let pushed = store.push_words(words);
        proof {
            Self::lemma_store_update(*old(self), *self, slot);
            if pushed is Err {
                let collection = old(self).slot_collection(slot);
                assert(self@.stores[collection] =~= old(self)@.stores[collection]);
                assert(self@.stores =~= old(self)@.stores);
            }
        }
        pushed
    }

    /// Removes the store of one bucket, or with `None` every store of the
    /// collection, from the pool and from backing storage, and returns how
    /// many stores went. That there was nothing to remove is no failure. The
    /// caller holds the access lock exclusively: the pool's structure changes
    /// and no handle outlives the call.
    pub fn erase(&mut self, collection: &String, bucket: Option<&String>) -> (erased: Result<u32, ()>)
        requires
            old(self).wf(),
            old(self)@.access.held(StoreLockMode::Exclusive),
        ensures
            final(self).wf(),
            erased is Err == !old(self)@.available,
            erased is Err ==> final(self)@ == old(self)@,
            erased is Ok ==> {
                &&& erased->Ok_0 == old(self)@.erase_count(collection@, bucket_view(bucket))
                &&& final(self)@ == old(self)@.erased(collection@, bucket_view(bucket))
            },
    {
        let ghost before = *self;
        if !self.available {
            return Err(());
        }
        match self.collections.find(collection) {
            None => {
                proof {
                    assert(self@.stores.remove(collection@) =~= self@.stores);
                }
                Ok(0)
            },
            Some(at) => {
                proof {
                    self.collections.items()[at as int].lemma_len();
                    assert(graphs(self.collections.items()[at as int]).dom()
                        =~= self.collections.items()[at as int]@.dom());
                }
                match bucket {
                    Some(bucket) => {
                        let buckets = self.collections.at_mut(at);
                        let count: u32 = match buckets.find(bucket) {
                            Some(slot) => {
                                let _ = buckets.remove(slot);
                                1
                            },
                            None => 0,
                        };
                        proof {
                            let row = before.collections.items()[at as int];
                            let row_after = self.collections.items()[at as int];
                            assert(graphs(row_after) =~= graphs(row).remove(bucket@));
                            Self::lemma_row_update(before.collections, self.collections, at as int);
                        }
                        Ok(count)
                    },
                    None => {
                        let row = self.collections.remove(at);
                        proof {
                            assert(self@.stores =~= before@.stores.remove(collection@));
                        }
                        let count = row.len();
                        Ok(count as u32)
                    },
                }
            },
        }
    }

    /// Puts the store of `bucket` of `collection` out of memory; it stays on
    /// backing storage. Returns whether there was such a store. The caller
    /// holds the access lock exclusively, so that nobody works on a store
    /// while it is closed.
    pub fn evict(&mut self, collection: &String, bucket: &String) -> (found: bool)
        requires
            old(self).wf(),
            old(self)@.access.held(StoreLockMode::Exclusive),
        ensures
            final(self).wf(),
            found == old(self)@.has(collection@, bucket@),
            final(self)@ == old(self)@.evicted(collection@, bucket@),
            final(self).rows() == old(self).rows(),
    {
        match self.collections.find(collection) {
            None => false,
            Some(at) => {
                match self.collections.at(at).find(bucket) {
                    None => false,
                    Some(slot) => {
                        let ghost handle = StoreFSTSlot { collection: at, bucket: slot };
                        let buckets = self.collections.at_mut(at);
                        let store = buckets.at_mut(slot);
                        store.resident = false;
                        proof {
                            Self::lemma_store_update(*old(self), *self, handle);
                        }
                        true
                    },
                }
            },
        }
    }
}

/// What is asked of backing storage directly, past the pool.
pub struct StoreFSTMisc;

impl StoreFSTMisc {
    /// Counts the buckets of `collection` that have a store on backing
    /// storage, by listing it. No lock is taken and no store is opened, and
    /// whether the pool has a store open plays no part.
    pub fn count_collection_buckets(pool: &StoreFSTPool, collection: &String) -> (count: Result<
        usize,
        (),
    >)
        requires
            pool.wf(),
        ensures
            !pool@.available ==> count is Err,
            pool@.available ==> count == Ok::<usize, ()>(pool@.bucket_count(collection@) as usize)
                && pool@.bucket_count(collection@) <= u32::MAX,
    {
        if !pool.available {
            return Err(());
        }
        match pool.collections.find(collection) {
            Some(at) => {
                proof {
                    pool.collections.items()[at as int].lemma_len();
                    assert(graphs(pool.collections.items()[at as int]).dom()
                        =~= pool.collections.items()[at as int]@.dom());
                }
                Ok(pool.collections.at(at).len())
            },
            None => {
                Ok(0)
            },
        }
    }
}

} // verus!
