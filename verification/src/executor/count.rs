//! The count operation.
//!
//! What is counted depends on the address: the terms indexed for an object,
//! the distinct words of a bucket, or the buckets of a collection.
use crate::executor::contention::{count_holding_fst, count_holding_kv};
use crate::fst::{StoreFSTAcquireMode, StoreFSTMisc, StoreFSTPoolView};
use crate::ident::{draw_lock_id, is_lock_id, lemma_lock_id_exists};
use crate::item::{StoreItem, StoreItemScope, StoreItemView};
use crate::kv::{StoreKVAcquireMode, StoreKVPoolView};
use crate::lock::{
    acquire_event, appended, disciplined, lemma_appended, lemma_replay_bracket,
    release_event,
    StoreLockEventView, StoreLockFamily, StoreLockMode, StoreLockPhase, StoreLockTier,
};
use crate::registry::StoreRegistry;
use vstd::prelude::*;

verus! {

/// The number of terms indexed for `object` in `bucket` of `collection`, out
/// of the key/value side. The count fails when the engine opens no instance,
/// when the collection has none, or when the engine behind the instance does
/// not answer. An object that is not indexed counts zero terms.
pub open spec fn count_object(
    kv: StoreKVPoolView,
    collection: Seq<char>,
    bucket: Seq<char>,
    object: Seq<char>,
) -> Result<u32, ()> {
    if kv.answers(collection) {
        Ok(kv.terms_of(collection, bucket, object).len() as u32)
    } else {
        Err(())
    }
}

/// The number of distinct words of `bucket` of `collection`, out of the
/// full-text side. The count fails when backing storage does not answer or
/// the bucket has no store.
pub open spec fn count_bucket(fst: StoreFSTPoolView, collection: Seq<char>, bucket: Seq<char>) -> Result<
    u32,
    (),
> {
    if fst.available && fst.has(collection, bucket) {
        Ok(fst.words(collection, bucket).len() as u32)
    } else {
        Err(())
    }
}

/// The number of buckets of `collection` that have a store on backing
/// storage. The count fails when backing storage does not answer.
pub open spec fn count_collection(fst: StoreFSTPoolView, collection: Seq<char>) -> Result<u32, ()> {
    if fst.available {
        Ok(fst.bucket_count(collection) as u32)
    } else {
        Err(())
    }
}

/// What counting at `item` returns.
pub open spec fn count_outcome(kv: StoreKVPoolView, fst: StoreFSTPoolView, item: StoreItemView) -> Result<
    u32,
    (),
> {
    if item.is_object() {
        count_object(kv, item.collection, item.bucket->Some_0, item.object->Some_0)
    } else if item.is_bucket() {
        count_bucket(fst, item.collection, item.bucket->Some_0)
    } else if item.is_collection() {
        count_collection(fst, item.collection)
    } else {
        Err(())
    }
}

/// Whether counting at `item` is admitted at once: every lock that it takes
/// is in a state that admits a reader. Counting takes shared locks only, so
/// other readers, however many, never keep it waiting.
pub open spec fn count_admitted(kv: StoreKVPoolView, fst: StoreFSTPoolView, item: StoreItemView) -> bool {
    if item.is_object() {
        &&& kv.access.admits(StoreLockMode::Shared)
        &&& kv.instance_admits(item.collection, StoreLockMode::Shared)
    } else if item.is_bucket() {
        fst.access.admits(StoreLockMode::Shared)
    } else {
        true
    }
}

/// The full-text side after counting at `item`: counting a bucket opens its
/// store, which is resident from then on. Nothing else changes.
pub open spec fn count_opened(fst: StoreFSTPoolView, item: StoreItemView) -> StoreFSTPoolView {
    if item.is_bucket() && fst.available {
        fst.acquired(StoreFSTAcquireMode::OpenOnly, item.collection, item.bucket->Some_0)
    } else {
        fst
    }
}

/// The lock events of counting at `item`, in order. An object is counted
/// under the shared access lock of the key/value family and, where the
/// collection has an instance, under the read lock of that instance. A bucket
/// is counted under the shared access lock of the full-text family. Counting
/// the buckets of a collection takes no lock, and neither does an address
/// that names nothing.
pub open spec fn count_journal(id: Seq<char>, kv: StoreKVPoolView, item: StoreItemView) -> Seq<
    StoreLockEventView,
> {
    if item.is_object() {
        if kv.available && kv.stores.dom().contains(item.collection) {
            seq![
                acquire_event(id, StoreLockFamily::KV, StoreLockTier::Access, StoreLockMode::Shared),
                acquire_event(id, StoreLockFamily::KV, StoreLockTier::Instance, StoreLockMode::Shared),
                release_event(id, StoreLockFamily::KV, StoreLockTier::Instance, StoreLockMode::Shared),
                release_event(id, StoreLockFamily::KV, StoreLockTier::Access, StoreLockMode::Shared),
            ]
        } else {
            seq![
                acquire_event(id, StoreLockFamily::KV, StoreLockTier::Access, StoreLockMode::Shared),
                release_event(id, StoreLockFamily::KV, StoreLockTier::Access, StoreLockMode::Shared),
            ]
        }
    } else if item.is_bucket() {
        seq![
            acquire_event(id, StoreLockFamily::FST, StoreLockTier::Access, StoreLockMode::Shared),
            release_event(id, StoreLockFamily::FST, StoreLockTier::Access, StoreLockMode::Shared),
        ]
    } else {
        Seq::empty()
    }
}

/// An address that names nothing is refused, and nothing happens: no store
/// changes and no lock is taken.
pub proof fn lemma_count_invalid(
    kv: StoreKVPoolView,
    fst: StoreFSTPoolView,
    item: StoreItemView,
    id: Seq<char>,
)
    requires
        !item.is_valid(),
    ensures
        count_outcome(kv, fst, item) is Err,
        count_opened(fst, item) == fst,
        count_journal(id, kv, item) == Seq::<StoreLockEventView>::empty(),
{
}

/// Counting an object that was never indexed gives zero, wherever the
/// collection has an instance whose engine answers.
pub proof fn lemma_count_unindexed_object(
    kv: StoreKVPoolView,
    fst: StoreFSTPoolView,
    item: StoreItemView,
)
    requires
        item.is_object(),
        kv.answers(item.collection),
        kv.object(item.collection, item.bucket->Some_0, item.object->Some_0) is None,
    ensures
        count_outcome(kv, fst, item) == Ok::<u32, ()>(0),
{
}

/// What is counted are sets: the count of an object is the number of
/// distinct terms indexed for it, and the count of a bucket the number of
/// its distinct words.
pub proof fn lemma_count_is_set_size(
    kv: StoreKVPoolView,
    fst: StoreFSTPoolView,
    collection: Seq<char>,
    bucket: Seq<char>,
    object: Seq<char>,
)
    requires
        kv.wf(),
        fst.wf(),
    ensures
        count_object(kv, collection, bucket, object) is Ok ==> count_object(
            kv,
            collection,
            bucket,
            object,
        )->Ok_0 == kv.terms_of(collection, bucket, object).to_set().len(),
        count_bucket(fst, collection, bucket) is Ok ==> count_bucket(fst, collection, bucket)->Ok_0
            == fst.words(collection, bucket).to_set().len(),
{
    if kv.object(collection, bucket, object) is Some {
        assert(kv.stores.dom().contains(collection));
        assert(kv.stores[collection].buckets.dom().contains(bucket));
        assert(kv.stores[collection].buckets[bucket].objects.dom().contains(object));
        assert(kv.stores[collection].buckets[bucket].objects[object].wf());
    }
    kv.terms_of(collection, bucket, object).unique_seq_to_set();
    if fst.has(collection, bucket) {
        assert(fst.stores[collection][bucket].wf());
    }
    fst.words(collection, bucket).unique_seq_to_set();
}

/// Counting a bucket that has no store fails; counting one whose store is
/// empty gives zero.
pub proof fn lemma_count_bucket_store(kv: StoreKVPoolView, fst: StoreFSTPoolView, item: StoreItemView)
    requires
        item.is_bucket(),
    ensures
        !fst.has(item.collection, item.bucket->Some_0) ==> count_outcome(kv, fst, item) is Err,
        fst.available && fst.has(item.collection, item.bucket->Some_0) && fst.words(
            item.collection,
            item.bucket->Some_0,
        ).len() == 0 ==> count_outcome(kv, fst, item) == Ok::<u32, ()>(0),
{
}

/// Counting a collection gives the number of its buckets that have a store
/// on backing storage.
pub proof fn lemma_count_collection(kv: StoreKVPoolView, fst: StoreFSTPoolView, item: StoreItemView)
    requires
        fst.wf(),
        fst.available,
        item.is_collection(),
    ensures
        count_outcome(kv, fst, item) is Ok,
        count_outcome(kv, fst, item)->Ok_0 as nat == fst.bucket_count(item.collection),
{
}

/// The count of a collection depends on which of its buckets have a store,
/// and on nothing else: not on which stores the pool has open, not on what
/// they hold.
pub proof fn lemma_count_collection_ignores_residency(
    kv: StoreKVPoolView,
    fst: StoreFSTPoolView,
    other: StoreFSTPoolView,
    item: StoreItemView,
)
    requires
        item.is_collection(),
        fst.available == other.available,
        fst.buckets(item.collection).dom() == other.buckets(item.collection).dom(),
    ensures
        count_outcome(kv, fst, item) == count_outcome(kv, other, item),
{
}

/// Counting keeps no lock: pools that were idle before the count are idle
/// after it.
pub proof fn lemma_count_keeps_idle(fst: StoreFSTPoolView, item: StoreItemView)
    requires
        fst.idle(),
    ensures
        count_opened(fst, item).idle(),
{
}

/// Counting takes its locks in the global order, gives them back in
/// reverse, and keeps none.
pub proof fn lemma_count_disciplined(id: Seq<char>, kv: StoreKVPoolView, item: StoreItemView)
    ensures
        disciplined(count_journal(id, kv, item)),
{
    let none = Seq::<StoreLockEventView>::empty();
    let journal = count_journal(id, kv, item);
    if item.is_object() {
        let access = acquire_event(
            id,
            StoreLockFamily::KV,
            StoreLockTier::Access,
            StoreLockMode::Shared,
        );
        if kv.available && kv.stores.dom().contains(item.collection) {
            lemma_replay_bracket(
                seq![access],
                none,
                id,
                StoreLockFamily::KV,
                StoreLockTier::Instance,
                StoreLockMode::Shared,
            );
            let inner = seq![
                acquire_event(id, StoreLockFamily::KV, StoreLockTier::Instance, StoreLockMode::Shared),
            ] + none + seq![
                release_event(id, StoreLockFamily::KV, StoreLockTier::Instance, StoreLockMode::Shared),
            ];
            lemma_replay_bracket(
                none,
                inner,
                id,
                StoreLockFamily::KV,
                StoreLockTier::Access,
                StoreLockMode::Shared,
            );
            assert(journal =~= seq![access] + inner + seq![
                release_event(id, StoreLockFamily::KV, StoreLockTier::Access, StoreLockMode::Shared),
            ]);
        } else {
            lemma_replay_bracket(
                none,
                none,
                id,
                StoreLockFamily::KV,
                StoreLockTier::Access,
                StoreLockMode::Shared,
            );
            assert(journal =~= seq![access] + none + seq![
                release_event(id, StoreLockFamily::KV, StoreLockTier::Access, StoreLockMode::Shared),
            ]);
        }
    } else if item.is_bucket() {
        let access = acquire_event(
            id,
            StoreLockFamily::FST,
            StoreLockTier::Access,
            StoreLockMode::Shared,
        );
        lemma_replay_bracket(
            none,
            none,
            id,
            StoreLockFamily::FST,
            StoreLockTier::Access,
            StoreLockMode::Shared,
        );
        assert(journal =~= seq![access] + none + seq![
            release_event(id, StoreLockFamily::FST, StoreLockTier::Access, StoreLockMode::Shared),
        ]);
    }
}

/// The count operation.
pub struct ExecutorCount;

impl ExecutorCount {
    /// Whether counting at `store` is admitted at once.
    pub fn admitted(registry: &StoreRegistry, store: &StoreItem) -> (admitted: bool)
        requires
            registry.wf(),
        ensures
            admitted == count_admitted(registry.kv@, registry.fst@, store@),
    {
        match store.scope() {
            StoreItemScope::Object(collection, _, _) => registry.kv.access_admits(
                StoreLockMode::Shared,
            ) && registry.kv.instance_admits(collection, StoreLockMode::Shared),
            StoreItemScope::Bucket(_, _) => registry.fst.access_admits(StoreLockMode::Shared),
            _ => true,
        }
    }

    /// Counts at `store` if that is admitted at once, and returns `None`,
    /// with nothing changed, if the count would have to wait for a lock.
    pub fn try_execute(registry: &mut StoreRegistry, store: StoreItem) -> (count: Option<
        Result<u32, ()>,
    >)
        requires
            old(registry).wf(),
        ensures
            final(registry).wf(),
            old(registry).idle() ==> final(registry).idle(),
            disciplined(appended(old(registry).journal@, final(registry).journal@)),
            count is Some == count_admitted(old(registry).kv@, old(registry).fst@, store@),
            count is None ==> final(registry).kv@ == old(registry).kv@ && final(registry).fst@
                == old(registry).fst@ && final(registry).journal@ == old(registry).journal@,
            count is Some ==> count->Some_0 == count_outcome(
                old(registry).kv@,
                old(registry).fst@,
                store@,
            ) && final(registry).kv@ == old(registry).kv@ && final(registry).fst@ == count_opened(
                old(registry).fst@,
                store@,
            ) && exists|id: Seq<char>|
                is_lock_id(id) && final(registry).journal@ == old(registry).journal@
                    + #[trigger] count_journal(id, old(registry).kv@, store@),
    {
        if Self::admitted(registry, &store) {
            Some(Self::execute(registry, store))
        } else {
            None
        }
    }

    /// Counts at `store`, under a freshly drawn operation identifier.
    pub fn execute(registry: &mut StoreRegistry, store: StoreItem) -> (count: Result<u32, ()>)
        requires
            old(registry).wf(),
            count_admitted(old(registry).kv@, old(registry).fst@, store@),
        ensures
            final(registry).wf(),
            old(registry).idle() ==> final(registry).idle(),
            disciplined(appended(old(registry).journal@, final(registry).journal@)),
            count == count_outcome(old(registry).kv@, old(registry).fst@, store@),
            final(registry).kv@ == old(registry).kv@,
            final(registry).fst@ == count_opened(old(registry).fst@, store@),
            exists|id: Seq<char>|
                is_lock_id(id) && final(registry).journal@ == old(registry).journal@
                    + #[trigger] count_journal(id, old(registry).kv@, store@),
            !store@.is_valid() ==> {
                &&& count is Err
                &&& final(registry).fst@ == old(registry).fst@
                &&& final(registry).journal@ == old(registry).journal@
            },
            store@.is_object() && old(registry).kv@.answers(store@.collection) && old(
                registry,
            ).kv@.object(store@.collection, store@.bucket->Some_0, store@.object->Some_0) is None
                ==> count == Ok::<u32, ()>(0),
            store@.is_bucket() && !old(registry).fst@.has(store@.collection, store@.bucket->Some_0)
                ==> count is Err,
            store@.is_bucket() && old(registry).fst@.available && old(registry).fst@.has(
                store@.collection,
                store@.bucket->Some_0,
            ) && old(registry).fst@.words(store@.collection, store@.bucket->Some_0).len() == 0
                ==> count == Ok::<u32, ()>(0),
            store@.is_collection() && old(registry).fst@.available ==> {
                &&& count is Ok
                &&& count->Ok_0 == old(registry).fst@.bucket_count(store@.collection)
            },
    {
        let locks = match store.scope() {
            StoreItemScope::Object(_, _, _) => true,
            StoreItemScope::Bucket(_, _) => true,
            _ => false,
        };
        if locks {
            let id = draw_lock_id();
            Self::execute_with_id(registry, store, &id)
        } else {
            // No lock is taken, so nothing is recorded and no identifier is drawn.
            let id = String::new();
            proof {
                let any = lemma_lock_id_exists();
                assert(count_journal(any, registry.kv@, store@) == count_journal(
                    id@,
                    registry.kv@,
                    store@,
                ));
            }
            Self::execute_with_id(registry, store, &id)
        }
    }

    /// Counts at `store`, and records its lock events under `id`.
    pub fn execute_with_id(registry: &mut StoreRegistry, store: StoreItem, id: &String) -> (count:
        Result<u32, ()>)
        requires
            old(registry).wf(),
            count_admitted(old(registry).kv@, old(registry).fst@, store@),
        ensures
            final(registry).wf(),
            old(registry).idle() ==> final(registry).idle(),
            disciplined(appended(old(registry).journal@, final(registry).journal@)),
            count == count_outcome(old(registry).kv@, old(registry).fst@, store@),
            final(registry).kv@ == old(registry).kv@,
            final(registry).fst@ == count_opened(old(registry).fst@, store@),
            final(registry).journal@ == old(registry).journal@ + count_journal(
                id@,
                old(registry).kv@,
                store@,
            ),
            !store@.is_valid() ==> {
                &&& count is Err
                &&& final(registry).fst@ == old(registry).fst@
                &&& final(registry).journal@ == old(registry).journal@
            },
            store@.is_object() && old(registry).kv@.answers(store@.collection) && old(
                registry,
            ).kv@.object(store@.collection, store@.bucket->Some_0, store@.object->Some_0) is None
                ==> count == Ok::<u32, ()>(0),
            store@.is_bucket() && !old(registry).fst@.has(store@.collection, store@.bucket->Some_0)
                ==> count is Err,
            store@.is_bucket() && old(registry).fst@.available && old(registry).fst@.has(
                store@.collection,
                store@.bucket->Some_0,
            ) && old(registry).fst@.words(store@.collection, store@.bucket->Some_0).len() == 0
                ==> count == Ok::<u32, ()>(0),
            store@.is_collection() && old(registry).fst@.available ==> {
                &&& count is Ok
                &&& count->Ok_0 == old(registry).fst@.bucket_count(store@.collection)
            },
    {
        proof {
            lemma_count_disciplined(id@, registry.kv@, store@);
            lemma_appended(registry.journal@, count_journal(id@, registry.kv@, store@));
        }
        match store.scope() {
            StoreItemScope::Object(collection, bucket, object) => Self::count_object(
                registry,
                collection,
                bucket,
                object,
                id,
            ),
            StoreItemScope::Bucket(collection, bucket) => Self::count_bucket(
                registry,
                collection,
                bucket,
                id,
            ),
            StoreItemScope::Collection(collection) => {
                match StoreFSTMisc::count_collection_buckets(&registry.fst, collection) {
                    Ok(count) => Ok(count as u32),
                    Err(_) => Err(()),
                }
            },
            StoreItemScope::Invalid => Err(()),
        }
    }

    /// Counts the terms of one object.
    fn count_object(
        registry: &mut StoreRegistry,
        collection: &String,
        bucket: &String,
        object: &String,
        id: &String,
    ) -> (count: Result<u32, ()>)
        requires
            old(registry).wf(),
            old(registry).kv@.access.admits(StoreLockMode::Shared),
            old(registry).kv@.instance_admits(collection@, StoreLockMode::Shared),
        ensures
            final(registry).wf(),
            count == count_object(old(registry).kv@, collection@, bucket@, object@),
            final(registry).kv@ == old(registry).kv@,
            final(registry).fst@ == old(registry).fst@,
            final(registry).journal@ == old(registry).journal@ + count_journal(
                id@,
                old(registry).kv@,
                StoreItemView {
                    collection: collection@,
                    bucket: Some(bucket@),
                    object: Some(object@),
                },
            ),
    {
        let ghost before = old(registry).kv@;
        // The access lock keeps the instance from being torn down while it is read.
        registry.kv.lock_access(StoreLockMode::Shared);
        registry.journal.record(
            id,
            StoreLockFamily::KV,
            StoreLockTier::Access,
            StoreLockMode::Shared,
            StoreLockPhase::Acquire,
        );
        let opened = registry.kv.acquire(StoreKVAcquireMode::OpenOnly, collection);
        let count = match opened {
            Ok(Some(slot)) => {
                let kv_store = registry.kv.instance_mut(slot);
                kv_store.lock(StoreLockMode::Shared);
                registry.journal.record(
                    id,
                    StoreLockFamily::KV,
                    StoreLockTier::Instance,
                    StoreLockMode::Shared,
                    StoreLockPhase::Acquire,
                );
                // From here to the release the pool is in the state in which
                // a flush of this collection is kept waiting.
                assert(registry.kv@ == count_holding_kv(
                    before,
                    StoreItemView {
                        collection: collection@,
                        bucket: Some(bucket@),
                        object: Some(object@),
                    },
                ));
                let kv_store = registry.kv.instance(slot);
                let count = match kv_store.get_oid_to_iid(bucket, object) {
                    Ok(Some(iid)) => {
                        match kv_store.get_iid_to_terms(bucket, iid) {
                            Ok(Some(terms)) => Ok(terms.len() as u32),
                            Ok(None) => Ok(0),
                            Err(_) => Err(()),
                        }
                    },
                    Ok(None) => Ok(0),
                    Err(_) => Err(()),
                };
                let kv_store = registry.kv.instance_mut(slot);
                kv_store.unlock(StoreLockMode::Shared);
                registry.journal.record(
                    id,
                    StoreLockFamily::KV,
                    StoreLockTier::Instance,
                    StoreLockMode::Shared,
                    StoreLockPhase::Release,
                );
                proof {
                    assert(registry.kv@.stores =~= before.stores);
                }
                count
            },
            _ => Err(()),
        };
        registry.kv.unlock_access(StoreLockMode::Shared);
        registry.journal.record(
            id,
            StoreLockFamily::KV,
            StoreLockTier::Access,
            StoreLockMode::Shared,
            StoreLockPhase::Release,
        );
        count
    }

    /// Counts the words of one bucket.
    fn count_bucket(registry: &mut StoreRegistry, collection: &String, bucket: &String, id: &String) -> (count:
        Result<u32, ()>)
        requires
            old(registry).wf(),
            old(registry).fst@.access.admits(StoreLockMode::Shared),
        ensures
            final(registry).wf(),
            count == count_bucket(old(registry).fst@, collection@, bucket@),
            final(registry).kv@ == old(registry).kv@,
            final(registry).fst@ == count_opened(
                old(registry).fst@,
                StoreItemView { collection: collection@, bucket: Some(bucket@), object: None },
            ),
            final(registry).journal@ == old(registry).journal@ + count_journal(
                id@,
                old(registry).kv@,
                StoreItemView { collection: collection@, bucket: Some(bucket@), object: None },
            ),
    {
        // The access lock keeps the store from being erased while it is read.
        registry.fst.lock_access(StoreLockMode::Shared);
        registry.journal.record(
            id,
            StoreLockFamily::FST,
            StoreLockTier::Access,
            StoreLockMode::Shared,
            StoreLockPhase::Acquire,
        );
        // From here to the release the pool is in the state in which every
        // flush is kept waiting.
        assert(registry.fst@ == count_holding_fst(
            old(registry).fst@,
            StoreItemView { collection: collection@, bucket: Some(bucket@), object: None },
        ));
        let count = match registry.fst.acquire(StoreFSTAcquireMode::OpenOnly, collection, bucket) {
            Ok(Some(slot)) => Ok(registry.fst.instance(slot).count_words() as u32),
            _ => Err(()),
        };
        registry.fst.unlock_access(StoreLockMode::Shared);
        registry.journal.record(
            id,
            StoreLockFamily::FST,
            StoreLockTier::Access,
            StoreLockMode::Shared,
            StoreLockPhase::Release,
        );
        count
    }
}

} // verus!
