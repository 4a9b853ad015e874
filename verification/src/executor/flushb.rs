//! The bucket flush: erases what both stores hold for one bucket.
use crate::fst::StoreFSTPoolView;
use crate::ident::{draw_lock_id, is_lock_id, lemma_lock_id_exists};
use crate::item::{StoreItem, StoreItemScope, StoreItemView};
use crate::kv::{StoreKVAcquireMode, StoreKVPoolView};
use crate::executor::contention::{flush_holding_fst, flush_holding_kv};
use crate::executor::count::{count_bucket, count_object};
use crate::lock::{
    acquire_event, appended, disciplined, lemma_appended, lemma_replay_bracket,
    release_event,
    StoreLockEventView, StoreLockFamily, StoreLockMode, StoreLockPhase, StoreLockTier,
};
use crate::registry::StoreRegistry;
use vstd::prelude::*;

verus! {

/// Whether flushing at `item` reaches the key/value erasure and the erasure
/// succeeds: the address names a bucket, the engine opens instances, the
/// collection has one, and the engine behind it answers.
pub open spec fn flush_erases(kv: StoreKVPoolView, item: StoreItemView) -> bool {
    item.is_bucket() && kv.answers(item.collection)
}

/// The number of key/value entries that the bucket of `item` holds.
pub open spec fn flush_entries(kv: StoreKVPoolView, item: StoreItemView) -> nat {
    kv.stores[item.collection].entries(item.bucket->Some_0)
}

/// What flushing at `item` returns. Only the address of a bucket is
/// accepted. A collection without an instance and a bucket without entries
/// count as erased already, and give zero. Otherwise the entries are erased
/// on the key/value side and the bucket's store on the full-text side, and
/// the number of entries is returned if both steps succeed.
pub open spec fn flush_outcome(kv: StoreKVPoolView, fst: StoreFSTPoolView, item: StoreItemView) -> Result<
    u32,
    (),
> {
    if !item.is_bucket() || !kv.available {
        Err(())
    } else if !kv.stores.dom().contains(item.collection) {
        Ok(0)
    } else if !kv.stores[item.collection].healthy {
        Err(())
    } else if flush_entries(kv, item) == 0 {
        Ok(0)
    } else if !fst.available {
        Err(())
    } else {
        Ok(flush_entries(kv, item) as u32)
    }
}

/// The key/value side after flushing at `item`: where the erasure is
/// reached and succeeds, the instance of the collection is without the
/// region of the bucket. What the full-text side does afterwards does not
/// bring the entries back.
pub open spec fn flush_kv(kv: StoreKVPoolView, item: StoreItemView) -> StoreKVPoolView {
    if item.is_bucket() {
        kv.bucket_erased(item.collection, item.bucket->Some_0)
    } else {
        kv
    }
}

/// The full-text side after flushing at `item`: where entries were erased on
/// the key/value side and backing storage answers, the store of the bucket
/// is gone.
pub open spec fn flush_fst(kv: StoreKVPoolView, fst: StoreFSTPoolView, item: StoreItemView) -> StoreFSTPoolView {
    if flush_erases(kv, item) && flush_entries(kv, item) > 0 && fst.available {
        fst.erased(item.collection, item.bucket)
    } else {
        fst
    }
}

/// Whether flushing at `item` is admitted at once: the access lock of the
/// key/value family admits a reader, the access lock of the full-text
/// family is free, and so is the lock of the collection's instance.
pub open spec fn flush_admitted(kv: StoreKVPoolView, fst: StoreFSTPoolView, item: StoreItemView) -> bool {
    item.is_bucket() ==> {
        &&& kv.access.admits(StoreLockMode::Shared)
        &&& fst.access.admits(StoreLockMode::Exclusive)
        &&& kv.instance_admits(item.collection, StoreLockMode::Exclusive)
    }
}

/// The lock events of flushing at `item`, in order: both access locks
/// first, the key/value one shared and the full-text one exclusive, since a
/// store may leave the full-text pool; then, where the collection has an
/// instance, the write lock of that instance. An address that names no
/// bucket takes no lock.
pub open spec fn flush_journal(id: Seq<char>, kv: StoreKVPoolView, item: StoreItemView) -> Seq<
    StoreLockEventView,
> {
    if !item.is_bucket() {
        Seq::empty()
    } else if kv.available && kv.stores.dom().contains(item.collection) {
        seq![
            acquire_event(id, StoreLockFamily::KV, StoreLockTier::Access, StoreLockMode::Shared),
            acquire_event(id, StoreLockFamily::FST, StoreLockTier::Access, StoreLockMode::Exclusive),
            acquire_event(id, StoreLockFamily::KV, StoreLockTier::Instance, StoreLockMode::Exclusive),
            release_event(id, StoreLockFamily::KV, StoreLockTier::Instance, StoreLockMode::Exclusive),
            release_event(id, StoreLockFamily::FST, StoreLockTier::Access, StoreLockMode::Exclusive),
            release_event(id, StoreLockFamily::KV, StoreLockTier::Access, StoreLockMode::Shared),
        ]
    } else {
        seq![
            acquire_event(id, StoreLockFamily::KV, StoreLockTier::Access, StoreLockMode::Shared),
            acquire_event(id, StoreLockFamily::FST, StoreLockTier::Access, StoreLockMode::Exclusive),
            release_event(id, StoreLockFamily::FST, StoreLockTier::Access, StoreLockMode::Exclusive),
            release_event(id, StoreLockFamily::KV, StoreLockTier::Access, StoreLockMode::Shared),
        ]
    }
}

/// An address that does not name a bucket is refused, and nothing happens:
/// no store changes and no lock is taken.
pub proof fn lemma_flush_invalid(
    kv: StoreKVPoolView,
    fst: StoreFSTPoolView,
    item: StoreItemView,
    id: Seq<char>,
)
    requires
        !item.is_bucket(),
    ensures
        flush_outcome(kv, fst, item) is Err,
        flush_kv(kv, item) == kv,
        flush_fst(kv, fst, item) == fst,
        flush_journal(id, kv, item) == Seq::<StoreLockEventView>::empty(),
{
}

/// A flush that reaches the key/value erasure leaves the bucket without
/// entries, and every other bucket and collection as it was.
pub proof fn lemma_flush_erases_bucket(kv: StoreKVPoolView, item: StoreItemView)
    requires
        flush_erases(kv, item),
    ensures
        flush_entries(flush_kv(kv, item), item) == 0,
        forall|object: Seq<char>|
            flush_kv(kv, item).stores[item.collection].object(item.bucket->Some_0, object) is None,
        forall|bucket: Seq<char>|
            bucket != item.bucket->Some_0 ==> flush_kv(kv, item).stores[item.collection].bucket(
                bucket,
            ) == kv.stores[item.collection].bucket(bucket),
        forall|collection: Seq<char>|
            collection != item.collection ==> flush_kv(kv, item).stores.dom().contains(collection)
                == kv.stores.dom().contains(collection) && flush_kv(kv, item).stores[collection]
                == kv.stores[collection],
{
}

/// A flush of a bucket without entries changes nothing.
pub proof fn lemma_flush_of_nothing(kv: StoreKVPoolView, fst: StoreFSTPoolView, item: StoreItemView)
    requires
        kv.wf(),
        flush_erases(kv, item),
        flush_entries(kv, item) == 0,
    ensures
        flush_outcome(kv, fst, item) == Ok::<u32, ()>(0),
        flush_kv(kv, item) == kv,
        flush_fst(kv, fst, item) == fst,
{
    let store = kv.stores[item.collection];
    let bucket = item.bucket->Some_0;
    assert(store.buckets.remove(bucket) =~= store.buckets);
    assert(kv.stores.insert(item.collection, store) =~= kv.stores);
}

/// Flushing is idempotent: after a flush that succeeded, a second flush of
/// the same bucket succeeds with zero and changes nothing.
pub proof fn lemma_flush_idempotent(kv: StoreKVPoolView, fst: StoreFSTPoolView, item: StoreItemView)
    requires
        flush_outcome(kv, fst, item) is Ok,
    ensures
        flush_outcome(flush_kv(kv, item), flush_fst(kv, fst, item), item) == Ok::<u32, ()>(0),
        flush_kv(flush_kv(kv, item), item) == flush_kv(kv, item),
        flush_fst(flush_kv(kv, item), flush_fst(kv, fst, item), item) == flush_fst(kv, fst, item),
{
    let after = flush_kv(kv, item);
    if flush_erases(kv, item) {
        let store = after.stores[item.collection];
        assert(store.buckets.remove(item.bucket->Some_0) =~= store.buckets);
        assert(after.stores.insert(item.collection, store) =~= after.stores);
    }
}

/// Where the key/value erasure succeeds and backing storage then fails, the
/// flush fails although the entries are gone: nothing is rolled back.
pub proof fn lemma_flush_partial_failure(kv: StoreKVPoolView, fst: StoreFSTPoolView, item: StoreItemView)
    requires
        flush_erases(kv, item),
        flush_entries(kv, item) > 0,
        !fst.available,
    ensures
        flush_outcome(kv, fst, item) is Err,
        flush_entries(flush_kv(kv, item), item) == 0,
        flush_fst(kv, fst, item) == fst,
{
}

/// After a flush that erased entries, every object of the bucket counts
/// zero terms, and counting the bucket itself fails, its store being gone.
pub proof fn lemma_flush_then_count(
    kv: StoreKVPoolView,
    fst: StoreFSTPoolView,
    item: StoreItemView,
    object: Seq<char>,
)
    requires
        flush_outcome(kv, fst, item) is Ok,
        flush_outcome(kv, fst, item)->Ok_0 > 0,
    ensures
        count_object(flush_kv(kv, item), item.collection, item.bucket->Some_0, object) == Ok::<
            u32,
            (),
        >(0),
        count_bucket(flush_fst(kv, fst, item), item.collection, item.bucket->Some_0) is Err,
{
}

/// Flushing keeps no lock: pools that were idle before the flush are idle
/// after it.
pub proof fn lemma_flush_keeps_idle(kv: StoreKVPoolView, fst: StoreFSTPoolView, item: StoreItemView)
    requires
        kv.idle(),
        fst.idle(),
    ensures
        flush_kv(kv, item).idle(),
        flush_fst(kv, fst, item).idle(),
{
}

/// The flush cannot leave the erasure to the general helper of the pool:
/// while the flush holds its locks, the helper, which wants the access lock
/// of the key/value family for itself alone, is never admitted. The flush
/// erases on the instance that it has locked.
pub proof fn lemma_flush_erases_directly(kv: StoreKVPoolView, item: StoreItemView)
    requires
        item.is_bucket(),
    ensures
        !flush_holding_kv(kv, item).access.admits(StoreLockMode::Exclusive),
{
}

/// Flushing takes its locks in the global order, gives them back in
/// reverse, and keeps none.
pub proof fn lemma_flush_disciplined(id: Seq<char>, kv: StoreKVPoolView, item: StoreItemView)
    ensures
        disciplined(flush_journal(id, kv, item)),
{
    let none = Seq::<StoreLockEventView>::empty();
    let journal = flush_journal(id, kv, item);
    if item.is_bucket() {
        let kv_access = acquire_event(
            id,
            StoreLockFamily::KV,
            StoreLockTier::Access,
            StoreLockMode::Shared,
        );
        let kv_access_back = release_event(
            id,
            StoreLockFamily::KV,
            StoreLockTier::Access,
            StoreLockMode::Shared,
        );
        let fst_access = acquire_event(
            id,
            StoreLockFamily::FST,
            StoreLockTier::Access,
            StoreLockMode::Exclusive,
        );
        let fst_access_back = release_event(
            id,
            StoreLockFamily::FST,
            StoreLockTier::Access,
            StoreLockMode::Exclusive,
        );
        assert(seq![kv_access].push(fst_access) =~= seq![kv_access, fst_access]);
        if kv.available && kv.stores.dom().contains(item.collection) {
            let instance = acquire_event(
                id,
                StoreLockFamily::KV,
                StoreLockTier::Instance,
                StoreLockMode::Exclusive,
            );
            let instance_back = release_event(
                id,
                StoreLockFamily::KV,
                StoreLockTier::Instance,
                StoreLockMode::Exclusive,
            );
            lemma_replay_bracket(
                seq![kv_access, fst_access],
                none,
                id,
                StoreLockFamily::KV,
                StoreLockTier::Instance,
                StoreLockMode::Exclusive,
            );
            let innermost = seq![instance] + none + seq![instance_back];
            lemma_replay_bracket(
                seq![kv_access],
                innermost,
                id,
                StoreLockFamily::FST,
                StoreLockTier::Access,
                StoreLockMode::Exclusive,
            );
            let inner = seq![fst_access] + innermost + seq![fst_access_back];
            lemma_replay_bracket(
                none,
                inner,
                id,
                StoreLockFamily::KV,
                StoreLockTier::Access,
                StoreLockMode::Shared,
            );
            assert(journal =~= seq![kv_access] + inner + seq![kv_access_back]);
        } else {
            lemma_replay_bracket(
                seq![kv_access],
                none,
                id,
                StoreLockFamily::FST,
                StoreLockTier::Access,
                StoreLockMode::Exclusive,
            );
            let inner = seq![fst_access] + none + seq![fst_access_back];
            lemma_replay_bracket(
                none,
                inner,
                id,
                StoreLockFamily::KV,
                StoreLockTier::Access,
                StoreLockMode::Shared,
            );
            assert(journal =~= seq![kv_access] + inner + seq![kv_access_back]);
        }
    }
}

/// The bucket flush.
pub struct ExecutorFlushB;

impl ExecutorFlushB {
    /// Whether flushing at `store` is admitted at once.
    pub fn admitted(registry: &StoreRegistry, store: &StoreItem) -> (admitted: bool)
        requires
            registry.wf(),
        ensures
            admitted == flush_admitted(registry.kv@, registry.fst@, store@),
    {
        match store.scope() {
            StoreItemScope::Bucket(collection, _) => registry.kv.access_admits(
                StoreLockMode::Shared,
            ) && registry.fst.access_admits(StoreLockMode::Exclusive)
                && registry.kv.instance_admits(collection, StoreLockMode::Exclusive),
            _ => true,
        }
    }

    /// Flushes the bucket at `store` if that is admitted at once, and
    /// returns `None`, with nothing changed, if the flush would have to wait
    /// for a lock.
    pub fn try_execute(registry: &mut StoreRegistry, store: StoreItem) -> (count: Option<
        Result<u32, ()>,
    >)
        requires
            old(registry).wf(),
        ensures
            final(registry).wf(),
            old(registry).idle() ==> final(registry).idle(),
            disciplined(appended(old(registry).journal@, final(registry).journal@)),
            count is Some == flush_admitted(old(registry).kv@, old(registry).fst@, store@),
            count is None ==> final(registry).kv@ == old(registry).kv@ && final(registry).fst@
                == old(registry).fst@ && final(registry).journal@ == old(registry).journal@,
            count is Some ==> count->Some_0 == flush_outcome(
                old(registry).kv@,
                old(registry).fst@,
                store@,
            ) && final(registry).kv@ == flush_kv(old(registry).kv@, store@) && final(registry).fst@
                == flush_fst(old(registry).kv@, old(registry).fst@, store@) && exists|id: Seq<char>|
                is_lock_id(id) && final(registry).journal@ == old(registry).journal@
                    + #[trigger] flush_journal(id, old(registry).kv@, store@),
    {
        if Self::admitted(registry, &store) {
            Some(Self::execute(registry, store))
        } else {
            None
        }
    }

    /// Flushes the bucket at `store`, under a freshly drawn operation
    /// identifier.
    pub fn execute(registry: &mut StoreRegistry, store: StoreItem) -> (count: Result<u32, ()>)
        requires
            old(registry).wf(),
            flush_admitted(old(registry).kv@, old(registry).fst@, store@),
        ensures
            final(registry).wf(),
            old(registry).idle() ==> final(registry).idle(),
            disciplined(appended(old(registry).journal@, final(registry).journal@)),
            count == flush_outcome(old(registry).kv@, old(registry).fst@, store@),
            final(registry).kv@ == flush_kv(old(registry).kv@, store@),
            final(registry).fst@ == flush_fst(old(registry).kv@, old(registry).fst@, store@),
            exists|id: Seq<char>|
                is_lock_id(id) && final(registry).journal@ == old(registry).journal@
                    + #[trigger] flush_journal(id, old(registry).kv@, store@),
            !store@.is_bucket() ==> {
                &&& count is Err
                &&& final(registry).kv@ == old(registry).kv@
                &&& final(registry).fst@ == old(registry).fst@
                &&& final(registry).journal@ == old(registry).journal@
            },
    {
        let locks = match store.scope() {
            StoreItemScope::Bucket(_, _) => true,
            _ => false,
        };
        if locks {
            let id = draw_lock_id();
            Self::execute_with_id(registry, store, &id)
        } else {
            // No lock is taken, so nothing is recorded and no identifier is drawn.
            let id = String::new();
            proof {
                let any = lemma_lock_id_exists();
                assert(flush_journal(any, registry.kv@, store@) == flush_journal(
                    id@,
                    registry.kv@,
                    store@,
                ));
            }
            Self::execute_with_id(registry, store, &id)
        }
    }

    /// Flushes the bucket at `store`, and records its lock events under `id`.
    pub fn execute_with_id(registry: &mut StoreRegistry, store: StoreItem, id: &String) -> (count:
        Result<u32, ()>)
        requires
            old(registry).wf(),
            flush_admitted(old(registry).kv@, old(registry).fst@, store@),
        ensures
            final(registry).wf(),
            old(registry).idle() ==> final(registry).idle(),
            disciplined(appended(old(registry).journal@, final(registry).journal@)),
            count == flush_outcome(old(registry).kv@, old(registry).fst@, store@),
            final(registry).kv@ == flush_kv(old(registry).kv@, store@),
            final(registry).fst@ == flush_fst(old(registry).kv@, old(registry).fst@, store@),
            final(registry).journal@ == old(registry).journal@ + flush_journal(
                id@,
                old(registry).kv@,
                store@,
            ),
            !store@.is_bucket() ==> {
                &&& count is Err
                &&& final(registry).kv@ == old(registry).kv@
                &&& final(registry).fst@ == old(registry).fst@
                &&& final(registry).journal@ == old(registry).journal@
            },
    {
        let ghost kv = old(registry).kv@;
        let ghost journal = old(registry).journal@;
        proof {
            lemma_flush_disciplined(id@, kv, store@);
            lemma_appended(journal, flush_journal(id@, kv, store@));
        }
        match store.scope() {
            StoreItemScope::Bucket(collection, bucket) => {
                // The access locks keep both pools in place while the bucket is
                // erased; the full-text one is exclusive, since a store leaves
                // that pool.
                registry.kv.lock_access(StoreLockMode::Shared);
                registry.journal.record(
                    id,
                    StoreLockFamily::KV,
                    StoreLockTier::Access,
                    StoreLockMode::Shared,
                    StoreLockPhase::Acquire,
                );
                registry.fst.lock_access(StoreLockMode::Exclusive);
                registry.journal.record(
                    id,
                    StoreLockFamily::FST,
                    StoreLockTier::Access,
                    StoreLockMode::Exclusive,
                    StoreLockPhase::Acquire,
                );
                let opened = registry.kv.acquire(StoreKVAcquireMode::OpenOnly, collection);
                let count = match opened {
                    Ok(Some(slot)) => {
                        let kv_store = registry.kv.instance_mut(slot);
                        kv_store.lock(StoreLockMode::Exclusive);
                        registry.journal.record(
                            id,
                            StoreLockFamily::KV,
                            StoreLockTier::Instance,
                            StoreLockMode::Exclusive,
                            StoreLockPhase::Acquire,
                        );
                        // From here to the release the pools are in the state
                        // in which every count of an object of this collection
                        // and every count of a bucket is kept waiting.
                        assert(registry.kv@ == flush_holding_kv(kv, store@));
                        assert(registry.fst@ == flush_holding_fst(old(registry).fst@, store@));
                        // The general helper for erasing a bucket would ask for
                        // the access lock that is held here, and wait for
                        // itself: the entries are erased on the locked
                        // instance directly.
                        let kv_store = registry.kv.instance_mut(slot);
                        let erased = kv_store.batch_erase_bucket(bucket);
                        let count = match erased {
                            Ok(erase_count) => {
                                if erase_count == 0 {
                                    Ok(0)
                                } else {
                                    match registry.fst.erase(collection, Some(bucket)) {
                                        Ok(_) => Ok(erase_count),
                                        Err(_) => Err(()),
                                    }
                                }
                            },
                            Err(_) => Err(()),
                        };
                        let kv_store = registry.kv.instance_mut(slot);
                        kv_store.unlock(StoreLockMode::Exclusive);
                        registry.journal.record(
                            id,
                            StoreLockFamily::KV,
                            StoreLockTier::Instance,
                            StoreLockMode::Exclusive,
                            StoreLockPhase::Release,
                        );
                        proof {
                            assert(registry.kv@.stores =~= flush_kv(kv, store@).stores);
                        }
                        count
                    },
                    Ok(None) => Ok(0),
                    Err(_) => Err(()),
                };
                registry.fst.unlock_access(StoreLockMode::Exclusive);
                registry.journal.record(
                    id,
                    StoreLockFamily::FST,
                    StoreLockTier::Access,
                    StoreLockMode::Exclusive,
                    StoreLockPhase::Release,
                );
                registry.kv.unlock_access(StoreLockMode::Shared);
                registry.journal.record(
                    id,
                    StoreLockFamily::KV,
                    StoreLockTier::Access,
                    StoreLockMode::Shared,
                    StoreLockPhase::Release,
                );
                proof {
                    assert(registry.journal@ =~= journal + flush_journal(id@, kv, store@));
                }
                count
            },
            _ => Err(()),
        }
    }
}

} // verus!
