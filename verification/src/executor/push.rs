//! The push operation: indexes terms for one object, on both sides.
use crate::fst::{StoreFSTAcquireMode, StoreFSTPoolView};
use crate::ident::{draw_lock_id, is_lock_id, lemma_lock_id_exists};
use crate::executor::count::count_object;
use crate::item::{StoreItem, StoreItemScope, StoreItemView};
use crate::kv::{StoreKVAcquireMode, StoreKVPoolView};
use crate::lock::{
    acquire_event, appended, disciplined, lemma_appended, lemma_replay_bracket,
    release_event,
    StoreLockEventView, StoreLockFamily, StoreLockMode, StoreLockPhase, StoreLockTier,
};
use crate::registry::StoreRegistry;
use crate::term::{merge_terms, terms_view};
use vstd::prelude::*;

verus! {

/// Whether pushing at `item` gets hold of both stores: the address names an
/// object, and neither pool fails to open, or to create, the store it is
/// asked for.
pub open spec fn push_opens(kv: StoreKVPoolView, fst: StoreFSTPoolView, item: StoreItemView) -> bool {
    &&& item.is_object()
    &&& !kv.acquire_fails(StoreKVAcquireMode::Any, item.collection)
    &&& !fst.acquire_fails(StoreFSTAcquireMode::Any, item.collection, item.bucket->Some_0)
}

/// The key/value side once the instance of the collection has been asked
/// for.
pub open spec fn push_opened_kv(kv: StoreKVPoolView, item: StoreItemView) -> StoreKVPoolView {
    if item.is_object() && !kv.acquire_fails(StoreKVAcquireMode::Any, item.collection) {
        kv.acquired(StoreKVAcquireMode::Any, item.collection)
    } else {
        kv
    }
}

/// The full-text side once the store of the bucket has been asked for.
pub open spec fn push_opened_fst(kv: StoreKVPoolView, fst: StoreFSTPoolView, item: StoreItemView) -> StoreFSTPoolView {
    if push_opens(kv, fst, item) {
        fst.acquired(StoreFSTAcquireMode::Any, item.collection, item.bucket->Some_0)
    } else {
        fst
    }
}

/// Whether pushing `terms` at `item` indexes them on the key/value side.
pub open spec fn push_indexes(
    kv: StoreKVPoolView,
    fst: StoreFSTPoolView,
    item: StoreItemView,
    terms: Seq<Seq<char>>,
) -> bool {
    &&& push_opens(kv, fst, item)
    &&& !push_opened_kv(kv, item).stores[item.collection].push_refused(
        item.bucket->Some_0,
        item.object->Some_0,
        terms,
    )
}

/// Whether pushing `terms` at `item` goes through on both sides.
pub open spec fn push_completes(
    kv: StoreKVPoolView,
    fst: StoreFSTPoolView,
    item: StoreItemView,
    terms: Seq<Seq<char>>,
) -> bool {
    &&& push_indexes(kv, fst, item, terms)
    &&& !push_opened_fst(kv, fst, item).stores[item.collection][item.bucket->Some_0].push_refused(
        terms,
    )
}

/// The key/value side after pushing `terms` at `item`.
pub open spec fn push_kv(
    kv: StoreKVPoolView,
    fst: StoreFSTPoolView,
    item: StoreItemView,
    terms: Seq<Seq<char>>,
) -> StoreKVPoolView {
    let opened = push_opened_kv(kv, item);
    if push_indexes(kv, fst, item, terms) {
        opened.with_store(
            item.collection,
            opened.stores[item.collection].pushed(item.bucket->Some_0, item.object->Some_0, terms),
        )
    } else {
        opened
    }
}

/// The full-text side after pushing `terms` at `item`.
pub open spec fn push_fst(
    kv: StoreKVPoolView,
    fst: StoreFSTPoolView,
    item: StoreItemView,
    terms: Seq<Seq<char>>,
) -> StoreFSTPoolView {
    let opened = push_opened_fst(kv, fst, item);
    if push_completes(kv, fst, item, terms) {
        opened.with_store(
            item.collection,
            item.bucket->Some_0,
            opened.stores[item.collection][item.bucket->Some_0].pushed(terms),
        )
    } else {
        opened
    }
}

/// Whether pushing at `item` is admitted at once: both access locks admit a
/// reader, and the locks of the two stores, where the stores exist, are
/// free.
pub open spec fn push_admitted(kv: StoreKVPoolView, fst: StoreFSTPoolView, item: StoreItemView) -> bool {
    item.is_object() ==> {
        &&& kv.access.admits(StoreLockMode::Shared)
        &&& fst.access.admits(StoreLockMode::Shared)
        &&& kv.instance_admits(item.collection, StoreLockMode::Exclusive)
        &&& fst.instance_admits(item.collection, item.bucket->Some_0, StoreLockMode::Exclusive)
    }
}

/// The lock events of pushing at `item`, in order: both access locks,
/// shared; then, where both stores were had, the write lock of the
/// key/value instance and the write lock of the full-text store.
pub open spec fn push_journal(
    id: Seq<char>,
    kv: StoreKVPoolView,
    fst: StoreFSTPoolView,
    item: StoreItemView,
) -> Seq<StoreLockEventView> {
    if !item.is_object() {
        Seq::empty()
    } else if push_opens(kv, fst, item) {
        seq![
            acquire_event(id, StoreLockFamily::KV, StoreLockTier::Access, StoreLockMode::Shared),
            acquire_event(id, StoreLockFamily::FST, StoreLockTier::Access, StoreLockMode::Shared),
            acquire_event(id, StoreLockFamily::KV, StoreLockTier::Instance, StoreLockMode::Exclusive),
            acquire_event(id, StoreLockFamily::FST, StoreLockTier::Instance, StoreLockMode::Exclusive),
            release_event(id, StoreLockFamily::FST, StoreLockTier::Instance, StoreLockMode::Exclusive),
            release_event(id, StoreLockFamily::KV, StoreLockTier::Instance, StoreLockMode::Exclusive),
            release_event(id, StoreLockFamily::FST, StoreLockTier::Access, StoreLockMode::Shared),
            release_event(id, StoreLockFamily::KV, StoreLockTier::Access, StoreLockMode::Shared),
        ]
    } else {
        seq![
            acquire_event(id, StoreLockFamily::KV, StoreLockTier::Access, StoreLockMode::Shared),
            acquire_event(id, StoreLockFamily::FST, StoreLockTier::Access, StoreLockMode::Shared),
            release_event(id, StoreLockFamily::FST, StoreLockTier::Access, StoreLockMode::Shared),
            release_event(id, StoreLockFamily::KV, StoreLockTier::Access, StoreLockMode::Shared),
        ]
    }
}

/// After a push that went through, the object counts the terms it had and
/// those that were new among the pushed ones, each once.
pub proof fn lemma_push_then_count(
    kv: StoreKVPoolView,
    fst: StoreFSTPoolView,
    item: StoreItemView,
    terms: Seq<Seq<char>>,
)
    requires
        push_completes(kv, fst, item, terms),
    ensures
        count_object(
            push_kv(kv, fst, item, terms),
            item.collection,
            item.bucket->Some_0,
            item.object->Some_0,
        ) == Ok::<u32, ()>(
            merge_terms(
                kv.terms_of(item.collection, item.bucket->Some_0, item.object->Some_0),
                terms,
            ).len() as u32,
        ),
{
}

/// Pushing keeps no lock: pools that were idle before the push are idle
/// after it.
pub proof fn lemma_push_keeps_idle(
    kv: StoreKVPoolView,
    fst: StoreFSTPoolView,
    item: StoreItemView,
    terms: Seq<Seq<char>>,
)
    requires
        kv.idle(),
        fst.idle(),
    ensures
        push_kv(kv, fst, item, terms).idle(),
        push_fst(kv, fst, item, terms).idle(),
{
}

/// Pushing takes its locks in the global order, gives them back in reverse,
/// and keeps none.
pub proof fn lemma_push_disciplined(
    id: Seq<char>,
    kv: StoreKVPoolView,
    fst: StoreFSTPoolView,
    item: StoreItemView,
)
    ensures
        disciplined(push_journal(id, kv, fst, item)),
{
    let none = Seq::<StoreLockEventView>::empty();
    let journal = push_journal(id, kv, fst, item);
    if item.is_object() {
        let shared = StoreLockMode::Shared;
        let exclusive = StoreLockMode::Exclusive;
        let kv_access = acquire_event(id, StoreLockFamily::KV, StoreLockTier::Access, shared);
        let fst_access = acquire_event(id, StoreLockFamily::FST, StoreLockTier::Access, shared);
        let kv_access_back = release_event(id, StoreLockFamily::KV, StoreLockTier::Access, shared);
        let fst_access_back = release_event(id, StoreLockFamily::FST, StoreLockTier::Access, shared);
        assert(seq![kv_access].push(fst_access) =~= seq![kv_access, fst_access]);
        if push_opens(kv, fst, item) {
            let kv_instance = acquire_event(
                id,
                StoreLockFamily::KV,
                StoreLockTier::Instance,
                exclusive,
            );
            let fst_instance = acquire_event(
                id,
                StoreLockFamily::FST,
                StoreLockTier::Instance,
                exclusive,
            );
            let kv_instance_back = release_event(
                id,
                StoreLockFamily::KV,
                StoreLockTier::Instance,
                exclusive,
            );
            let fst_instance_back = release_event(
                id,
                StoreLockFamily::FST,
                StoreLockTier::Instance,
                exclusive,
            );
            assert(seq![kv_access, fst_access].push(kv_instance) =~= seq![
                kv_access,
                fst_access,
                kv_instance,
            ]);
            lemma_replay_bracket(
                seq![kv_access, fst_access, kv_instance],
                none,
                id,
                StoreLockFamily::FST,
                StoreLockTier::Instance,
                exclusive,
            );
            let fourth = seq![fst_instance] + none + seq![fst_instance_back];
            lemma_replay_bracket(
                seq![kv_access, fst_access],
                fourth,
                id,
                StoreLockFamily::KV,
                StoreLockTier::Instance,
                exclusive,
            );
            let third = seq![kv_instance] + fourth + seq![kv_instance_back];
            lemma_replay_bracket(
                seq![kv_access],
                third,
                id,
                StoreLockFamily::FST,
                StoreLockTier::Access,
                shared,
            );
            let second = seq![fst_access] + third + seq![fst_access_back];
            lemma_replay_bracket(
                none,
                second,
                id,
                StoreLockFamily::KV,
                StoreLockTier::Access,
                shared,
            );
            assert(journal =~= seq![kv_access] + second + seq![kv_access_back]);
        } else {
            lemma_replay_bracket(
                seq![kv_access],
                none,
                id,
                StoreLockFamily::FST,
                StoreLockTier::Access,
                shared,
            );
            let second = seq![fst_access] + none + seq![fst_access_back];
            lemma_replay_bracket(
                none,
                second,
                id,
                StoreLockFamily::KV,
                StoreLockTier::Access,
                shared,
            );
            assert(journal =~= seq![kv_access] + second + seq![kv_access_back]);
        }
    }
}

/// The push operation.
pub struct ExecutorPush;

impl ExecutorPush {
    /// Whether pushing at `store` is admitted at once.
    pub fn admitted(registry: &StoreRegistry, store: &StoreItem) -> (admitted: bool)
        requires
            registry.wf(),
        ensures
            admitted == push_admitted(registry.kv@, registry.fst@, store@),
    {
        match store.scope() {
            StoreItemScope::Object(collection, bucket, _) => registry.kv.access_admits(
                StoreLockMode::Shared,
            ) && registry.fst.access_admits(StoreLockMode::Shared) && registry.kv.instance_admits(
                collection,
                StoreLockMode::Exclusive,
            ) && registry.fst.instance_admits(collection, bucket, StoreLockMode::Exclusive),
            _ => true,
        }
    }

    /// Indexes `terms` for the object at `store` if that is admitted at once,
    /// and returns `None`, with nothing changed, if the push would have to
    /// wait for a lock.
    pub fn try_execute(registry: &mut StoreRegistry, store: StoreItem, terms: &Vec<String>) -> (pushed:
        Option<Result<(), ()>>)
        requires
            old(registry).wf(),
        ensures
            final(registry).wf(),
            old(registry).idle() ==> final(registry).idle(),
            disciplined(appended(old(registry).journal@, final(registry).journal@)),
            pushed is Some == push_admitted(old(registry).kv@, old(registry).fst@, store@),
            pushed is None ==> final(registry).kv@ == old(registry).kv@ && final(registry).fst@
                == old(registry).fst@ && final(registry).journal@ == old(registry).journal@,
            pushed is Some ==> pushed->Some_0 is Ok == push_completes(
                old(registry).kv@,
                old(registry).fst@,
                store@,
                terms_view(terms@),
            ) && final(registry).kv@ == push_kv(
                old(registry).kv@,
                old(registry).fst@,
                store@,
                terms_view(terms@),
            ) && final(registry).fst@ == push_fst(
                old(registry).kv@,
                old(registry).fst@,
                store@,
                terms_view(terms@),
            ) && exists|id: Seq<char>|
                is_lock_id(id) && final(registry).journal@ == old(registry).journal@
                    + #[trigger] push_journal(id, old(registry).kv@, old(registry).fst@, store@),
    {
        if Self::admitted(registry, &store) {
            Some(Self::execute(registry, store, terms))
        } else {
            None
        }
    }

    /// Indexes `terms` for the object at `store`, under a freshly drawn
    /// operation identifier.
    pub fn execute(registry: &mut StoreRegistry, store: StoreItem, terms: &Vec<String>) -> (pushed:
        Result<(), ()>)
        requires
            old(registry).wf(),
            push_admitted(old(registry).kv@, old(registry).fst@, store@),
        ensures
            final(registry).wf(),
            old(registry).idle() ==> final(registry).idle(),
            disciplined(appended(old(registry).journal@, final(registry).journal@)),
            pushed is Ok == push_completes(
                old(registry).kv@,
                old(registry).fst@,
                store@,
                terms_view(terms@),
            ),
            final(registry).kv@ == push_kv(
                old(registry).kv@,
                old(registry).fst@,
                store@,
                terms_view(terms@),
            ),
            final(registry).fst@ == push_fst(
                old(registry).kv@,
                old(registry).fst@,
                store@,
                terms_view(terms@),
            ),
            exists|id: Seq<char>|
                is_lock_id(id) && final(registry).journal@ == old(registry).journal@
                    + #[trigger] push_journal(id, old(registry).kv@, old(registry).fst@, store@),
    {
        let locks = match store.scope() {
            StoreItemScope::Object(_, _, _) => true,
            _ => false,
        };
        if locks {
            let id = draw_lock_id();
            Self::execute_with_id(registry, store, terms, &id)
        } else {
            // No lock is taken, so nothing is recorded and no identifier is drawn.
            let id = String::new();
            proof {
                let any = lemma_lock_id_exists();
                assert(push_journal(any, registry.kv@, registry.fst@, store@) == push_journal(
                    id@,
                    registry.kv@,
                    registry.fst@,
                    store@,
                ));
            }
            Self::execute_with_id(registry, store, terms, &id)
        }
    }

    /// Indexes `terms` for the object at `store`, and records its lock events
    /// under `id`. The object gets an internal identifier if it is new, its
    /// term list takes the terms it lacks, and so does the word list of the
    /// bucket. The stores are created where they are missing. Only the
    /// address of an object is accepted.
    pub fn execute_with_id(
        registry: &mut StoreRegistry,
        store: StoreItem,
        terms: &Vec<String>,
        id: &String,
    ) -> (pushed: Result<(), ()>)
        requires
            old(registry).wf(),
            push_admitted(old(registry).kv@, old(registry).fst@, store@),
        ensures
            final(registry).wf(),
            old(registry).idle() ==> final(registry).idle(),
            disciplined(appended(old(registry).journal@, final(registry).journal@)),
            pushed is Ok == push_completes(
                old(registry).kv@,
                old(registry).fst@,
                store@,
                terms_view(terms@),
            ),
            final(registry).kv@ == push_kv(
                old(registry).kv@,
                old(registry).fst@,
                store@,
                terms_view(terms@),
            ),
            final(registry).fst@ == push_fst(
                old(registry).kv@,
                old(registry).fst@,
                store@,
                terms_view(terms@),
            ),
            final(registry).journal@ == old(registry).journal@ + push_journal(
                id@,
                old(registry).kv@,
                old(registry).fst@,
                store@,
            ),
    {
        let ghost kv = old(registry).kv@;
        let ghost fst = old(registry).fst@;
        let ghost journal = old(registry).journal@;
        let ghost added = terms_view(terms@);
        proof {
            lemma_push_disciplined(id@, kv, fst, store@);
            lemma_appended(journal, push_journal(id@, kv, fst, store@));
        }
        match store.scope() {
            StoreItemScope::Object(collection, bucket, object) => {
                registry.kv.lock_access(StoreLockMode::Shared);
                registry.journal.record(
                    id,
                    StoreLockFamily::KV,
                    StoreLockTier::Access,
                    StoreLockMode::Shared,
                    StoreLockPhase::Acquire,
                );
                registry.fst.lock_access(StoreLockMode::Shared);
                registry.journal.record(
                    id,
                    StoreLockFamily::FST,
                    StoreLockTier::Access,
                    StoreLockMode::Shared,
                    StoreLockPhase::Acquire,
                );
                let kv_opened = registry.kv.acquire(StoreKVAcquireMode::Any, collection);
                let pushed = match kv_opened {
                    Ok(Some(kv_slot)) => {
                        let fst_opened = registry.fst.acquire(
                            StoreFSTAcquireMode::Any,
                            collection,
                            bucket,
                        );
                        match fst_opened {
                            Ok(Some(fst_slot)) => {
                                let kv_store = registry.kv.instance_mut(kv_slot);
                                kv_store.lock(StoreLockMode::Exclusive);
                                registry.journal.record(
                                    id,
                                    StoreLockFamily::KV,
                                    StoreLockTier::Instance,
                                    StoreLockMode::Exclusive,
                                    StoreLockPhase::Acquire,
                                );
                                registry.fst.lock_instance(fst_slot, StoreLockMode::Exclusive);
                                registry.journal.record(
                                    id,
                                    StoreLockFamily::FST,
                                    StoreLockTier::Instance,
                                    StoreLockMode::Exclusive,
                                    StoreLockPhase::Acquire,
                                );
                                let kv_store = registry.kv.instance_mut(kv_slot);
                                let indexed = kv_store.push_terms(bucket, object, terms);
                                let pushed = match indexed {
                                    Ok(_) => registry.fst.push_words(fst_slot, terms),
                                    Err(_) => Err(()),
                                };
                                registry.fst.unlock_instance(fst_slot, StoreLockMode::Exclusive);
                                registry.journal.record(
                                    id,
                                    StoreLockFamily::FST,
                                    StoreLockTier::Instance,
                                    StoreLockMode::Exclusive,
                                    StoreLockPhase::Release,
                                );
                                let kv_store = registry.kv.instance_mut(kv_slot);
                                kv_store.unlock(StoreLockMode::Exclusive);
                                registry.journal.record(
                                    id,
                                    StoreLockFamily::KV,
                                    StoreLockTier::Instance,
                                    StoreLockMode::Exclusive,
                                    StoreLockPhase::Release,
                                );
                                proof {
                                    assert(registry.kv@.stores =~= push_kv(
                                        kv,
                                        fst,
                                        store@,
                                        added,
                                    ).stores);
                                    assert(registry.fst@.stores[collection@] =~= push_fst(
                                        kv,
                                        fst,
                                        store@,
                                        added,
                                    ).stores[collection@]);
                                    assert(registry.fst@.stores =~= push_fst(
                                        kv,
                                        fst,
                                        store@,
                                        added,
                                    ).stores);
                                }
                                pushed
                            },
                            _ => Err(()),
                        }
                    },
                    _ => Err(()),
                };
                registry.fst.unlock_access(StoreLockMode::Shared);
                registry.journal.record(
                    id,
                    StoreLockFamily::FST,
                    StoreLockTier::Access,
                    StoreLockMode::Shared,
                    StoreLockPhase::Release,
                );
                registry.kv.unlock_access(StoreLockMode::Shared);
                registry.journal.record(
                    id,
                    StoreLockFamily::KV,
                    StoreLockTier::Access,
                    StoreLockMode::Shared,
                    StoreLockPhase::Release,
                );
                proof {
                    assert(registry.journal@ =~= journal + push_journal(id@, kv, fst, store@));
                }
                pushed
            },
            _ => Err(()),
        }
    }
}

} // verus!
