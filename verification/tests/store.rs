use sonic_executor::executor::count::ExecutorCount;
use sonic_executor::executor::flushb::ExecutorFlushB;
use sonic_executor::executor::push::ExecutorPush;
use sonic_executor::fst::{StoreFST, StoreFSTAcquireMode, StoreFSTMisc, StoreFSTPool, StoreFSTSlot};
use sonic_executor::ident::{draw_lock_id, LOCK_ID_LENGTH};
use sonic_executor::item::{StoreItem, StoreItemScope};
use sonic_executor::kv::{StoreKV, StoreKVAcquireMode, StoreKVPool};
use sonic_executor::lock::{
    StoreLock, StoreLockFamily, StoreLockJournal, StoreLockMode, StoreLockPhase, StoreLockTier,
};
use sonic_executor::registry::StoreRegistry;
use sonic_executor::table::StoreTable;
use sonic_executor::term::{contains_term, merge_into};

fn s(text: &str) -> String {
    text.to_string()
}

fn terms(list: &[&str]) -> Vec<String> {
    list.iter().map(|term| term.to_string()).collect()
}

#[test]
fn table_keeps_entries_in_slot_order() {
    let mut table: StoreTable<u32> = StoreTable::new();
    assert_eq!(table.len(), 0);
    assert!(!table.is_full());
    assert_eq!(table.find(&s("a")), None);
    assert_eq!(table.insert(s("a"), 10), 0);
    assert_eq!(table.insert(s("b"), 20), 1);
    assert_eq!(table.insert(s("c"), 30), 2);
    assert_eq!(table.len(), 3);
    assert_eq!(table.find(&s("a")), Some(0));
    assert_eq!(table.find(&s("b")), Some(1));
    assert_eq!(table.find(&s("c")), Some(2));
    assert_eq!(table.find(&s("d")), None);
    assert_eq!(*table.at(1), 20);
    assert_eq!(table.name_at(2), "c");
}

#[test]
fn table_remove_moves_later_entries_up() {
    let mut table: StoreTable<u32> = StoreTable::new();
    table.insert(s("a"), 10);
    table.insert(s("b"), 20);
    table.insert(s("c"), 30);
    assert_eq!(table.remove(1), 20);
    assert_eq!(table.len(), 2);
    assert_eq!(table.find(&s("b")), None);
    assert_eq!(table.find(&s("a")), Some(0));
    assert_eq!(table.find(&s("c")), Some(1));
    assert_eq!(*table.at(1), 30);
    assert_eq!(table.remove(0), 10);
    assert_eq!(table.remove(0), 30);
    assert_eq!(table.len(), 0);
}

#[test]
fn table_at_mut_changes_one_item() {
    let mut table: StoreTable<u32> = StoreTable::new();
    table.insert(s("a"), 10);
    table.insert(s("b"), 20);
    *table.at_mut(0) = 11;
    assert_eq!(*table.at(0), 11);
    assert_eq!(*table.at(1), 20);
    assert_eq!(table.find(&s("a")), Some(0));
}

#[test]
fn lock_admits_many_readers_and_one_writer() {
    let mut lock = StoreLock::new();
    assert!(lock.is_free());
    assert!(lock.admits(StoreLockMode::Shared));
    assert!(lock.admits(StoreLockMode::Exclusive));
    assert!(lock.try_acquire(StoreLockMode::Shared));
    assert!(lock.try_acquire(StoreLockMode::Shared));
    assert!(!lock.is_free());
    assert!(lock.admits(StoreLockMode::Shared));
    assert!(!lock.admits(StoreLockMode::Exclusive));
    assert!(!lock.try_acquire(StoreLockMode::Exclusive));
    lock.release(StoreLockMode::Shared);
    assert!(!lock.try_acquire(StoreLockMode::Exclusive));
    lock.release(StoreLockMode::Shared);
    assert!(lock.is_free());
    assert!(lock.try_acquire(StoreLockMode::Exclusive));
    assert!(!lock.try_acquire(StoreLockMode::Exclusive));
    assert!(!lock.try_acquire(StoreLockMode::Shared));
    assert!(!lock.admits(StoreLockMode::Shared));
    lock.release(StoreLockMode::Exclusive);
    assert!(lock.is_free());
    lock.acquire(StoreLockMode::Shared);
    assert!(!lock.is_free());
    lock.release(StoreLockMode::Shared);
    lock.acquire(StoreLockMode::Exclusive);
    assert!(!lock.admits(StoreLockMode::Shared));
    lock.release(StoreLockMode::Exclusive);
    assert!(lock.is_free());
}

#[test]
fn journal_records_in_order() {
    let mut journal = StoreLockJournal::new();
    assert_eq!(journal.len(), 0);
    journal.record(
        &s("aaaaaaaa"),
        StoreLockFamily::KV,
        StoreLockTier::Access,
        StoreLockMode::Shared,
        StoreLockPhase::Acquire,
    );
    journal.record(
        &s("bbbbbbbb"),
        StoreLockFamily::FST,
        StoreLockTier::Instance,
        StoreLockMode::Exclusive,
        StoreLockPhase::Release,
    );
    assert_eq!(journal.len(), 2);
    assert_eq!(journal.event(0).id, "aaaaaaaa");
    assert_eq!(journal.event(0).family, StoreLockFamily::KV);
    assert_eq!(journal.event(0).tier, StoreLockTier::Access);
    assert_eq!(journal.event(0).mode, StoreLockMode::Shared);
    assert_eq!(journal.event(0).phase, StoreLockPhase::Acquire);
    assert_eq!(journal.event(1).id, "bbbbbbbb");
    assert_eq!(journal.event(1).family, StoreLockFamily::FST);
    assert_eq!(journal.event(1).tier, StoreLockTier::Instance);
    assert_eq!(journal.event(1).mode, StoreLockMode::Exclusive);
    assert_eq!(journal.event(1).phase, StoreLockPhase::Release);
    journal.clear();
    assert_eq!(journal.len(), 0);
}

#[test]
fn lock_id_is_eight_letters_and_digits() {
    assert_eq!(LOCK_ID_LENGTH, 8);
    let mut round = 0;
    while round < 200 {
        let id = draw_lock_id();
        assert_eq!(id.len(), 8);
        assert_eq!(id.chars().count(), 8);
        assert!(id.chars().all(|c| c.is_ascii_alphanumeric()));
        round += 1;
    }
}

#[test]
fn merge_appends_new_terms_once() {
    let mut base = terms(&["alpha", "beta"]);
    merge_into(&mut base, &terms(&["beta", "gamma", "alpha", "gamma", "delta"]));
    assert_eq!(base, terms(&["alpha", "beta", "gamma", "delta"]));
    merge_into(&mut base, &terms(&[]));
    assert_eq!(base, terms(&["alpha", "beta", "gamma", "delta"]));
    let mut empty: Vec<String> = Vec::new();
    merge_into(&mut empty, &terms(&["x", "x", "y"]));
    assert_eq!(empty, terms(&["x", "y"]));
    assert!(contains_term(&empty, &s("y")));
    assert!(!contains_term(&empty, &s("z")));
}

#[test]
fn item_scope_follows_the_levels_present() {
    assert!(matches!(StoreItem::collection(s("c")).scope(), StoreItemScope::Collection(c) if c == "c"));
    assert!(matches!(
        StoreItem::bucket(s("c"), s("b")).scope(),
        StoreItemScope::Bucket(c, b) if c == "c" && b == "b"
    ));
    assert!(matches!(
        StoreItem::object(s("c"), s("b"), s("o")).scope(),
        StoreItemScope::Object(c, b, o) if c == "c" && b == "b" && o == "o"
    ));
    assert!(matches!(StoreItem(s("c"), None, Some(s("o"))).scope(), StoreItemScope::Invalid));
}

#[test]
fn kv_assigns_internal_identifiers_in_order() {
    let mut store = StoreKV::new();
    store.lock(StoreLockMode::Exclusive);
    assert_eq!(store.push_terms(&s("b1"), &s("o1"), &terms(&["alpha", "beta"])), Ok(0));
    assert_eq!(store.push_terms(&s("b1"), &s("o2"), &terms(&["gamma"])), Ok(1));
    assert_eq!(store.push_terms(&s("b1"), &s("o1"), &terms(&["gamma"])), Ok(0));
    assert_eq!(store.push_terms(&s("b2"), &s("o9"), &terms(&[])), Ok(0));
    assert_eq!(store.push_terms(&s("b1"), &s("o3"), &terms(&["alpha"])), Ok(2));

    assert_eq!(store.get_oid_to_iid(&s("b1"), &s("o1")), Ok(Some(0)));
    assert_eq!(store.get_oid_to_iid(&s("b1"), &s("o2")), Ok(Some(1)));
    assert_eq!(store.get_oid_to_iid(&s("b1"), &s("o3")), Ok(Some(2)));
    assert_eq!(store.get_oid_to_iid(&s("b1"), &s("o9")), Ok(None));
    assert_eq!(store.get_oid_to_iid(&s("b2"), &s("o9")), Ok(Some(0)));
    assert_eq!(store.get_oid_to_iid(&s("b3"), &s("o1")), Ok(None));

    assert_eq!(
        store.get_iid_to_terms(&s("b1"), 0),
        Ok(Some(&terms(&["alpha", "beta", "gamma"])))
    );
    assert_eq!(store.get_iid_to_terms(&s("b1"), 1), Ok(Some(&terms(&["gamma"]))));
    assert_eq!(store.get_iid_to_terms(&s("b1"), 7), Ok(None));
    assert_eq!(store.get_iid_to_terms(&s("b2"), 0), Ok(None));
    assert_eq!(store.get_iid_to_terms(&s("b3"), 0), Ok(None));
    store.unlock(StoreLockMode::Exclusive);
}

#[test]
fn kv_batch_erase_counts_the_entries_of_one_bucket() {
    let mut store = StoreKV::new();
    store.lock(StoreLockMode::Exclusive);
    store.push_terms(&s("b1"), &s("o1"), &terms(&["alpha"])).unwrap();
    store.push_terms(&s("b1"), &s("o2"), &terms(&["alpha"])).unwrap();
    store.push_terms(&s("b2"), &s("o1"), &terms(&["alpha"])).unwrap();
    assert_eq!(store.batch_erase_bucket(&s("b1")), Ok(2));
    assert_eq!(store.batch_erase_bucket(&s("b1")), Ok(0));
    assert_eq!(store.batch_erase_bucket(&s("b3")), Ok(0));
    assert_eq!(store.get_oid_to_iid(&s("b1"), &s("o1")), Ok(None));
    assert_eq!(store.get_oid_to_iid(&s("b2"), &s("o1")), Ok(Some(0)));
    // A bucket that was erased starts its identifiers anew.
    assert_eq!(store.push_terms(&s("b1"), &s("o7"), &terms(&["alpha"])), Ok(0));
    store.unlock(StoreLockMode::Exclusive);
}

#[test]
fn kv_actions_fail_while_the_engine_does_not_answer() {
    let mut store = StoreKV::new();
    store.lock(StoreLockMode::Exclusive);
    store.push_terms(&s("b1"), &s("o1"), &terms(&["alpha"])).unwrap();
    store.set_healthy(false);
    assert_eq!(store.get_oid_to_iid(&s("b1"), &s("o1")), Err(()));
    assert_eq!(store.get_iid_to_terms(&s("b1"), 0), Err(()));
    assert_eq!(store.push_terms(&s("b1"), &s("o2"), &terms(&["alpha"])), Err(()));
    assert_eq!(store.batch_erase_bucket(&s("b1")), Err(()));
    store.set_healthy(true);
    assert_eq!(store.get_oid_to_iid(&s("b1"), &s("o1")), Ok(Some(0)));
    assert_eq!(store.get_oid_to_iid(&s("b1"), &s("o2")), Ok(None));
    assert_eq!(store.batch_erase_bucket(&s("b1")), Ok(1));
    store.unlock(StoreLockMode::Exclusive);
}

#[test]
fn kv_pool_opens_and_creates_instances() {
    let mut pool = StoreKVPool::new();
    pool.lock_access(StoreLockMode::Shared);
    assert_eq!(pool.acquire(StoreKVAcquireMode::OpenOnly, &s("c1")), Ok(None));
    assert_eq!(pool.acquire(StoreKVAcquireMode::Any, &s("c1")), Ok(Some(0)));
    assert_eq!(pool.acquire(StoreKVAcquireMode::Any, &s("c2")), Ok(Some(1)));
    assert_eq!(pool.acquire(StoreKVAcquireMode::OpenOnly, &s("c1")), Ok(Some(0)));
    assert_eq!(pool.acquire(StoreKVAcquireMode::Any, &s("c1")), Ok(Some(0)));
    assert_eq!(pool.acquire(StoreKVAcquireMode::OpenOnly, &s("c3")), Ok(None));
    pool.set_available(false);
    assert_eq!(pool.acquire(StoreKVAcquireMode::OpenOnly, &s("c1")), Err(()));
    assert_eq!(pool.acquire(StoreKVAcquireMode::Any, &s("c3")), Err(()));
    assert_eq!(pool.acquire(StoreKVAcquireMode::OpenOnly, &s("c3")), Err(()));
    pool.set_available(true);
    assert_eq!(pool.acquire(StoreKVAcquireMode::OpenOnly, &s("c3")), Ok(None));
    pool.unlock_access(StoreLockMode::Shared);
}

#[test]
fn kv_pool_says_which_locks_are_to_be_had() {
    let mut pool = StoreKVPool::new();
    assert!(pool.access_admits(StoreLockMode::Exclusive));
    assert!(pool.instance_admits(&s("c1"), StoreLockMode::Exclusive));
    pool.lock_access(StoreLockMode::Shared);
    assert!(pool.access_admits(StoreLockMode::Shared));
    assert!(!pool.access_admits(StoreLockMode::Exclusive));
    let slot = pool.acquire(StoreKVAcquireMode::Any, &s("c1")).unwrap().unwrap();
    pool.instance_mut(slot).lock(StoreLockMode::Shared);
    assert!(pool.instance_admits(&s("c1"), StoreLockMode::Shared));
    assert!(!pool.instance_admits(&s("c1"), StoreLockMode::Exclusive));
    assert!(pool.instance_admits(&s("c2"), StoreLockMode::Exclusive));
    pool.instance_mut(slot).unlock(StoreLockMode::Shared);
    pool.instance_mut(slot).lock(StoreLockMode::Exclusive);
    assert!(!pool.instance_admits(&s("c1"), StoreLockMode::Shared));
    pool.instance_mut(slot).unlock(StoreLockMode::Exclusive);
    pool.unlock_access(StoreLockMode::Shared);
    assert!(pool.access_admits(StoreLockMode::Exclusive));
}

#[test]
fn kv_pool_erases_a_bucket_on_its_own_account() {
    let mut registry = StoreRegistry::new();
    ExecutorPush::execute(&mut registry, StoreItem::object(s("c1"), s("b1"), s("o1")), &terms(&["a"]))
        .unwrap();
    ExecutorPush::execute(&mut registry, StoreItem::object(s("c1"), s("b1"), s("o2")), &terms(&["a"]))
        .unwrap();
    ExecutorPush::execute(&mut registry, StoreItem::object(s("c1"), s("b2"), s("o1")), &terms(&["a"]))
        .unwrap();
    assert_eq!(registry.kv.erase_bucket(&s("c9"), &s("b1")), Ok(0));
    assert_eq!(registry.kv.erase_bucket(&s("c1"), &s("b1")), Ok(2));
    assert_eq!(registry.kv.erase_bucket(&s("c1"), &s("b1")), Ok(0));
    assert!(registry.kv.access_admits(StoreLockMode::Exclusive));
    assert!(registry.kv.instance_admits(&s("c1"), StoreLockMode::Exclusive));
    let item = StoreItem::object(s("c1"), s("b1"), s("o1"));
    assert_eq!(ExecutorCount::execute(&mut registry, item), Ok(0));
    let item = StoreItem::object(s("c1"), s("b2"), s("o1"));
    assert_eq!(ExecutorCount::execute(&mut registry, item), Ok(1));
    registry.kv.set_available(false);
    assert_eq!(registry.kv.erase_bucket(&s("c1"), &s("b2")), Err(()));
}

#[test]
fn fst_store_counts_distinct_words() {
    let mut store = StoreFST::new();
    assert_eq!(store.count_words(), 0);
    store.lock(StoreLockMode::Exclusive);
    assert_eq!(store.push_words(&terms(&["alpha", "beta", "alpha"])), Ok(()));
    assert_eq!(store.count_words(), 2);
    assert_eq!(store.push_words(&terms(&["beta", "gamma"])), Ok(()));
    assert_eq!(store.count_words(), 3);
    store.unlock(StoreLockMode::Exclusive);
}

#[test]
fn fst_pool_opens_creates_and_erases_stores() {
    let mut pool = StoreFSTPool::new();
    pool.lock_access(StoreLockMode::Exclusive);
    assert_eq!(pool.acquire(StoreFSTAcquireMode::OpenOnly, &s("c1"), &s("b1")), Ok(None));
    assert_eq!(
        pool.acquire(StoreFSTAcquireMode::Any, &s("c1"), &s("b1")),
        Ok(Some(StoreFSTSlot { collection: 0, bucket: 0 }))
    );
    assert_eq!(
        pool.acquire(StoreFSTAcquireMode::Any, &s("c1"), &s("b2")),
        Ok(Some(StoreFSTSlot { collection: 0, bucket: 1 }))
    );
    assert_eq!(
        pool.acquire(StoreFSTAcquireMode::Any, &s("c2"), &s("b1")),
        Ok(Some(StoreFSTSlot { collection: 1, bucket: 0 }))
    );
    assert_eq!(
        pool.acquire(StoreFSTAcquireMode::OpenOnly, &s("c1"), &s("b2")),
        Ok(Some(StoreFSTSlot { collection: 0, bucket: 1 }))
    );
    assert_eq!(pool.acquire(StoreFSTAcquireMode::OpenOnly, &s("c2"), &s("b2")), Ok(None));
    assert_eq!(StoreFSTMisc::count_collection_buckets(&pool, &s("c1")), Ok(2));
    assert_eq!(StoreFSTMisc::count_collection_buckets(&pool, &s("c2")), Ok(1));
    assert_eq!(StoreFSTMisc::count_collection_buckets(&pool, &s("c3")), Ok(0));

    assert_eq!(pool.erase(&s("c1"), Some(&s("b9"))), Ok(0));
    assert_eq!(pool.erase(&s("c9"), Some(&s("b1"))), Ok(0));
    assert_eq!(pool.erase(&s("c9"), None), Ok(0));
    assert_eq!(pool.erase(&s("c1"), Some(&s("b1"))), Ok(1));
    assert_eq!(StoreFSTMisc::count_collection_buckets(&pool, &s("c1")), Ok(1));
    assert_eq!(pool.acquire(StoreFSTAcquireMode::OpenOnly, &s("c1"), &s("b1")), Ok(None));
    assert_eq!(
        pool.acquire(StoreFSTAcquireMode::Any, &s("c1"), &s("b3")),
        Ok(Some(StoreFSTSlot { collection: 0, bucket: 1 }))
    );
    assert_eq!(pool.erase(&s("c1"), None), Ok(2));
    assert_eq!(StoreFSTMisc::count_collection_buckets(&pool, &s("c1")), Ok(0));
    assert_eq!(StoreFSTMisc::count_collection_buckets(&pool, &s("c2")), Ok(1));

    pool.set_available(false);
    assert_eq!(pool.erase(&s("c2"), None), Err(()));
    assert_eq!(pool.acquire(StoreFSTAcquireMode::OpenOnly, &s("c2"), &s("b1")), Err(()));
    assert_eq!(StoreFSTMisc::count_collection_buckets(&pool, &s("c2")), Err(()));
    pool.set_available(true);
    assert_eq!(StoreFSTMisc::count_collection_buckets(&pool, &s("c2")), Ok(1));
    pool.unlock_access(StoreLockMode::Exclusive);
}

#[test]
fn fst_pool_works_on_a_store_through_its_slot() {
    let mut pool = StoreFSTPool::new();
    pool.lock_access(StoreLockMode::Shared);
    let slot = pool.acquire(StoreFSTAcquireMode::Any, &s("c1"), &s("b1")).unwrap().unwrap();
    assert!(pool.instance_admits(&s("c1"), &s("b1"), StoreLockMode::Exclusive));
    pool.lock_instance(slot, StoreLockMode::Exclusive);
    assert!(!pool.instance_admits(&s("c1"), &s("b1"), StoreLockMode::Shared));
    assert!(pool.instance_admits(&s("c1"), &s("b2"), StoreLockMode::Shared));
    assert_eq!(pool.push_words(slot, &terms(&["alpha", "beta", "beta"])), Ok(()));
    assert_eq!(pool.instance(slot).count_words(), 2);
    pool.unlock_instance(slot, StoreLockMode::Exclusive);
    assert!(pool.instance_admits(&s("c1"), &s("b1"), StoreLockMode::Exclusive));
    assert!(pool.access_admits(StoreLockMode::Shared));
    assert!(!pool.access_admits(StoreLockMode::Exclusive));
    pool.unlock_access(StoreLockMode::Shared);
}

#[test]
fn try_execute_declines_while_a_lock_is_not_to_be_had() {
    let mut registry = StoreRegistry::new();
    let pushed =
        ExecutorPush::try_execute(&mut registry, StoreItem::object(s("c1"), s("b1"), s("o1")), &terms(&["a"]));
    assert_eq!(pushed, Some(Ok(())));

    // A writer on the instance keeps counts of its objects out, not counts of buckets.
    registry.kv.lock_access(StoreLockMode::Shared);
    let slot = registry.kv.acquire(StoreKVAcquireMode::OpenOnly, &s("c1")).unwrap().unwrap();
    registry.kv.instance_mut(slot).lock(StoreLockMode::Exclusive);
    let before = registry.journal.len();
    let item = StoreItem::object(s("c1"), s("b1"), s("o1"));
    assert!(!ExecutorCount::admitted(&registry, &item));
    assert_eq!(ExecutorCount::try_execute(&mut registry, item), None);
    assert_eq!(registry.journal.len(), before);
    let item = StoreItem::bucket(s("c1"), s("b1"));
    assert_eq!(ExecutorCount::try_execute(&mut registry, item), Some(Ok(1)));
    let item = StoreItem::bucket(s("c1"), s("b1"));
    assert_eq!(ExecutorFlushB::try_execute(&mut registry, item), None);
    let item = StoreItem::object(s("c1"), s("b1"), s("o2"));
    assert_eq!(ExecutorPush::try_execute(&mut registry, item, &terms(&["a"])), None);
    registry.kv.instance_mut(slot).unlock(StoreLockMode::Exclusive);

    // A reader on the instance lets counts in and keeps the flush out.
    registry.kv.instance_mut(slot).lock(StoreLockMode::Shared);
    let item = StoreItem::object(s("c1"), s("b1"), s("o1"));
    assert_eq!(ExecutorCount::try_execute(&mut registry, item), Some(Ok(1)));
    let item = StoreItem::bucket(s("c1"), s("b1"));
    assert!(!ExecutorFlushB::admitted(&registry, &item));
    assert_eq!(ExecutorFlushB::try_execute(&mut registry, item), None);
    registry.kv.instance_mut(slot).unlock(StoreLockMode::Shared);
    registry.kv.unlock_access(StoreLockMode::Shared);

    // A reader of the full-text pool keeps the flush out as well.
    registry.fst.lock_access(StoreLockMode::Shared);
    let item = StoreItem::bucket(s("c1"), s("b1"));
    assert_eq!(ExecutorFlushB::try_execute(&mut registry, item), None);
    let item = StoreItem::bucket(s("c1"), s("b1"));
    assert_eq!(ExecutorCount::try_execute(&mut registry, item), Some(Ok(1)));
    registry.fst.unlock_access(StoreLockMode::Shared);

    let item = StoreItem::bucket(s("c1"), s("b1"));
    assert!(ExecutorFlushB::admitted(&registry, &item));
    assert_eq!(ExecutorFlushB::try_execute(&mut registry, item), Some(Ok(1)));
    // An address that names nothing is never kept waiting.
    let item = StoreItem(s("c1"), None, Some(s("o1")));
    assert_eq!(ExecutorCount::try_execute(&mut registry, item), Some(Err(())));
}
