use sonic_executor::executor::count::ExecutorCount;
use sonic_executor::executor::flushb::ExecutorFlushB;
use sonic_executor::executor::push::ExecutorPush;
use sonic_executor::fst::StoreFSTAcquireMode;
use sonic_executor::item::StoreItem;
use sonic_executor::kv::StoreKVAcquireMode;
use sonic_executor::lock::{StoreLockFamily, StoreLockMode, StoreLockPhase, StoreLockTier};
use sonic_executor::registry::StoreRegistry;

fn s(text: &str) -> String {
    text.to_string()
}

fn terms(list: &[&str]) -> Vec<String> {
    list.iter().map(|term| term.to_string()).collect()
}

fn object(collection: &str, bucket: &str, oid: &str) -> StoreItem {
    StoreItem::object(s(collection), s(bucket), s(oid))
}

fn bucket(collection: &str, name: &str) -> StoreItem {
    StoreItem::bucket(s(collection), s(name))
}

fn collection(name: &str) -> StoreItem {
    StoreItem::collection(s(name))
}

fn push(registry: &mut StoreRegistry, collection: &str, bucket: &str, oid: &str, list: &[&str]) {
    let pushed = ExecutorPush::execute(registry, object(collection, bucket, oid), &terms(list));
    assert_eq!(pushed, Ok(()));
}

/// The events recorded from `from` on, as (family, tier, mode, phase).
fn events(
    registry: &StoreRegistry,
    from: usize,
) -> Vec<(StoreLockFamily, StoreLockTier, StoreLockMode, StoreLockPhase)> {
    let mut list = Vec::new();
    let mut at = from;
    while at < registry.journal.len() {
        let event = registry.journal.event(at);
        list.push((event.family, event.tier, event.mode, event.phase));
        at += 1;
    }
    list
}

#[test]
fn end_to_end_count_flush_count() {
    let mut registry = StoreRegistry::new();
    push(&mut registry, "c1", "b1", "o1", &["alpha", "beta"]);

    assert_eq!(ExecutorCount::execute(&mut registry, object("c1", "b1", "o1")), Ok(2));
    assert_eq!(ExecutorCount::execute(&mut registry, bucket("c1", "b1")), Ok(2));

    let flushed = ExecutorFlushB::execute(&mut registry, bucket("c1", "b1"));
    assert_eq!(flushed, Ok(1));

    assert_eq!(ExecutorCount::execute(&mut registry, object("c1", "b1", "o1")), Ok(0));
    assert_eq!(ExecutorCount::execute(&mut registry, bucket("c1", "b1")), Err(()));
}

#[test]
fn count_rejects_object_without_bucket() {
    let mut registry = StoreRegistry::new();
    push(&mut registry, "c1", "b1", "o1", &["alpha"]);
    let before = registry.journal.len();
    let item = StoreItem(s("c1"), None, Some(s("o1")));
    assert_eq!(ExecutorCount::execute(&mut registry, item), Err(()));
    assert_eq!(registry.journal.len(), before);
    assert_eq!(ExecutorCount::execute(&mut registry, object("c1", "b1", "o1")), Ok(1));
}

#[test]
fn flush_rejects_every_shape_but_a_bucket() {
    let mut registry = StoreRegistry::new();
    push(&mut registry, "c1", "b1", "o1", &["alpha"]);
    let before = registry.journal.len();
    assert_eq!(ExecutorFlushB::execute(&mut registry, collection("c1")), Err(()));
    assert_eq!(ExecutorFlushB::execute(&mut registry, object("c1", "b1", "o1")), Err(()));
    let item = StoreItem(s("c1"), None, Some(s("o1")));
    assert_eq!(ExecutorFlushB::execute(&mut registry, item), Err(()));
    assert_eq!(registry.journal.len(), before);
    assert_eq!(ExecutorCount::execute(&mut registry, object("c1", "b1", "o1")), Ok(1));
    assert_eq!(ExecutorCount::execute(&mut registry, bucket("c1", "b1")), Ok(1));
}

#[test]
fn count_of_unindexed_object_is_zero() {
    let mut registry = StoreRegistry::new();
    push(&mut registry, "c1", "b1", "o1", &["alpha", "beta"]);
    assert_eq!(ExecutorCount::execute(&mut registry, object("c1", "b1", "o2")), Ok(0));
    assert_eq!(ExecutorCount::execute(&mut registry, object("c1", "b2", "o1")), Ok(0));
}

#[test]
fn count_of_object_fails_without_an_instance() {
    let mut registry = StoreRegistry::new();
    push(&mut registry, "c1", "b1", "o1", &["alpha"]);
    assert_eq!(ExecutorCount::execute(&mut registry, object("c2", "b1", "o1")), Err(()));
}

#[test]
fn count_of_object_without_terms_is_zero() {
    let mut registry = StoreRegistry::new();
    push(&mut registry, "c1", "b1", "o1", &[]);
    assert_eq!(ExecutorCount::execute(&mut registry, object("c1", "b1", "o1")), Ok(0));
    assert_eq!(ExecutorFlushB::execute(&mut registry, bucket("c1", "b1")), Ok(1));
}

#[test]
fn count_counts_each_term_once() {
    let mut registry = StoreRegistry::new();
    push(&mut registry, "c1", "b1", "o1", &["alpha", "beta", "alpha"]);
    push(&mut registry, "c1", "b1", "o1", &["beta", "gamma"]);
    push(&mut registry, "c1", "b1", "o2", &["alpha", "delta"]);
    assert_eq!(ExecutorCount::execute(&mut registry, object("c1", "b1", "o1")), Ok(3));
    assert_eq!(ExecutorCount::execute(&mut registry, object("c1", "b1", "o2")), Ok(2));
    assert_eq!(ExecutorCount::execute(&mut registry, bucket("c1", "b1")), Ok(4));
}

#[test]
fn count_of_bucket_without_store_fails() {
    let mut registry = StoreRegistry::new();
    assert_eq!(ExecutorCount::execute(&mut registry, bucket("c1", "b1")), Err(()));
    push(&mut registry, "c1", "b1", "o1", &["alpha"]);
    assert_eq!(ExecutorCount::execute(&mut registry, bucket("c1", "b2")), Err(()));
    assert_eq!(ExecutorCount::execute(&mut registry, bucket("c2", "b1")), Err(()));
}

#[test]
fn count_of_empty_bucket_is_zero() {
    let mut registry = StoreRegistry::new();
    registry.fst.lock_access(StoreLockMode::Shared);
    let opened = registry.fst.acquire(StoreFSTAcquireMode::Any, &s("c1"), &s("b1"));
    assert!(matches!(opened, Ok(Some(_))));
    registry.fst.unlock_access(StoreLockMode::Shared);
    assert_eq!(ExecutorCount::execute(&mut registry, bucket("c1", "b1")), Ok(0));
}

#[test]
fn count_of_collection_is_number_of_buckets_on_storage() {
    let mut registry = StoreRegistry::new();
    assert_eq!(ExecutorCount::execute(&mut registry, collection("c1")), Ok(0));
    push(&mut registry, "c1", "b1", "o1", &["alpha"]);
    push(&mut registry, "c1", "b2", "o1", &["alpha"]);
    push(&mut registry, "c1", "b3", "o1", &["alpha"]);
    push(&mut registry, "c2", "b1", "o1", &["alpha"]);
    assert_eq!(ExecutorCount::execute(&mut registry, collection("c1")), Ok(3));
    assert_eq!(ExecutorCount::execute(&mut registry, collection("c2")), Ok(1));

    // A store that the pool has put out of memory is still counted.
    registry.fst.lock_access(StoreLockMode::Exclusive);
    assert!(registry.fst.evict(&s("c1"), &s("b2")));
    assert!(!registry.fst.evict(&s("c1"), &s("b9")));
    registry.fst.unlock_access(StoreLockMode::Exclusive);
    assert_eq!(ExecutorCount::execute(&mut registry, collection("c1")), Ok(3));

    // Counting the bucket opens its store again.
    assert_eq!(ExecutorCount::execute(&mut registry, bucket("c1", "b2")), Ok(1));
    assert_eq!(ExecutorCount::execute(&mut registry, collection("c1")), Ok(3));

    assert_eq!(ExecutorFlushB::execute(&mut registry, bucket("c1", "b1")), Ok(1));
    assert_eq!(ExecutorCount::execute(&mut registry, collection("c1")), Ok(2));
}

#[test]
fn flush_is_idempotent() {
    let mut registry = StoreRegistry::new();
    push(&mut registry, "c1", "b1", "o1", &["alpha", "beta"]);
    push(&mut registry, "c1", "b1", "o2", &["gamma"]);
    push(&mut registry, "c1", "b1", "o3", &["gamma"]);
    assert_eq!(ExecutorFlushB::execute(&mut registry, bucket("c1", "b1")), Ok(3));
    assert_eq!(ExecutorFlushB::execute(&mut registry, bucket("c1", "b1")), Ok(0));
    assert_eq!(ExecutorFlushB::execute(&mut registry, bucket("c1", "b1")), Ok(0));
}

#[test]
fn flush_without_instance_is_zero() {
    let mut registry = StoreRegistry::new();
    assert_eq!(ExecutorFlushB::execute(&mut registry, bucket("c1", "b1")), Ok(0));
    push(&mut registry, "c1", "b1", "o1", &["alpha"]);
    assert_eq!(ExecutorFlushB::execute(&mut registry, bucket("c2", "b1")), Ok(0));
    assert_eq!(ExecutorFlushB::execute(&mut registry, bucket("c1", "b2")), Ok(0));
    assert_eq!(ExecutorCount::execute(&mut registry, object("c1", "b1", "o1")), Ok(1));
}

#[test]
fn flush_leaves_other_buckets_alone() {
    let mut registry = StoreRegistry::new();
    push(&mut registry, "c1", "b1", "o1", &["alpha", "beta"]);
    push(&mut registry, "c1", "b2", "o1", &["gamma"]);
    push(&mut registry, "c2", "b1", "o1", &["delta", "epsilon", "zeta"]);
    assert_eq!(ExecutorFlushB::execute(&mut registry, bucket("c1", "b1")), Ok(1));
    assert_eq!(ExecutorCount::execute(&mut registry, object("c1", "b2", "o1")), Ok(1));
    assert_eq!(ExecutorCount::execute(&mut registry, bucket("c1", "b2")), Ok(1));
    assert_eq!(ExecutorCount::execute(&mut registry, object("c2", "b1", "o1")), Ok(3));
    assert_eq!(ExecutorCount::execute(&mut registry, bucket("c2", "b1")), Ok(3));
}

#[test]
fn count_fails_when_the_engine_opens_nothing() {
    let mut registry = StoreRegistry::new();
    push(&mut registry, "c1", "b1", "o1", &["alpha"]);
    registry.kv.set_available(false);
    assert_eq!(ExecutorCount::execute(&mut registry, object("c1", "b1", "o1")), Err(()));
    assert_eq!(ExecutorCount::execute(&mut registry, bucket("c1", "b1")), Ok(1));
    registry.kv.set_available(true);
    registry.fst.set_available(false);
    assert_eq!(ExecutorCount::execute(&mut registry, object("c1", "b1", "o1")), Ok(1));
    assert_eq!(ExecutorCount::execute(&mut registry, bucket("c1", "b1")), Err(()));
    assert_eq!(ExecutorCount::execute(&mut registry, collection("c1")), Err(()));
}

#[test]
fn count_fails_when_the_instance_does_not_answer() {
    let mut registry = StoreRegistry::new();
    push(&mut registry, "c1", "b1", "o1", &["alpha"]);
    registry.kv.lock_access(StoreLockMode::Shared);
    let slot = registry.kv.acquire(StoreKVAcquireMode::OpenOnly, &s("c1")).unwrap().unwrap();
    registry.kv.instance_mut(slot).set_healthy(false);
    registry.kv.unlock_access(StoreLockMode::Shared);
    assert_eq!(ExecutorCount::execute(&mut registry, object("c1", "b1", "o1")), Err(()));
    assert_eq!(ExecutorCount::execute(&mut registry, object("c1", "b1", "o9")), Err(()));
    assert_eq!(ExecutorFlushB::execute(&mut registry, bucket("c1", "b1")), Err(()));
    assert_eq!(ExecutorPush::execute(&mut registry, object("c1", "b1", "o2"), &terms(&["x"])), Err(()));
    registry.kv.instance_mut(slot).set_healthy(true);
    assert_eq!(ExecutorCount::execute(&mut registry, object("c1", "b1", "o1")), Ok(1));
}

#[test]
fn flush_fails_late_and_rolls_nothing_back() {
    let mut registry = StoreRegistry::new();
    push(&mut registry, "c1", "b1", "o1", &["alpha", "beta"]);
    registry.fst.set_available(false);
    assert_eq!(ExecutorFlushB::execute(&mut registry, bucket("c1", "b1")), Err(()));
    registry.fst.set_available(true);
    // The key/value entries are gone, the words are still there.
    assert_eq!(ExecutorCount::execute(&mut registry, object("c1", "b1", "o1")), Ok(0));
    assert_eq!(ExecutorCount::execute(&mut registry, bucket("c1", "b1")), Ok(2));
    // A second flush finds no entries and reports the bucket as erased.
    assert_eq!(ExecutorFlushB::execute(&mut registry, bucket("c1", "b1")), Ok(0));
    assert_eq!(ExecutorCount::execute(&mut registry, bucket("c1", "b1")), Ok(2));
}

#[test]
fn flush_fails_when_the_engine_opens_nothing() {
    let mut registry = StoreRegistry::new();
    push(&mut registry, "c1", "b1", "o1", &["alpha"]);
    registry.kv.set_available(false);
    assert_eq!(ExecutorFlushB::execute(&mut registry, bucket("c1", "b1")), Err(()));
    registry.kv.set_available(true);
    assert_eq!(ExecutorCount::execute(&mut registry, object("c1", "b1", "o1")), Ok(1));
    assert_eq!(ExecutorFlushB::execute(&mut registry, bucket("c1", "b1")), Ok(1));
}

#[test]
fn count_of_object_records_its_locks_in_order() {
    let mut registry = StoreRegistry::new();
    push(&mut registry, "c1", "b1", "o1", &["alpha"]);
    let before = registry.journal.len();
    let id = s("Ab3dE9zQ");
    assert_eq!(ExecutorCount::execute_with_id(&mut registry, object("c1", "b1", "o1"), &id), Ok(1));
    assert_eq!(
        events(&registry, before),
        vec![
            (StoreLockFamily::KV, StoreLockTier::Access, StoreLockMode::Shared, StoreLockPhase::Acquire),
            (StoreLockFamily::KV, StoreLockTier::Instance, StoreLockMode::Shared, StoreLockPhase::Acquire),
            (StoreLockFamily::KV, StoreLockTier::Instance, StoreLockMode::Shared, StoreLockPhase::Release),
            (StoreLockFamily::KV, StoreLockTier::Access, StoreLockMode::Shared, StoreLockPhase::Release),
        ]
    );
    let mut at = before;
    while at < registry.journal.len() {
        assert_eq!(registry.journal.event(at).id, "Ab3dE9zQ");
        at += 1;
    }
}

#[test]
fn count_of_object_without_instance_takes_the_access_lock_only() {
    let mut registry = StoreRegistry::new();
    let id = s("00000000");
    assert_eq!(ExecutorCount::execute_with_id(&mut registry, object("c1", "b1", "o1"), &id), Err(()));
    assert_eq!(
        events(&registry, 0),
        vec![
            (StoreLockFamily::KV, StoreLockTier::Access, StoreLockMode::Shared, StoreLockPhase::Acquire),
            (StoreLockFamily::KV, StoreLockTier::Access, StoreLockMode::Shared, StoreLockPhase::Release),
        ]
    );
}

#[test]
fn count_of_bucket_records_its_locks_in_order() {
    let mut registry = StoreRegistry::new();
    push(&mut registry, "c1", "b1", "o1", &["alpha"]);
    let before = registry.journal.len();
    let id = s("bucket01");
    assert_eq!(ExecutorCount::execute_with_id(&mut registry, bucket("c1", "b1"), &id), Ok(1));
    assert_eq!(
        events(&registry, before),
        vec![
            (StoreLockFamily::FST, StoreLockTier::Access, StoreLockMode::Shared, StoreLockPhase::Acquire),
            (StoreLockFamily::FST, StoreLockTier::Access, StoreLockMode::Shared, StoreLockPhase::Release),
        ]
    );
}

#[test]
fn count_of_collection_takes_no_lock() {
    let mut registry = StoreRegistry::new();
    push(&mut registry, "c1", "b1", "o1", &["alpha"]);
    let before = registry.journal.len();
    assert_eq!(ExecutorCount::execute(&mut registry, collection("c1")), Ok(1));
    assert_eq!(registry.journal.len(), before);
}

#[test]
fn flush_records_its_locks_in_order() {
    let mut registry = StoreRegistry::new();
    push(&mut registry, "c1", "b1", "o1", &["alpha"]);
    let before = registry.journal.len();
    let id = s("flush001");
    assert_eq!(ExecutorFlushB::execute_with_id(&mut registry, bucket("c1", "b1"), &id), Ok(1));
    assert_eq!(
        events(&registry, before),
        vec![
            (StoreLockFamily::KV, StoreLockTier::Access, StoreLockMode::Shared, StoreLockPhase::Acquire),
            (StoreLockFamily::FST, StoreLockTier::Access, StoreLockMode::Exclusive, StoreLockPhase::Acquire),
            (StoreLockFamily::KV, StoreLockTier::Instance, StoreLockMode::Exclusive, StoreLockPhase::Acquire),
            (StoreLockFamily::KV, StoreLockTier::Instance, StoreLockMode::Exclusive, StoreLockPhase::Release),
            (StoreLockFamily::FST, StoreLockTier::Access, StoreLockMode::Exclusive, StoreLockPhase::Release),
            (StoreLockFamily::KV, StoreLockTier::Access, StoreLockMode::Shared, StoreLockPhase::Release),
        ]
    );
    assert_eq!(registry.journal.event(before).id, "flush001");
}

#[test]
fn flush_without_instance_takes_the_access_locks_only() {
    let mut registry = StoreRegistry::new();
    let id = s("flush002");
    assert_eq!(ExecutorFlushB::execute_with_id(&mut registry, bucket("c1", "b1"), &id), Ok(0));
    assert_eq!(
        events(&registry, 0),
        vec![
            (StoreLockFamily::KV, StoreLockTier::Access, StoreLockMode::Shared, StoreLockPhase::Acquire),
            (StoreLockFamily::FST, StoreLockTier::Access, StoreLockMode::Exclusive, StoreLockPhase::Acquire),
            (StoreLockFamily::FST, StoreLockTier::Access, StoreLockMode::Exclusive, StoreLockPhase::Release),
            (StoreLockFamily::KV, StoreLockTier::Access, StoreLockMode::Shared, StoreLockPhase::Release),
        ]
    );
}

#[test]
fn push_records_its_locks_in_order() {
    let mut registry = StoreRegistry::new();
    let id = s("push0001");
    let pushed =
        ExecutorPush::execute_with_id(&mut registry, object("c1", "b1", "o1"), &terms(&["a"]), &id);
    assert_eq!(pushed, Ok(()));
    assert_eq!(
        events(&registry, 0),
        vec![
            (StoreLockFamily::KV, StoreLockTier::Access, StoreLockMode::Shared, StoreLockPhase::Acquire),
            (StoreLockFamily::FST, StoreLockTier::Access, StoreLockMode::Shared, StoreLockPhase::Acquire),
            (StoreLockFamily::KV, StoreLockTier::Instance, StoreLockMode::Exclusive, StoreLockPhase::Acquire),
            (StoreLockFamily::FST, StoreLockTier::Instance, StoreLockMode::Exclusive, StoreLockPhase::Acquire),
            (StoreLockFamily::FST, StoreLockTier::Instance, StoreLockMode::Exclusive, StoreLockPhase::Release),
            (StoreLockFamily::KV, StoreLockTier::Instance, StoreLockMode::Exclusive, StoreLockPhase::Release),
            (StoreLockFamily::FST, StoreLockTier::Access, StoreLockMode::Shared, StoreLockPhase::Release),
            (StoreLockFamily::KV, StoreLockTier::Access, StoreLockMode::Shared, StoreLockPhase::Release),
        ]
    );
}

#[test]
fn push_rejects_every_shape_but_an_object() {
    let mut registry = StoreRegistry::new();
    assert_eq!(ExecutorPush::execute(&mut registry, bucket("c1", "b1"), &terms(&["a"])), Err(()));
    assert_eq!(ExecutorPush::execute(&mut registry, collection("c1"), &terms(&["a"])), Err(()));
    assert_eq!(registry.journal.len(), 0);
    assert_eq!(ExecutorCount::execute(&mut registry, collection("c1")), Ok(0));
}

#[test]
fn execute_tags_its_events_with_a_fresh_identifier() {
    let mut registry = StoreRegistry::new();
    push(&mut registry, "c1", "b1", "o1", &["alpha"]);
    let before = registry.journal.len();
    assert_eq!(ExecutorCount::execute(&mut registry, object("c1", "b1", "o1")), Ok(1));
    assert_eq!(registry.journal.len(), before + 4);
    let id = registry.journal.event(before).id.clone();
    assert_eq!(id.chars().count(), 8);
    assert!(id.chars().all(|c| c.is_ascii_alphanumeric()));
    let mut at = before;
    while at < registry.journal.len() {
        assert_eq!(registry.journal.event(at).id, id);
        at += 1;
    }
}

#[test]
fn operations_leave_every_lock_free() {
    let mut registry = StoreRegistry::new();
    push(&mut registry, "c1", "b1", "o1", &["alpha"]);
    assert_eq!(ExecutorCount::execute(&mut registry, object("c1", "b1", "o1")), Ok(1));
    assert_eq!(ExecutorFlushB::execute(&mut registry, bucket("c1", "b1")), Ok(1));
    // Both access locks can be taken exclusively, so nothing is held.
    registry.kv.lock_access(StoreLockMode::Exclusive);
    registry.fst.lock_access(StoreLockMode::Exclusive);
    let slot = registry.kv.acquire(StoreKVAcquireMode::OpenOnly, &s("c1")).unwrap().unwrap();
    registry.kv.instance_mut(slot).lock(StoreLockMode::Exclusive);
    registry.kv.instance_mut(slot).unlock(StoreLockMode::Exclusive);
    registry.fst.unlock_access(StoreLockMode::Exclusive);
    registry.kv.unlock_access(StoreLockMode::Exclusive);
}
