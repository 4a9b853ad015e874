//! Who waits for whom.
//!
//! An operation that is under way holds locks, and another operation is
//! admitted beside it only if the locks it needs are still to be had. The
//! spec functions here give the state of the pools while a count or a flush
//! holds its locks, and the laws say which operations are admitted in such a
//! state: counts beside counts, but never a count beside a flush that
//! touches the same instance or the full-text pool.
use crate::executor::count::count_admitted;
use crate::executor::flushb::flush_admitted;
use crate::fst::StoreFSTPoolView;
use crate::item::StoreItemView;
use crate::kv::StoreKVPoolView;
use crate::lock::StoreLockMode;
use vstd::prelude::*;

verus! {

/// The key/value side while a count at `item` holds its locks.
pub open spec fn count_holding_kv(kv: StoreKVPoolView, item: StoreItemView) -> StoreKVPoolView {
    if !item.is_object() {
        kv
    } else if kv.available && kv.stores.dom().contains(item.collection) {
        kv.locked(StoreLockMode::Shared).with_store(
            item.collection,
            kv.stores[item.collection].locked(StoreLockMode::Shared),
        )
    } else {
        kv.locked(StoreLockMode::Shared)
    }
}

/// The full-text side while a count at `item` holds its locks.
pub open spec fn count_holding_fst(fst: StoreFSTPoolView, item: StoreItemView) -> StoreFSTPoolView {
    if item.is_bucket() {
        fst.locked(StoreLockMode::Shared)
    } else {
        fst
    }
}

/// The key/value side while a flush at `item` holds its locks.
pub open spec fn flush_holding_kv(kv: StoreKVPoolView, item: StoreItemView) -> StoreKVPoolView {
    if !item.is_bucket() {
        kv
    } else if kv.available && kv.stores.dom().contains(item.collection) {
        kv.locked(StoreLockMode::Shared).with_store(
            item.collection,
            kv.stores[item.collection].locked(StoreLockMode::Exclusive),
        )
    } else {
        kv.locked(StoreLockMode::Shared)
    }
}

/// The full-text side while a flush at `item` holds its locks.
pub open spec fn flush_holding_fst(fst: StoreFSTPoolView, item: StoreItemView) -> StoreFSTPoolView {
    if item.is_bucket() {
        fst.locked(StoreLockMode::Exclusive)
    } else {
        fst
    }
}

/// Counts do not wait for each other: while one count holds its locks in
/// pools that were idle before, any other count is admitted, whatever the
/// two addresses.
pub proof fn lemma_counts_run_side_by_side(
    kv: StoreKVPoolView,
    fst: StoreFSTPoolView,
    first: StoreItemView,
    second: StoreItemView,
)
    requires
        kv.idle(),
        fst.idle(),
    ensures
        count_admitted(count_holding_kv(kv, first), count_holding_fst(fst, first), second),
{
}

/// While a flush holds its locks, no count of an object of the same
/// collection is admitted if that collection has an instance, and no count
/// of any bucket: such a count waits, and then sees what the flush left.
pub proof fn lemma_flush_keeps_counts_out(
    kv: StoreKVPoolView,
    fst: StoreFSTPoolView,
    flushed: StoreItemView,
    counted: StoreItemView,
)
    requires
        flushed.is_bucket(),
        counted.is_bucket() || (counted.is_object() && counted.collection == flushed.collection
            && kv.available && kv.stores.dom().contains(flushed.collection)),
    ensures
        !count_admitted(flush_holding_kv(kv, flushed), flush_holding_fst(fst, flushed), counted),
{
}

/// While a count holds its locks, no flush is admitted that needs one of
/// them exclusively: none at all beside the count of a bucket, and none of
/// the same collection beside the count of an object whose collection has an
/// instance. Such a flush waits, so that the count sees what was there
/// before it.
pub proof fn lemma_count_keeps_flush_out(
    kv: StoreKVPoolView,
    fst: StoreFSTPoolView,
    counted: StoreItemView,
    flushed: StoreItemView,
)
    requires
        flushed.is_bucket(),
        counted.is_bucket() || (counted.is_object() && counted.collection == flushed.collection
            && kv.available && kv.stores.dom().contains(flushed.collection)),
    ensures
        !flush_admitted(count_holding_kv(kv, counted), count_holding_fst(fst, counted), flushed),
{
}

} // verus!
