//! The storage core of a schema-less search backend.
//!
//! Two stores of different kinds lie behind every operation: a key/value
//! store, which holds for every indexed object its identifiers and its
//! terms, and a full-text store, which holds for every bucket the distinct
//! words of its objects. Each comes as a pool of instances, opened on
//! demand. An address of up to three levels (collection, bucket, object)
//! says what an operation works on, and two tiers of readers-writer locks,
//! taken in one global order, keep operations from treading on each other.
//!
//! - `item`: addresses.
//! - `lock`: the lock states, the journal of lock events, the lock order.
//! - `ident`: the identifiers under which operations record their events.
//! - `table`, `term`: the containers the stores are built from.
//! - `kv`, `fst`: the two store families.
//! - `registry`: both pools and the journal, owned in one place.
//! - `executor`: the operations, with what each returns, changes and locks.
pub mod executor;
pub mod fst;
pub mod ident;
pub mod item;
pub mod kv;
pub mod lock;
pub mod registry;
pub mod table;
pub mod term;
