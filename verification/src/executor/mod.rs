pub mod contention;
pub mod count;
pub mod flushb;
pub mod push;
