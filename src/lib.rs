//! Cache-trace tooling: a fixed-width binary codec for access records, and an
//! LRU simulator that measures how long objects stay resident under a sweep of
//! cache budgets.

pub mod bytes;
pub mod trace;
pub mod sim_record;
pub mod recency;
pub mod lru;
pub mod sweep;
pub mod twitter;
pub mod row;
