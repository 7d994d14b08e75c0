//! An in-memory associative container mapping unique keys to values with
//! bucketed hashing: a fixed number of buckets chosen at construction, a
//! hash-to-bucket routing by modulo, collision handling by a per-bucket
//! linear scan, and a first-write-wins insertion policy.

mod key;
mod laws;
mod table;

pub use key::HashKey;
pub use table::HashMap;
