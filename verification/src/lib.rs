//! Perfect-hash maps and sets whose tables are built ahead of time.

pub mod hashing;
mod keys;
pub mod map;
pub mod ordered_map;
pub mod set;
pub mod ordered_set;
pub mod show;

pub use hashing::{displace, hash, split_digest};
pub use map::{PhfMap, PhfMapEntries, PhfMapKeys, PhfMapValues};
pub use ordered_map::{PhfOrderedMap, PhfOrderedMapEntries, PhfOrderedMapKeys, PhfOrderedMapValues};
pub use set::{PhfSet, PhfSetValues};
pub use ordered_set::{PhfOrderedSet, PhfOrderedSetValues};
