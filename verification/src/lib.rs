//! Disk-usage scanning: the decisions of a two-phase directory scan, size
//! aggregation with hard-link deduplication, duplicate detection, ranking and
//! batch deletion, stated over plain values and verified.

pub mod aggregate;
pub mod classify;
pub mod delete;
pub mod duplicates;
pub mod engine;
pub mod files;
pub mod filter;
pub mod fingerprint;
pub mod groups;
pub mod inode;
pub mod item;
pub mod lexical;
pub mod listing;
pub mod pool;
pub mod progress;
pub mod rank;
pub mod select;
