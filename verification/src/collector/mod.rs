//! The collectors: what one shard hands to the coordinator, and how the
//! coordinator merges what the shards handed over.

pub mod group;
pub mod group_exact;
pub mod group_sketch;
pub mod top_docs;
