//! Where a stored edge lives: its shard, its segment in the shard, and its
//! number in the segment.

use crate::ranking::Ranked;
use vstd::prelude::*;

verus! {

/// A partition of the graph.
#[derive(Clone, Copy, Debug, PartialEq, Eq, Structural, PartialOrd, Ord, Hash)]
pub struct ShardId(pub u64);

impl ShardId {
    /// The shard of that number.
    pub fn new(id: u64) -> (r: ShardId)
        ensures
            r.0 == id,
    {
        ShardId(id)
    }

    /// The shard's number.
    pub fn as_u64(&self) -> (r: u64)
        ensures
            r == self.0,
    {
        self.0
    }
}

/// A segment of a shard.
#[derive(Clone, Copy, Debug, PartialEq, Eq, Structural, PartialOrd, Ord, Hash)]
pub struct SegmentId(pub u64);

/// The place of one stored edge. It means something only to the shard that
/// gave it out.
#[derive(Clone, Copy, Debug, PartialEq, Eq, Structural, PartialOrd, Ord, Hash)]
pub struct DocAddress {
    pub segment_ord: u32,
    pub doc_id: u32,
    pub shard_id: ShardId,
}

impl DocAddress {
    /// Whether `self` comes before `other`: by shard, then by segment, then
    /// by number.
    pub open spec fn before(&self, other: &DocAddress) -> bool {
        self.shard_id.0 < other.shard_id.0 || (self.shard_id.0 == other.shard_id.0 && (
        self.segment_ord < other.segment_ord || (self.segment_ord == other.segment_ord
            && self.doc_id < other.doc_id)))
    }

    /// Computes `before`.
    pub fn is_before(&self, other: &DocAddress) -> (b: bool)
        ensures
            b == self.before(other),
    {
        self.shard_id.0 < other.shard_id.0 || (self.shard_id.0 == other.shard_id.0 && (
        self.segment_ord < other.segment_ord || (self.segment_ord == other.segment_ord
            && self.doc_id < other.doc_id)))
    }
}

/// Addresses are ranked by segment: what lies in an earlier segment comes
/// first, so that a segment's columns are opened once for all of its
/// addresses.
impl Ranked for DocAddress {
    open spec fn precedes(&self, other: &Self) -> bool {
        self.segment_ord < other.segment_ord
    }

    fn ranks_before(&self, other: &Self) -> (b: bool) {
        self.segment_ord < other.segment_ord
    }

    proof fn lemma_strict(a: &Self, b: &Self, c: &Self) {
    }

    proof fn lemma_tied_or_worse(a: &Self, b: &Self, c: &Self) {
    }
}

} // verus!
