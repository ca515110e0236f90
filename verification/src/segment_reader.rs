//! One segment of a shard: its identity, the number of its documents, and
//! its stored edges.

use crate::doc_address::SegmentId;
use crate::edge::Edge;
use vstd::prelude::*;

verus! {

/// Entry point to what one segment stores row by row.
#[derive(Debug)]
pub struct SegmentReader {
    pub segment_id: SegmentId,
    pub max_doc: u32,
    /// The stored edges by document. `None` stands for one that cannot be
    /// read.
    pub store: Vec<Option<Edge>>,
}

impl SegmentReader {
    /// A segment of these stored edges.
    pub fn new(segment_id: SegmentId, store: Vec<Option<Edge>>) -> (r: SegmentReader)
        requires
            store.len() <= u32::MAX,
        ensures
            r.segment_id == segment_id,
            r.max_doc == store.len(),
            r.store@ == store@,
    {
        SegmentReader { segment_id, max_doc: store.len() as u32, store }
    }

    /// The highest document number ever given out in this segment, plus
    /// one.
    pub fn max_doc(&self) -> (r: u32)
        ensures
            r == self.max_doc,
    {
        self.max_doc
    }

    /// The number of documents.
    pub fn num_docs(&self) -> (r: u32)
        ensures
            r == self.max_doc,
    {
        self.max_doc()
    }

    /// The identity of the segment.
    pub fn segment_id(&self) -> (r: SegmentId)
        ensures
            r == self.segment_id,
    {
        self.segment_id
    }

    /// The numbers of the documents, in order.
    pub fn doc_ids(&self) -> (r: Vec<u32>)
        ensures
            r@ == Seq::new(self.max_doc as nat, |i: int| i as u32),
    {
        let mut ids: Vec<u32> = Vec::new();
        let mut doc: u32 = 0;
        while doc < self.max_doc
            invariant
                doc <= self.max_doc,
                ids@ == Seq::new(doc as nat, |i: int| i as u32),
            decreases self.max_doc - doc,
        {
            ids.push(doc);
            doc += 1;
            proof {
                assert(ids@ =~= Seq::new(doc as nat, |i: int| i as u32));
            }
        }
        ids
    }

    /// The stored edge of document `doc`: none where the segment has no such
    /// document or cannot read it.
    pub open spec fn stored(&self, doc: u32) -> Option<Edge> {
        if doc < self.store@.len() {
            self.store@[doc as int]
        } else {
            None
        }
    }

    /// The stored edge of document `doc`.
    pub fn get(&self, doc: u32) -> (r: Option<&Edge>)
        ensures
            match self.stored(doc) {
                Some(e) => r == Some(&e),
                None => r is None,
            },
    {
        if (doc as usize) < self.store.len() {
            self.store[doc as usize].as_ref()
        } else {
            None
        }
    }
}

} // verus!
