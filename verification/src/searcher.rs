//! One shard as the query layer sees it: its segments and their opened
//! columns.

use crate::column::WarmedColumnFields;
use crate::doc_address::{DocAddress, ShardId};
use crate::edge::Edge;
use crate::error::Error;
use crate::segment_reader::SegmentReader;
use std::sync::Arc;
use vstd::prelude::*;

verus! {

/// A second handle on shared, opened columns. `Arc::clone` hands back a
/// pointer to the value that its argument points to; the contract says so.
#[verifier::external_body]
pub(crate) fn share_columns(columns: &Arc<WarmedColumnFields>) -> (r: Arc<WarmedColumnFields>)
    ensures
        r == columns,
{
    Arc::clone(columns)
}

/// The local searcher of one shard.
#[derive(Debug)]
pub struct Searcher {
    pub shard: ShardId,
    pub segments: Vec<SegmentReader>,
    pub column_fields: Arc<WarmedColumnFields>,
}

impl Searcher {
    /// A searcher over these segments, with these columns opened.
    pub fn new(shard: ShardId, segments: Vec<SegmentReader>, column_fields: WarmedColumnFields) -> (r:
        Searcher)
        ensures
            r.shard == shard,
            r.segments@ == segments@,
            *r.column_fields == column_fields,
    {
        Searcher { shard, segments, column_fields: Arc::new(column_fields) }
    }

    /// The shard that this searcher answers for.
    pub fn shard(&self) -> (r: ShardId)
        ensures
            r == self.shard,
    {
        self.shard
    }

    /// The opened columns.
    pub fn warmed_column_fields(&self) -> (r: &Arc<WarmedColumnFields>)
        ensures
            r == self.column_fields,
    {
        &self.column_fields
    }

    /// The number of segments.
    pub fn num_segments(&self) -> (r: usize)
        ensures
            r == self.segments@.len(),
    {
        self.segments.len()
    }

    /// The segment of ordinal `segment_ord`.
    pub fn segment_reader(&self, segment_ord: u32) -> (r: &SegmentReader)
        requires
            segment_ord < self.segments@.len(),
        ensures
            *r == self.segments@[segment_ord as int],
    {
        &self.segments[segment_ord as usize]
    }

    /// What `doc` gives for an address: the stored edge, or the reason why
    /// there is none.
    pub open spec fn stored(&self, address: DocAddress) -> Result<Edge, Error> {
        if address.segment_ord >= self.segments@.len() {
            Err(Error::DocumentNotFound(address))
        } else if address.doc_id >= self.segments@[address.segment_ord as int].store@.len() {
            Err(Error::DocumentNotFound(address))
        } else {
            match self.segments@[address.segment_ord as int].store@[address.doc_id as int] {
                Some(e) => Ok(e),
                None => Err(Error::CorruptDocument(address)),
            }
        }
    }

    /// Fetches the stored edge at `address`.
    pub fn doc(&self, address: DocAddress) -> (r: Result<Edge, Error>)
        ensures
            match self.stored(address) {
                Ok(e) => r matches Ok(x) && x@ == e@,
                Err(e) => r == Err::<Edge, Error>(e),
            },
    {
        if (address.segment_ord as usize) >= self.segments.len() {
            return Err(Error::DocumentNotFound(address));
        }
        let segment = &self.segments[address.segment_ord as usize];
        if (address.doc_id as usize) >= segment.store.len() {
            return Err(Error::DocumentNotFound(address));
        }
        match &segment.store[address.doc_id as usize] {
            Some(e) => Ok(e.clone()),
            None => Err(Error::CorruptDocument(address)),
        }
    }
}

} // verus!
