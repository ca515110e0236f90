//! The score of a document while it is collected.

use crate::column::{first_value, FieldEnum, SegmentColumnFields, WarmedColumnFields, TERMINATED};
use crate::error::Error;
use crate::searcher::share_columns;
use crate::segment_reader::SegmentReader;
use std::sync::Arc;
use vstd::prelude::*;

verus! {

/// The score of a document that has none: that of the number zero among
/// the scores.
pub const ZERO_SCORE: u64 = 0x8000_0000_0000_0000;

/// What gives each document of a segment its score. A larger score is
/// better.
pub trait DocumentScorer: Sized {
    /// The score of `doc`.
    spec fn score_of(&self, doc: u32) -> u64;

    /// What `for_segment` gives.
    spec fn scorer_for(segment: &SegmentReader, column_fields: &Arc<WarmedColumnFields>) -> Result<
        Self,
        Error,
    >;

    /// The scorer for a segment.
    fn for_segment(segment: &SegmentReader, column_fields: &Arc<WarmedColumnFields>) -> (r: Result<
        Self,
        Error,
    >)
        ensures
            r == Self::scorer_for(segment, column_fields),
    ;

    /// The score of `doc`.
    fn score(&self, doc: u32) -> (s: u64)
        ensures
            s == self.score_of(doc),
    ;
}

/// Scores a document by the score that is stored for it: it reads the
/// score column of one segment of the opened columns.
#[derive(Debug)]
pub struct DefaultDocumentScorer {
    pub columns: Arc<WarmedColumnFields>,
    pub position: usize,
}

impl DefaultDocumentScorer {
    /// The score column that the scorer reads; without values where the
    /// opened columns have none at its position.
    pub open spec fn scores(&self) -> Seq<Option<u64>> {
        if self.position < self.columns.segments@.len() {
            match self.columns.segments@[self.position as int].sort_score {
                Some(column) => column@,
                None => Seq::empty(),
            }
        } else {
            Seq::empty()
        }
    }
}

/// The stored score of `doc`, or `ZERO_SCORE` where it has none or ends an
/// iteration.
pub open spec fn stored_score(column: Seq<Option<u64>>, doc: u32) -> u64 {
    if doc == TERMINATED {
        ZERO_SCORE
    } else {
        match first_value(column, doc) {
            Some(s) => s,
            None => ZERO_SCORE,
        }
    }
}

/// The score that a document of a segment is ranked by.
pub open spec fn score_at(columns: &SegmentColumnFields, doc: u32) -> u64 {
    match columns.scores(FieldEnum::SortScore) {
        Some(column) => stored_score(column, doc),
        None => ZERO_SCORE,
    }
}

/// Whether the documents below `n` stand best first: the score does not
/// rise with the number of the document.
pub open spec fn best_first(columns: &SegmentColumnFields, n: nat) -> bool {
    forall|a: u32, b: u32|
        a < b && b < n ==> #[trigger] score_at(columns, a) >= #[trigger] score_at(columns, b)
}

impl DocumentScorer for DefaultDocumentScorer {
    open spec fn score_of(&self, doc: u32) -> u64 {
        stored_score(self.scores(), doc)
    }

    /// Fails where the segment's columns were not opened, or hold no
    /// scores.
    open spec fn scorer_for(segment: &SegmentReader, column_fields: &Arc<WarmedColumnFields>) -> Result<
        Self,
        Error,
    > {
        match column_fields.position(segment.segment_id) {
            None => Err(Error::SegmentNotWarmed),
            Some(i) => match column_fields.segments@[i].sort_score {
                None => Err(Error::FieldNotFound(FieldEnum::SortScore)),
                Some(column) => Ok(
                    DefaultDocumentScorer { columns: *column_fields, position: i as usize },
                ),
            },
        }
    }

    fn for_segment(segment: &SegmentReader, column_fields: &Arc<WarmedColumnFields>) -> (r: Result<
        Self,
        Error,
    >) {
        match column_fields.index_of(&segment.segment_id()) {
            None => Err(Error::SegmentNotWarmed),
            Some(position) => match column_fields.segments[position].score(FieldEnum::SortScore) {
                None => Err(Error::FieldNotFound(FieldEnum::SortScore)),
                Some(_) => Ok(DefaultDocumentScorer { columns: share_columns(column_fields), position }),
            },
        }
    }

    fn score(&self, doc: u32) -> (s: u64) {
        if doc == TERMINATED || self.position >= self.columns.segments.len() {
            return ZERO_SCORE;
        }
        match self.columns.segments[self.position].score(FieldEnum::SortScore) {
            Some(column) => match column.first(doc) {
                Some(s) => s,
                None => ZERO_SCORE,
            },
            None => ZERO_SCORE,
        }
    }
}

} // verus!
