//! What the two group collectors share: the columns that they read, and
//! the pair of group and value that a document gives.

use crate::column::{first_value, view_of_ref, Column, FieldEnum, WarmedColumnFields};
use crate::error::Error;
use crate::filter::{skips, ColumnFieldFilter, SegmentColumnFieldFilter};
use crate::edge::RelFlags;
use crate::index_query::IndexQueryView;
use crate::searcher::Searcher;
use crate::segment_reader::SegmentReader;
use std::sync::Arc;
use vstd::prelude::*;

verus! {

/// What a group collector reads of one segment.
pub struct GroupColumns<'a> {
    pub group: &'a Column<u128>,
    pub value: &'a Column<u128>,
    pub filter: Option<SegmentColumnFieldFilter<'a>>,
}

/// What `GroupColumns` hold.
pub struct GroupColumnsView {
    pub group: Seq<Option<u128>>,
    pub value: Seq<Option<u128>>,
    /// The flags that must not occur, where there is a filter.
    pub excluded: Option<Seq<RelFlags>>,
    pub rel_flags: Option<Seq<Option<u64>>>,
}

impl GroupColumnsView {
    /// The group and the value of a document. None where the filter leaves
    /// the document out, or the document lacks one of the two.
    pub open spec fn pair(&self, doc: u32) -> Option<(u128, u128)> {
        let flags = match self.rel_flags {
            Some(column) => first_value(column, doc),
            None => None,
        };
        if self.excluded matches Some(excluded) && skips(excluded, flags) {
            None
        } else {
            match (first_value(self.group, doc), first_value(self.value, doc)) {
                (Some(g), Some(v)) => Some((g, v)),
                _ => None,
            }
        }
    }

    /// The pairs of documents, in the order of the documents.
    pub open spec fn pairs(&self, docs: Seq<u32>) -> Seq<(u128, u128)>
        decreases docs.len(),
    {
        if docs.len() == 0 {
            Seq::empty()
        } else {
            match self.pair(docs.last()) {
                Some(p) => self.pairs(docs.drop_last()).push(p),
                None => self.pairs(docs.drop_last()),
            }
        }
    }
}

impl<'a> View for GroupColumns<'a> {
    type V = GroupColumnsView;

    open spec fn view(&self) -> GroupColumnsView {
        GroupColumnsView {
            group: self.group@,
            value: self.value@,
            excluded: match self.filter {
                Some(f) => Some(f.excluded@),
                None => None,
            },
            rel_flags: match self.filter {
                Some(f) => view_of_ref(f.rel_flags),
                None => None,
            },
        }
    }
}

/// The flags that a filter excludes, where there is a filter.
pub open spec fn excluded_by(filter: Option<ColumnFieldFilter>) -> Option<Seq<RelFlags>> {
    match filter {
        Some(f) => Some(f.excluded@),
        None => None,
    }
}

/// What opening the columns of a segment gives: the columns of the two
/// fields and the filter on the segment, or the reason why there are none.
/// The opened columns must have been given and hold the segment, and the
/// segment must have a column for each of the two fields.
pub open spec fn opened(
    column_fields: Option<Arc<WarmedColumnFields>>,
    group_field: FieldEnum,
    value_field: FieldEnum,
    excluded: Option<Seq<RelFlags>>,
    segment: &SegmentReader,
) -> Result<GroupColumnsView, Error> {
    match column_fields {
        None => Err(Error::MissingColumnFields),
        Some(column_fields) => match column_fields.position(segment.segment_id) {
            None => Err(Error::SegmentNotWarmed),
            Some(i) => {
                let columns = column_fields.segments@[i];
                match columns.ids(group_field) {
                    None => Err(Error::FieldNotFound(group_field)),
                    Some(group) => match columns.ids(value_field) {
                        None => Err(Error::FieldNotFound(value_field)),
                        Some(value) => Ok(
                            GroupColumnsView {
                                group,
                                value,
                                excluded,
                                rel_flags: match excluded {
                                    Some(_) => columns.flags(FieldEnum::RelFlags),
                                    None => None,
                                },
                            },
                        ),
                    },
                }
            },
        },
    }
}

impl<'a> GroupColumns<'a> {
    /// Opens the columns of a segment for a group collector.
    pub fn open(
        column_fields: &'a Option<Arc<WarmedColumnFields>>,
        group_field: FieldEnum,
        value_field: FieldEnum,
        filter: &Option<ColumnFieldFilter>,
        segment: &SegmentReader,
    ) -> (r: Result<GroupColumns<'a>, Error>)
        ensures
            match opened(
                *column_fields,
                group_field,
                value_field,
                excluded_by(*filter),
                segment,
            ) {
                Ok(c) => r matches Ok(columns) && columns@ == c,
                Err(e) => r matches Err(x) && x == e,
            },
    {
        let column_fields = match column_fields {
            None => {
                return Err(Error::MissingColumnFields);
            },
            Some(column_fields) => column_fields,
        };
        let columns = match column_fields.segment(&segment.segment_id()) {
            None => {
                return Err(Error::SegmentNotWarmed);
            },
            Some(columns) => columns,
        };
        let group = match columns.u128(group_field) {
            None => {
                return Err(Error::FieldNotFound(group_field));
            },
            Some(group) => group,
        };
        let value = match columns.u128(value_field) {
            None => {
                return Err(Error::FieldNotFound(value_field));
            },
            Some(value) => value,
        };
        let filter = match filter {
            Some(f) => Some(f.for_segment(columns)),
            None => None,
        };
        Ok(GroupColumns { group, value, filter })
    }

    /// The group and the value of a document.
    pub fn pair(&self, doc: u32) -> (r: Option<(u128, u128)>)
        ensures
            r == self@.pair(doc),
    {
        match &self.filter {
            Some(filter) => {
                if filter.should_skip(doc) {
                    return None;
                }
            },
            None => {},
        }
        match (self.group.first(doc), self.value.first(doc)) {
            (Some(g), Some(v)) => Some((g, v)),
            _ => None,
        }
    }
}

/// How a group collector is set up.
pub struct GroupSetup {
    pub column_fields: Option<Arc<WarmedColumnFields>>,
    pub group_field: FieldEnum,
    pub value_field: FieldEnum,
    /// The flags that the collector's filter excludes, where it has one.
    pub excluded: Option<Seq<RelFlags>>,
}

impl GroupSetup {
    /// The pairs of group and value that one segment of a shard gives: those
    /// of the documents that the scan of the segment gives. Fails where the
    /// columns of the segment cannot be opened.
    pub open spec fn segment_pairs(&self, query: IndexQueryView, searcher: &Searcher, segment_ord: u32) -> Result<
        Seq<(u128, u128)>,
        Error,
    > {
        let segment = searcher.segments@[segment_ord as int];
        match opened(self.column_fields, self.group_field, self.value_field, self.excluded, &segment) {
            Err(e) => Err(e),
            Ok(columns) => match searcher.column_fields.position(segment.segment_id) {
                None => Err(Error::SegmentNotWarmed),
                Some(i) => Ok(
                    columns.pairs(
                        query.hits(&searcher.column_fields.segments@[i], segment.max_doc as nat),
                    ),
                ),
            },
        }
    }

    /// The pairs of the first `n` segments of a shard, segment by segment,
    /// or the first reason why one of them has none.
    pub open spec fn shard_pairs(&self, query: IndexQueryView, searcher: &Searcher, n: nat) -> Result<
        Seq<Seq<(u128, u128)>>,
        Error,
    >
        decreases n,
    {
        if n == 0 {
            Ok(Seq::empty())
        } else {
            match self.shard_pairs(query, searcher, (n - 1) as nat) {
                Err(e) => Err(e),
                Ok(pairs) => match self.segment_pairs(query, searcher, (n - 1) as u32) {
                    Err(e) => Err(e),
                    Ok(p) => Ok(pairs.push(p)),
                },
            }
        }
    }

    /// Where a segment fails, so does every longer run of segments, for the
    /// same reason.
    pub proof fn lemma_shard_pairs_fail(&self, query: IndexQueryView, searcher: &Searcher, i: nat, n: nat)
        requires
            i < n <= u32::MAX,
            self.shard_pairs(query, searcher, i) is Ok,
            self.segment_pairs(query, searcher, i as u32) is Err,
        ensures
            self.shard_pairs(query, searcher, n) is Err,
            self.shard_pairs(query, searcher, n)->Err_0 == self.segment_pairs(
                query,
                searcher,
                i as u32,
            )->Err_0,
        decreases n,
    {
        if n > i + 1 {
            self.lemma_shard_pairs_fail(query, searcher, i, (n - 1) as nat);
        }
    }
}

} // verus!
