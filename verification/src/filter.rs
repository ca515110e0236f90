//! Filters: what prunes candidates, either as a clause of the index query
//! or as a test on a document's column values while it is collected.

use crate::column::{Column, FieldEnum, SegmentColumnFields};
use crate::edge::RelFlags;
use crate::node::NodeID;
use vstd::prelude::*;

verus! {

/// Leaves out the links that have one of the given flags.
#[derive(Clone, Copy, Debug, PartialEq, Eq)]
pub struct RelFlagsFilter {
    pub excluded: RelFlags,
}

/// Keeps only the links whose `field` is the given node.
#[derive(Clone, Copy, Debug, PartialEq, Eq)]
pub struct NodeFilter {
    pub field: FieldEnum,
    pub node: NodeID,
}

/// A filter of one of the kinds that there are.
#[derive(Clone, Copy, Debug, PartialEq, Eq)]
pub enum FilterEnum {
    RelFlags(RelFlagsFilter),
    Node(NodeFilter),
}

/// What can be given to a query as a filter.
pub trait Filter: Sized {
    /// The filter among the filters that there are.
    spec fn filter_enum(&self) -> FilterEnum;

    /// The filter among the filters that there are.
    fn into_enum(self) -> (r: FilterEnum)
        ensures
            r == self.filter_enum(),
    ;
}

impl Filter for FilterEnum {
    open spec fn filter_enum(&self) -> FilterEnum {
        *self
    }

    fn into_enum(self) -> (r: FilterEnum) {
        self
    }
}

impl Filter for RelFlagsFilter {
    open spec fn filter_enum(&self) -> FilterEnum {
        FilterEnum::RelFlags(*self)
    }

    fn into_enum(self) -> (r: FilterEnum) {
        FilterEnum::RelFlags(self)
    }
}

impl Filter for NodeFilter {
    open spec fn filter_enum(&self) -> FilterEnum {
        FilterEnum::Node(*self)
    }

    fn into_enum(self) -> (r: FilterEnum) {
        FilterEnum::Node(self)
    }
}

/// The test that a list of filters makes on a document's columns: the flags
/// that must not occur, for each filter that excludes flags.
pub open spec fn column_clauses(filters: Seq<FilterEnum>) -> Seq<RelFlags>
    decreases filters.len(),
{
    if filters.len() == 0 {
        Seq::empty()
    } else {
        match filters.last() {
            FilterEnum::RelFlags(f) => column_clauses(filters.drop_last()).push(f.excluded),
            FilterEnum::Node(_) => column_clauses(filters.drop_last()),
        }
    }
}

/// The clauses that a list of filters adds to the index query: one for
/// each filter on a node.
pub open spec fn index_clauses(filters: Seq<FilterEnum>) -> Seq<NodeFilter>
    decreases filters.len(),
{
    if filters.len() == 0 {
        Seq::empty()
    } else {
        match filters.last() {
            FilterEnum::RelFlags(_) => index_clauses(filters.drop_last()),
            FilterEnum::Node(f) => index_clauses(filters.drop_last()).push(f),
        }
    }
}

/// Whether a link with these flags is left out: it has a flag in common
/// with one of the clauses.
pub open spec fn flags_excluded(clauses: Seq<RelFlags>, flags: u64) -> bool {
    exists|i: int| 0 <= i < clauses.len() && (#[trigger] clauses[i]).0 & flags != 0
}

/// Whether a document passes all clauses: each field has the node that its
/// clause asks for.
pub open spec fn clauses_hold(
    clauses: Seq<NodeFilter>,
    columns: &SegmentColumnFields,
    doc: u32,
) -> bool {
    forall|i: int|
        0 <= i < clauses.len() ==> columns.id_value((#[trigger] clauses[i]).field, doc) == Some(
            clauses[i].node.0,
        )
}

/// The conjunction of filters.
#[derive(Debug)]
pub struct AndFilter {
    pub filters: Vec<FilterEnum>,
}

/// The part of a filter that is tested on columns while documents are
/// collected.
#[derive(Debug)]
pub struct ColumnFieldFilter {
    pub excluded: Vec<RelFlags>,
}

/// The part of a filter that becomes clauses of the index query, all of
/// which must hold.
#[derive(Debug)]
pub struct InvertedIndexFilter {
    pub must: Vec<NodeFilter>,
}

/// A `ColumnFieldFilter` on one segment.
#[derive(Debug)]
pub struct SegmentColumnFieldFilter<'a> {
    pub excluded: Vec<RelFlags>,
    pub rel_flags: Option<&'a Column<u64>>,
}

impl AndFilter {
    /// The conjunction of no filters, which every document passes.
    pub fn new() -> (r: AndFilter)
        ensures
            r.filters@ == Seq::<FilterEnum>::empty(),
    {
        AndFilter { filters: Vec::new() }
    }

    /// The conjunction with one more filter.
    pub fn and(self, filter: FilterEnum) -> (r: AndFilter)
        ensures
            r.filters@ == self.filters@.push(filter),
    {
        let mut filters = self.filters;
        filters.push(filter);
        AndFilter { filters }
    }

    /// The part that is tested on columns, if any filter has such a part.
    pub fn column_field_filter(&self) -> (r: Option<ColumnFieldFilter>)
        ensures
            match r {
                Some(f) => f.excluded@ == column_clauses(self.filters@) && f.excluded@.len() > 0,
                None => column_clauses(self.filters@).len() == 0,
            },
    {
        let mut excluded: Vec<RelFlags> = Vec::new();
        let mut i: usize = 0;
        while i < self.filters.len()
            invariant
                i <= self.filters.len(),
                excluded@ == column_clauses(self.filters@.take(i as int)),
            decreases self.filters.len() - i,
        {
            proof {
                assert(self.filters@.take(i + 1).drop_last() =~= self.filters@.take(i as int));
            }
            match self.filters[i] {
                FilterEnum::RelFlags(f) => {
                    excluded.push(f.excluded);
                },
                FilterEnum::Node(_) => {},
            }
            i += 1;
        }
        proof {
            assert(self.filters@.take(i as int) =~= self.filters@);
        }
        if excluded.len() == 0 {
            None
        } else {
            Some(ColumnFieldFilter { excluded })
        }
    }

    /// The part that becomes clauses of the index query, if any filter has
    /// such a part.
    pub fn inverted_index_filter(&self) -> (r: Option<InvertedIndexFilter>)
        ensures
            match r {
                Some(f) => f.must@ == index_clauses(self.filters@) && f.must@.len() > 0,
                None => index_clauses(self.filters@).len() == 0,
            },
    {
        let mut must: Vec<NodeFilter> = Vec::new();
        let mut i: usize = 0;
        while i < self.filters.len()
            invariant
                i <= self.filters.len(),
                must@ == index_clauses(self.filters@.take(i as int)),
            decreases self.filters.len() - i,
        {
            proof {
                assert(self.filters@.take(i + 1).drop_last() =~= self.filters@.take(i as int));
            }
            match self.filters[i] {
                FilterEnum::RelFlags(_) => {},
                FilterEnum::Node(f) => {
                    must.push(f);
                },
            }
            i += 1;
        }
        proof {
            assert(self.filters@.take(i as int) =~= self.filters@);
        }
        if must.len() == 0 {
            None
        } else {
            Some(InvertedIndexFilter { must })
        }
    }
}

impl InvertedIndexFilter {
    /// The clauses to add to the index query.
    pub fn query(self) -> (r: Vec<NodeFilter>)
        ensures
            r@ == self.must@,
    {
        self.must
    }
}

impl ColumnFieldFilter {
    /// The filter on the columns of one segment.
    pub fn for_segment<'a>(&self, columns: &'a SegmentColumnFields) -> (r: SegmentColumnFieldFilter<
        'a,
    >)
        ensures
            r.excluded@ == self.excluded@,
            r.rel_flags == columns.u64_column(),
    {
        let mut excluded: Vec<RelFlags> = Vec::new();
        let mut i: usize = 0;
        while i < self.excluded.len()
            invariant
                i <= self.excluded.len(),
                excluded@ == self.excluded@.take(i as int),
            decreases self.excluded.len() - i,
        {
            excluded.push(self.excluded[i]);
            i += 1;
            proof {
                assert(excluded@ =~= self.excluded@.take(i as int));
            }
        }
        proof {
            assert(self.excluded@.take(i as int) =~= self.excluded@);
        }
        SegmentColumnFieldFilter { excluded, rel_flags: columns.rel_flags.as_ref() }
    }
}

/// Whether the filter leaves out a document whose flags are `flags`. A
/// document without flags is not left out.
pub open spec fn skips(excluded: Seq<RelFlags>, flags: Option<u64>) -> bool {
    match flags {
        Some(f) => flags_excluded(excluded, f),
        None => false,
    }
}

impl<'a> SegmentColumnFieldFilter<'a> {
    /// The flags of `doc` as the filter reads them.
    pub open spec fn flags_of(&self, doc: u32) -> Option<u64> {
        match self.rel_flags {
            Some(column) => crate::column::first_value(column@, doc),
            None => None,
        }
    }

    /// Whether `doc` is to be left out.
    pub fn should_skip(&self, doc: u32) -> (r: bool)
        ensures
            r == skips(self.excluded@, self.flags_of(doc)),
    {
        let flags = match self.rel_flags {
            Some(column) => column.first(doc),
            None => None,
        };
        match flags {
            None => false,
            Some(f) => {
                let mut i: usize = 0;
                while i < self.excluded.len()
                    invariant
                        i <= self.excluded.len(),
                        self.flags_of(doc) == Some(f),
                        forall|j: int| 0 <= j < i ==> (#[trigger] self.excluded@[j]).0 & f == 0,
                    decreases self.excluded.len() - i,
                {
                    if self.excluded[i].0 & f != 0 {
                        proof {
                            assert(self.excluded@[i as int].0 & f != 0);
                        }
                        return true;
                    }
                    i += 1;
                }
                false
            },
        }
    }
}

} // verus!
