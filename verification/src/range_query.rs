//! The documents of a segment whose value in a column lies between two
//! bounds. The values are addresses, taken as 128-bit numbers.

use crate::column::{first_value, view_of_ref, Column, SegmentColumnFields};
use crate::error::Error;
use vstd::prelude::*;

verus! {

/// An end of a range of values.
#[derive(Clone, Copy, Debug, PartialEq, Eq, Structural)]
pub enum Bound {
    /// The range reaches to the value, and holds it.
    Included(u128),
    /// The range reaches to the value, and does not hold it.
    Excluded(u128),
    /// The range has no end here.
    Unbounded,
}

/// The least and the largest value of the range between two bounds, where
/// `min_value` and `max_value` stand in for a bound that is not there.
pub open spec fn value_range(
    lower_bound: Bound,
    upper_bound: Bound,
    min_value: u128,
    max_value: u128,
) -> (u128, u128) {
    (
        match lower_bound {
            Bound::Included(v) => v,
            Bound::Excluded(v) => (v + 1) as u128,
            Bound::Unbounded => min_value,
        },
        match upper_bound {
            Bound::Included(v) => v,
            Bound::Excluded(v) => (v - 1) as u128,
            Bound::Unbounded => max_value,
        },
    )
}

/// Whether no value lies beyond the bound: it shuts out the largest value
/// from below, or the least from above.
pub open spec fn shuts_out_all(lower_bound: Bound, upper_bound: Bound) -> bool {
    lower_bound == Bound::Excluded(u128::MAX) || upper_bound == Bound::Excluded(0)
}

/// The least and the largest value of the range between two bounds.
pub fn bound_to_value_range(
    lower_bound: &Bound,
    upper_bound: &Bound,
    min_value: u128,
    max_value: u128,
) -> (r: (u128, u128))
    requires
        !shuts_out_all(*lower_bound, *upper_bound),
    ensures
        r == value_range(*lower_bound, *upper_bound, min_value, max_value),
{
    let start_value = match lower_bound {
        Bound::Included(ip_addr) => *ip_addr,
        Bound::Excluded(ip_addr) => *ip_addr + 1,
        Bound::Unbounded => min_value,
    };

    let end_value = match upper_bound {
        Bound::Included(ip_addr) => *ip_addr,
        Bound::Excluded(ip_addr) => *ip_addr - 1,
        Bound::Unbounded => max_value,
    };
    (start_value, end_value)
}

/// The least value of a column; the largest number where it has no value.
pub open spec fn column_min(column: Seq<Option<u128>>) -> u128
    decreases column.len(),
{
    if column.len() == 0 {
        u128::MAX
    } else {
        match column.last() {
            Some(v) if v < column_min(column.drop_last()) => v,
            _ => column_min(column.drop_last()),
        }
    }
}

/// The largest value of a column; zero where it has no value.
pub open spec fn column_max(column: Seq<Option<u128>>) -> u128
    decreases column.len(),
{
    if column.len() == 0 {
        0
    } else {
        match column.last() {
            Some(v) if v > column_max(column.drop_last()) => v,
            _ => column_max(column.drop_last()),
        }
    }
}

/// The least and the largest value of a column.
pub fn min_max(column: &Column<u128>) -> (r: (u128, u128))
    ensures
        r.0 == column_min(column@),
        r.1 == column_max(column@),
{
    let mut min_value: u128 = u128::MAX;
    let mut max_value: u128 = 0;
    let mut i: usize = 0;
    while i < column.values.len()
        invariant
            i <= column.values.len(),
            min_value == column_min(column@.take(i as int)),
            max_value == column_max(column@.take(i as int)),
        decreases column.values.len() - i,
    {
        proof {
            assert(column@.take(i + 1).drop_last() =~= column@.take(i as int));
        }
        match column.values[i] {
            Some(v) => {
                if v < min_value {
                    min_value = v;
                }
                if v > max_value {
                    max_value = v;
                }
            },
            None => {},
        }
        i += 1;
    }
    proof {
        assert(column@.take(i as int) =~= column@);
    }
    (min_value, max_value)
}

/// A query for the documents whose address in a field lies between two
/// bounds.
#[derive(Debug)]
pub struct IPFastFieldRangeWeight {
    pub field: String,
    pub lower_bound: Bound,
    pub upper_bound: Bound,
}

/// Whether a value lies in a range.
pub open spec fn in_range(range: (u128, u128), value: Option<u128>) -> bool {
    value matches Some(v) && range.0 <= v <= range.1
}

/// The documents below `n` whose value lies in the range, in order.
pub open spec fn docs_in_range(column: Seq<Option<u128>>, range: (u128, u128), n: nat) -> Seq<u32>
    decreases n,
{
    if n == 0 {
        Seq::empty()
    } else if in_range(range, first_value(column, (n - 1) as u32)) {
        docs_in_range(column, range, (n - 1) as nat).push((n - 1) as u32)
    } else {
        docs_in_range(column, range, (n - 1) as nat)
    }
}

impl IPFastFieldRangeWeight {
    /// Creates a new IPFastFieldRangeWeight.
    pub fn new(field: String, lower_bound: Bound, upper_bound: Bound) -> (r: Self)
        ensures
            r.field@ == field@,
            r.lower_bound == lower_bound,
            r.upper_bound == upper_bound,
    {
        Self { field, lower_bound, upper_bound }
    }

    /// The documents of a segment that match: those whose value in the
    /// field lies between the bounds of the query, where the least and the
    /// largest value of the column stand in for a bound that is not there.
    /// None match where the segment has no column for the field, or no
    /// value can lie between the bounds.
    pub open spec fn matching(&self, columns: &SegmentColumnFields, max_doc: u32) -> Seq<u32> {
        match columns.named_ids(self.field@) {
            None => Seq::empty(),
            Some(column) => if shuts_out_all(self.lower_bound, self.upper_bound) {
                Seq::empty()
            } else {
                docs_in_range(
                    column,
                    value_range(
                        self.lower_bound,
                        self.upper_bound,
                        column_min(column),
                        column_max(column),
                    ),
                    max_doc as nat,
                )
            },
        }
    }

    /// The documents of a segment that match.
    pub fn scorer(&self, columns: &SegmentColumnFields, max_doc: u32) -> (r: Vec<u32>)
        ensures
            r@ == self.matching(columns, max_doc),
    {
        let ip_addr_column = match columns.column_opt(self.field.as_str()) {
            None => {
                return Vec::new();
            },
            Some(column) => column,
        };
        let (min_value, max_value) = min_max(ip_addr_column);
        let mut docs: Vec<u32> = Vec::new();
        if self.lower_bound == Bound::Excluded(u128::MAX) || self.upper_bound == Bound::Excluded(0) {
            return docs;
        }
        let value_range = bound_to_value_range(
            &self.lower_bound,
            &self.upper_bound,
            min_value,
            max_value,
        );
        let mut doc: u32 = 0;
        while doc < max_doc
            invariant
                doc <= max_doc,
                docs@ == docs_in_range(ip_addr_column@, value_range, doc as nat),
            decreases max_doc - doc,
        {
            match ip_addr_column.first(doc) {
                Some(v) => {
                    if value_range.0 <= v && v <= value_range.1 {
                        docs.push(doc);
                    }
                },
                None => {},
            }
            doc += 1;
        }
        docs
    }

    /// Says why a document matches. Fails for a document that does not.
    pub fn explain(&self, columns: &SegmentColumnFields, max_doc: u32, doc: u32) -> (r: Result<
        &'static str,
        Error,
    >)
        ensures
            match r {
                Ok(description) => description@ == "Const"@ && self.matching(
                    columns,
                    max_doc,
                ).contains(doc),
                Err(e) => e == Error::DocumentDoesNotMatch(doc) && !self.matching(
                    columns,
                    max_doc,
                ).contains(doc),
            },
    {
        let docs = self.scorer(columns, max_doc);
        let mut i: usize = 0;
        while i < docs.len()
            invariant
                i <= docs.len(),
                docs@ == self.matching(columns, max_doc),
                forall|k: int| 0 <= k < i ==> docs@[k] != doc,
            decreases docs.len() - i,
        {
            if docs[i] == doc {
                proof {
                    assert(docs@.contains(docs@[i as int]));
                }
                return Ok("Const");
            }
            i += 1;
        }
        Err(Error::DocumentDoesNotMatch(doc))
    }
}

} // verus!
