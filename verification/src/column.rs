//! Column storage: for each field of a segment, one value for each of its
//! documents, opened once and read many times.

use crate::doc_address::SegmentId;
use vstd::prelude::*;

verus! {

/// The number that ends an iteration over documents. No document has it.
pub const TERMINATED: u32 = 0x7fff_ffff;

/// The fields of a stored edge that have a column.
#[derive(Clone, Copy, Debug, PartialEq, Eq, Structural, Hash)]
pub enum FieldEnum {
    FromId,
    ToId,
    FromHostId,
    ToHostId,
    RelFlags,
    SortScore,
}

impl FieldEnum {
    /// The field's name.
    pub fn name(&self) -> (r: &'static str)
        ensures
            r@ == match *self {
                FieldEnum::FromId => "from_id"@,
                FieldEnum::ToId => "to_id"@,
                FieldEnum::FromHostId => "from_host_id"@,
                FieldEnum::ToHostId => "to_host_id"@,
                FieldEnum::RelFlags => "rel_flags"@,
                FieldEnum::SortScore => "sort_score"@,
            },
    {
        match *self {
            FieldEnum::FromId => "from_id",
            FieldEnum::ToId => "to_id",
            FieldEnum::FromHostId => "from_host_id",
            FieldEnum::ToHostId => "to_host_id",
            FieldEnum::RelFlags => "rel_flags",
            FieldEnum::SortScore => "sort_score",
        }
    }
}

/// Whether two texts are the same.
pub fn same_text(a: &str, b: &str) -> (r: bool)
    ensures
        r == (a@ == b@),
{
    a.to_owned() == b.to_owned()
}

/// One field's values, by document. A document may lack a value.
#[derive(Debug)]
pub struct Column<T> {
    pub values: Vec<Option<T>>,
}

impl<T> View for Column<T> {
    type V = Seq<Option<T>>;

    open spec fn view(&self) -> Seq<Option<T>> {
        self.values@
    }
}

/// The value of document `doc` in a column, if it has one.
pub open spec fn first_value<T>(column: Seq<Option<T>>, doc: u32) -> Option<T> {
    if doc < column.len() {
        column[doc as int]
    } else {
        None
    }
}

impl<T: Copy> Column<T> {
    /// A column of these values.
    pub fn new(values: Vec<Option<T>>) -> (r: Column<T>)
        ensures
            r@ == values@,
    {
        Column { values }
    }

    /// The value of document `doc`, if it has one.
    pub fn first(&self, doc: u32) -> (r: Option<T>)
        ensures
            r == first_value(self@, doc),
    {
        if (doc as usize) < self.values.len() {
            self.values[doc as usize]
        } else {
            None
        }
    }

    /// The number of documents that the column covers.
    pub fn num_docs(&self) -> (r: usize)
        ensures
            r == self@.len(),
    {
        self.values.len()
    }
}

/// The columns of one segment. A field whose column is `None` was not
/// stored for the segment.
#[derive(Debug)]
pub struct SegmentColumnFields {
    pub segment_id: SegmentId,
    pub from_id: Option<Column<u128>>,
    pub to_id: Option<Column<u128>>,
    pub from_host_id: Option<Column<u128>>,
    pub to_host_id: Option<Column<u128>>,
    pub rel_flags: Option<Column<u64>>,
    pub sort_score: Option<Column<u64>>,
}

impl SegmentColumnFields {
    /// The column of a field that holds node identities, if the segment has
    /// it. No column for another field.
    pub open spec fn ids(&self, field: FieldEnum) -> Option<Seq<Option<u128>>> {
        match field {
            FieldEnum::FromId => view_of(self.from_id),
            FieldEnum::ToId => view_of(self.to_id),
            FieldEnum::FromHostId => view_of(self.from_host_id),
            FieldEnum::ToHostId => view_of(self.to_host_id),
            _ => None,
        }
    }

    /// The column of the link flags, if the segment has it. No column for
    /// another field.
    pub open spec fn flags(&self, field: FieldEnum) -> Option<Seq<Option<u64>>> {
        match field {
            FieldEnum::RelFlags => view_of(self.rel_flags),
            _ => None,
        }
    }

    /// The column of the scores, if the segment has it. No column for
    /// another field.
    pub open spec fn scores(&self, field: FieldEnum) -> Option<Seq<Option<u64>>> {
        match field {
            FieldEnum::SortScore => view_of(self.sort_score),
            _ => None,
        }
    }

    /// The value of `doc` in an identity column; none where the column or
    /// the value is missing.
    pub open spec fn id_value(&self, field: FieldEnum, doc: u32) -> Option<u128> {
        match self.ids(field) {
            Some(column) => first_value(column, doc),
            None => None,
        }
    }

    /// The value of `doc` in the flags column; none where the column or the
    /// value is missing.
    pub open spec fn flags_value(&self, doc: u32) -> Option<u64> {
        match self.flags(FieldEnum::RelFlags) {
            Some(column) => first_value(column, doc),
            None => None,
        }
    }

    /// The value of `doc` in the score column; none where the column or the
    /// value is missing.
    pub open spec fn score_value(&self, doc: u32) -> Option<u64> {
        match self.scores(FieldEnum::SortScore) {
            Some(column) => first_value(column, doc),
            None => None,
        }
    }

    /// The column of a field that holds node identities, as it is stored.
    pub open spec fn id_column(&self, field: FieldEnum) -> Option<&Column<u128>> {
        let column = match field {
            FieldEnum::FromId => self.from_id,
            FieldEnum::ToId => self.to_id,
            FieldEnum::FromHostId => self.from_host_id,
            FieldEnum::ToHostId => self.to_host_id,
            _ => None,
        };
        match column {
            Some(c) => Some(&c),
            None => None,
        }
    }

    /// The score column as it is stored.
    pub open spec fn score_column(&self) -> Option<&Column<u64>> {
        match self.sort_score {
            Some(c) => Some(&c),
            None => None,
        }
    }

    /// The flags column as it is stored.
    pub open spec fn u64_column(&self) -> Option<&Column<u64>> {
        match self.rel_flags {
            Some(c) => Some(&c),
            None => None,
        }
    }

    /// The column of the field of that name, if the field holds node
    /// identities and the segment has its column.
    pub open spec fn named_ids(&self, name: Seq<char>) -> Option<Seq<Option<u128>>> {
        if name == "from_id"@ {
            self.ids(FieldEnum::FromId)
        } else if name == "to_id"@ {
            self.ids(FieldEnum::ToId)
        } else if name == "from_host_id"@ {
            self.ids(FieldEnum::FromHostId)
        } else if name == "to_host_id"@ {
            self.ids(FieldEnum::ToHostId)
        } else {
            None
        }
    }

    /// The column of the field of that name.
    pub fn column_opt(&self, name: &str) -> (r: Option<&Column<u128>>)
        ensures
            view_of_ref(r) == self.named_ids(name@),
    {
        if same_text(name, "from_id") {
            self.u128(FieldEnum::FromId)
        } else if same_text(name, "to_id") {
            self.u128(FieldEnum::ToId)
        } else if same_text(name, "from_host_id") {
            self.u128(FieldEnum::FromHostId)
        } else if same_text(name, "to_host_id") {
            self.u128(FieldEnum::ToHostId)
        } else {
            None
        }
    }

    /// The column of a field that holds node identities.
    pub fn u128(&self, field: FieldEnum) -> (r: Option<&Column<u128>>)
        ensures
            view_of_ref(r) == self.ids(field),
            r == self.id_column(field),
    {
        match field {
            FieldEnum::FromId => self.from_id.as_ref(),
            FieldEnum::ToId => self.to_id.as_ref(),
            FieldEnum::FromHostId => self.from_host_id.as_ref(),
            FieldEnum::ToHostId => self.to_host_id.as_ref(),
            _ => None,
        }
    }

    /// The column of the link flags.
    pub fn u64(&self, field: FieldEnum) -> (r: Option<&Column<u64>>)
        ensures
            view_of_ref(r) == self.flags(field),
    {
        match field {
            FieldEnum::RelFlags => self.rel_flags.as_ref(),
            _ => None,
        }
    }

    /// The column of the scores. A larger score is better.
    pub fn score(&self, field: FieldEnum) -> (r: Option<&Column<u64>>)
        ensures
            view_of_ref(r) == self.scores(field),
            field == FieldEnum::SortScore ==> r == self.score_column(),
    {
        match field {
            FieldEnum::SortScore => self.sort_score.as_ref(),
            _ => None,
        }
    }
}

/// What an optional column holds.
pub open spec fn view_of<T>(column: Option<Column<T>>) -> Option<Seq<Option<T>>> {
    match column {
        Some(c) => Some(c@),
        None => None,
    }
}

/// What an optional borrowed column holds.
pub open spec fn view_of_ref<T>(column: Option<&Column<T>>) -> Option<Seq<Option<T>>> {
    match column {
        Some(c) => Some(c@),
        None => None,
    }
}

/// The opened columns of a shard's segments.
#[derive(Debug)]
pub struct WarmedColumnFields {
    pub segments: Vec<SegmentColumnFields>,
}

impl WarmedColumnFields {
    /// The index of the first entry for the segment `id`, if there is one.
    pub open spec fn position(&self, id: SegmentId) -> Option<int> {
        first_with_id(self.segments@, id)
    }

    /// The opened columns of these segments.
    pub fn new(segments: Vec<SegmentColumnFields>) -> (r: WarmedColumnFields)
        ensures
            r.segments@ == segments@,
    {
        WarmedColumnFields { segments }
    }

    /// The columns of the segment `id`, if they were opened.
    pub fn segment(&self, id: &SegmentId) -> (r: Option<&SegmentColumnFields>)
        ensures
            match self.position(*id) {
                Some(i) => r == Some(&self.segments@[i]),
                None => r is None,
            },
    {
        match self.index_of(id) {
            Some(i) => Some(&self.segments[i]),
            None => None,
        }
    }

    /// The index of the first entry for the segment `id`, if there is one.
    pub fn index_of(&self, id: &SegmentId) -> (r: Option<usize>)
        ensures
            match self.position(*id) {
                Some(i) => r matches Some(k) && k == i && k < self.segments@.len(),
                None => r is None,
            },
    {
        let mut i: usize = 0;
        while i < self.segments.len()
            invariant
                i <= self.segments.len(),
                forall|j: int| 0 <= j < i ==> (#[trigger] self.segments@[j]).segment_id != *id,
            decreases self.segments.len() - i,
        {
            if self.segments[i].segment_id == *id {
                proof {
                    lemma_first_with_id(self.segments@, *id, i as int);
                }
                return Some(i);
            }
            i += 1;
        }
        proof {
            lemma_first_with_id(self.segments@, *id, i as int);
        }
        None
    }
}

/// The index of the first entry of `segments` for the segment `id`.
pub open spec fn first_with_id(segments: Seq<SegmentColumnFields>, id: SegmentId) -> Option<int>
    decreases segments.len(),
{
    if segments.len() == 0 {
        None
    } else {
        match first_with_id(segments.drop_last(), id) {
            Some(i) => Some(i),
            None => if segments.last().segment_id == id {
                Some(segments.len() - 1)
            } else {
                None
            },
        }
    }
}

proof fn lemma_first_with_id(segments: Seq<SegmentColumnFields>, id: SegmentId, k: int)
    requires
        0 <= k <= segments.len(),
        forall|j: int| 0 <= j < k ==> (#[trigger] segments[j]).segment_id != id,
        k < segments.len() ==> segments[k].segment_id == id,
    ensures
        first_with_id(segments, id) == if k < segments.len() {
            Some(k)
        } else {
            None::<int>
        },
    decreases segments.len(),
{
    if segments.len() > 0 {
        let t = segments.drop_last();
        if k < t.len() {
            lemma_first_with_id(t, id, k);
        } else {
            lemma_first_with_id(t, id, t.len() as int);
        }
    }
}

} // verus!
