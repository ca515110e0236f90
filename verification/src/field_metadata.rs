//! What is known of the fields of a segment, and the merge of what several
//! segments know.

use crate::index_schema::{bytes_of, field_of_path, FieldEntry, Schema, Type};
use crate::ranking::{concat_all, place, ranked, reversed, sort_ranked, Ranked};
use crate::text::{has_char, join3, replace_char, replaced};
use fnv::FnvHashMap;
use itertools::Itertools;
use vstd::prelude::*;

verus! {

/// What is known of one field.
#[derive(Clone, Debug, PartialEq, Eq, PartialOrd, Ord)]
pub struct FieldMetadata {
    /// The field name
    pub field_name: String,
    /// The field type
    pub typ: Type,
    /// Is the field indexed for search
    pub indexed: bool,
    /// Is the field stored in the doc store
    pub stored: bool,
    /// Is the field stored in the columnar storage
    pub columnar: bool,
}

/// What a `FieldMetadata` holds.
pub struct FieldMetadataView {
    pub field_name: Seq<char>,
    pub typ: Type,
    pub indexed: bool,
    pub stored: bool,
    pub columnar: bool,
}

impl View for FieldMetadata {
    type V = FieldMetadataView;

    open spec fn view(&self) -> FieldMetadataView {
        FieldMetadataView {
            field_name: self.field_name@,
            typ: self.typ,
            indexed: self.indexed,
            stored: self.stored,
            columnar: self.columnar,
        }
    }
}

/// Whether `a` comes before `b` where bytes are compared one by one: at the
/// first index at which they differ `a` has the smaller byte, or `a` ends
/// there and `b` does not.
pub open spec fn bytes_before(a: Seq<u8>, b: Seq<u8>) -> bool
    decreases a.len(),
{
    if b.len() == 0 {
        false
    } else if a.len() == 0 {
        true
    } else if a[0] != b[0] {
        a[0] < b[0]
    } else {
        bytes_before(a.drop_first(), b.drop_first())
    }
}

/// Whether `a` comes before `b`: by name, then by type, then by the three
/// flags, a flag that is not set before one that is.
pub open spec fn precedes(a: FieldMetadataView, b: FieldMetadataView) -> bool {
    let an = bytes_of(a.field_name);
    let bn = bytes_of(b.field_name);
    if an != bn {
        bytes_before(an, bn)
    } else if a.typ != b.typ {
        a.typ.rank() < b.typ.rank()
    } else if a.indexed != b.indexed {
        !a.indexed
    } else if a.stored != b.stored {
        !a.stored
    } else {
        !a.columnar && b.columnar
    }
}

proof fn lemma_bytes_before(a: Seq<u8>, b: Seq<u8>, k: int)
    requires
        0 <= k <= a.len(),
        k <= b.len(),
        forall|j: int| 0 <= j < k ==> a[j] == b[j],
    ensures
        bytes_before(a, b) == bytes_before(a.skip(k), b.skip(k)),
    decreases k,
{
    if k > 0 {
        assert(a.drop_first().skip(k - 1) =~= a.skip(k));
        assert(b.drop_first().skip(k - 1) =~= b.skip(k));
        assert forall|j: int| 0 <= j < k - 1 implies a.drop_first()[j] == b.drop_first()[j] by {
            assert(a[j + 1] == b[j + 1]);
        }
        lemma_bytes_before(a.drop_first(), b.drop_first(), k - 1);
    } else {
        assert(a.skip(0) =~= a);
        assert(b.skip(0) =~= b);
    }
}

/// How two byte strings compare: 0 where they are equal, 1 where the first
/// comes before the second, 2 where it comes after.
fn compare_bytes(a: &[u8], b: &[u8]) -> (r: u8)
    ensures
        r == if a@ == b@ {
            0u8
        } else if bytes_before(a@, b@) {
            1u8
        } else {
            2u8
        },
{
    let mut i: usize = 0;
    while i < a.len() && i < b.len()
        invariant
            i <= a.len(),
            i <= b.len(),
            forall|j: int| 0 <= j < i ==> a@[j] == b@[j],
        decreases a.len() - i,
    {
        if a[i] != b[i] {
            proof {
                lemma_bytes_before(a@, b@, i as int);
                assert(a@.skip(i as int)[0] == a@[i as int]);
                assert(b@.skip(i as int)[0] == b@[i as int]);
            }
            return if a[i] < b[i] {
                1
            } else {
                2
            };
        }
        i += 1;
    }
    proof {
        lemma_bytes_before(a@, b@, i as int);
        if a@.len() == b@.len() {
            assert(a@ =~= b@);
        }
    }
    if a.len() == b.len() {
        0
    } else if i == a.len() {
        1
    } else {
        2
    }
}

/// Whether `a` comes before `b`.
pub fn comes_before(a: &FieldMetadata, b: &FieldMetadata) -> (r: bool)
    ensures
        r == precedes(a@, b@),
{
    let names = compare_bytes(a.field_name.as_str().as_bytes(), b.field_name.as_str().as_bytes());
    if names != 0 {
        return names == 1;
    }
    let ta = a.typ.rank_of();
    let tb = b.typ.rank_of();
    if ta != tb {
        return ta < tb;
    }
    if a.indexed != b.indexed {
        return !a.indexed;
    }
    if a.stored != b.stored {
        return !a.stored;
    }
    !a.columnar && b.columnar
}

/// What field metadata hold.
pub open spec fn metadata_views(list: Seq<FieldMetadata>) -> Seq<FieldMetadataView> {
    list.map_values(|m: FieldMetadata| m@)
}

/// What lists of field metadata hold.
pub open spec fn list_views(lists: Seq<Vec<FieldMetadata>>) -> Seq<Seq<FieldMetadataView>> {
    lists.map_values(|l: Vec<FieldMetadata>| metadata_views(l@))
}

/// No entry of the list comes before an earlier one.
pub open spec fn ascending(list: Seq<FieldMetadataView>) -> bool {
    forall|i: int, j: int|
        0 <= i < j < list.len() ==> !precedes(#[trigger] list[j], #[trigger] list[i])
}

/// Each of the lists is ascending.
pub open spec fn all_ascending(lists: Seq<Seq<FieldMetadataView>>) -> bool {
    forall|i: int| 0 <= i < lists.len() ==> ascending(#[trigger] lists[i])
}

/// What `itertools::Itertools::kmerge_by` makes of lists, with `precedes`
/// to say what comes first.
pub uninterp spec fn kmerged(lists: Seq<Seq<FieldMetadataView>>) -> Seq<FieldMetadataView>;

/// `itertools::Itertools::kmerge_by`, collected: the entries of all lists
/// in one list, each as often as the lists hold it; where every list is
/// ascending, so is the result.
#[verifier::external_body]
pub(crate) fn kmerge(lists: Vec<Vec<FieldMetadata>>) -> (r: Vec<FieldMetadata>)
    ensures
        metadata_views(r@) == kmerged(list_views(lists@)),
        metadata_views(r@).to_multiset() == concat_all(list_views(lists@)).to_multiset(),
        all_ascending(list_views(lists@)) ==> ascending(metadata_views(r@)),
{
    lists.into_iter().kmerge_by(|left, right| comes_before(left, right)).collect()
}

/// Whether the schema keeps the values of the field that `field_name` names
/// in the document store. It does not where it has no such field.
pub open spec fn stored_in(schema: &Schema, field_name: Seq<char>) -> bool {
    match field_of_path(schema.fields@, bytes_of(field_name)) {
        Some((field, rest)) => schema.fields@[field].stored,
        None => false,
    }
}

/// Whether the schema keeps the values of the field in the document store.
pub fn is_field_stored(field_name: &str, schema: &Schema) -> (r: bool)
    ensures
        r == stored_in(schema, field_name@),
{
    match schema.find_field(field_name) {
        Some((field, _path)) => schema.get_field_entry(field).is_stored(),
        None => false,
    }
}

/// Whether two entries are of one field: of the same name and type.
pub open spec fn same_field(a: FieldMetadataView, b: FieldMetadataView) -> bool {
    a.field_name == b.field_name && a.typ == b.typ
}

/// `a` with what `b` knows added: a flag is set where one of the two has
/// it.
pub open spec fn joined(a: FieldMetadataView, b: FieldMetadataView) -> FieldMetadataView {
    FieldMetadataView {
        indexed: a.indexed || b.indexed,
        stored: a.stored || b.stored,
        columnar: a.columnar || b.columnar,
        ..a
    }
}

/// The entries with every run of entries of one field joined into one
/// entry, which is stored where the schema says that the field is.
pub open spec fn joined_runs(schema: &Schema, entries: Seq<FieldMetadataView>) -> Seq<
    FieldMetadataView,
>
    decreases entries.len(),
{
    if entries.len() == 0 {
        Seq::empty()
    } else {
        let before = joined_runs(schema, entries.drop_last());
        let x = entries.last();
        let stored = stored_in(schema, x.field_name);
        if before.len() > 0 && same_field(before.last(), x) {
            before.drop_last().push(FieldMetadataView { stored, ..joined(before.last(), x) })
        } else {
            before.push(FieldMetadataView { stored, ..x })
        }
    }
}

impl FieldMetadata {
    /// Adds to `self` what `rhs` knows of the same field.
    pub fn bitor_assign(&mut self, rhs: FieldMetadata)
        requires
            same_field(old(self)@, rhs@),
        ensures
            final(self)@ == joined(old(self)@, rhs@),
    {
        self.indexed = self.indexed || rhs.indexed;
        self.stored = self.stored || rhs.stored;
        self.columnar = self.columnar || rhs.columnar;
    }

    /// Whether `other` is of the same field.
    pub fn is_same_field(&self, other: &FieldMetadata) -> (r: bool)
        ensures
            r == same_field(self@, other@),
    {
        self.field_name == other.field_name && self.typ == other.typ
    }
}

/// Joins every run of entries of one field into one entry, and asks the
/// schema whether the field is stored.
pub fn join_runs(entries: Vec<FieldMetadata>, schema: &Schema) -> (r: Vec<FieldMetadata>)
    ensures
        metadata_views(r@) == joined_runs(schema, metadata_views(entries@)),
{
    let ghost given = metadata_views(entries@);
    let n = entries.len();
    let mut rest = reversed(entries);
    let mut merged_field_metadata: Vec<FieldMetadata> = Vec::new();
    proof {
        assert(metadata_views(merged_field_metadata@) =~= joined_runs(schema, given.take(0)));
    }
    while rest.len() > 0
        invariant
            rest.len() <= n,
            n == given.len(),
            forall|k: int| 0 <= k < rest.len() ==> (#[trigger] rest@[k])@ == given[n - 1 - k],
            metadata_views(merged_field_metadata@) == joined_runs(
                schema,
                given.take(n - rest.len()),
            ),
        decreases rest.len(),
    {
        let ghost i = n - rest.len();
        let ghost before = metadata_views(merged_field_metadata@);
        proof {
            assert(given.take(i + 1).drop_last() =~= given.take(i));
        }
        let el = rest.pop().unwrap();
        let stored = is_field_stored(el.field_name.as_str(), schema);
        let same = merged_field_metadata.len() > 0 && merged_field_metadata[merged_field_metadata.len()
            - 1].is_same_field(&el);
        if same {
            let mut merged = merged_field_metadata.pop().unwrap();
            merged.bitor_assign(el);
            merged.stored = stored;
            let ghost joined_view = merged@;
            merged_field_metadata.push(merged);
            proof {
                assert(metadata_views(merged_field_metadata@) =~= before.drop_last().push(
                    joined_view,
                ));
            }
        } else {
            let mut merged = el;
            merged.stored = stored;
            let ghost view = merged@;
            merged_field_metadata.push(merged);
            proof {
                assert(metadata_views(merged_field_metadata@) =~= before.push(view));
            }
        }
    }
    proof {
        assert(given.take(n as int) =~= given);
    }
    merged_field_metadata
}

/// Helper to merge the field metadata from multiple segments: the lists
/// are merged into one, and every run of entries of one field is joined
/// into one entry.
pub fn merge_field_meta_data(field_metadatas: Vec<Vec<FieldMetadata>>, schema: &Schema) -> (r: Vec<
    FieldMetadata,
>)
    ensures
        metadata_views(r@) == joined_runs(schema, kmerged(list_views(field_metadatas@))),
        kmerged(list_views(field_metadatas@)).to_multiset() == concat_all(
            list_views(field_metadatas@),
        ).to_multiset(),
        all_ascending(list_views(field_metadatas@)) ==> ascending(
            kmerged(list_views(field_metadatas@)),
        ),
        all_ascending(list_views(field_metadatas@)) ==> merged_by_field(
            schema,
            concat_all(list_views(field_metadatas@)),
            metadata_views(r@),
        ),
{
    let merged = kmerge(field_metadatas);
    proof {
        if all_ascending(list_views(field_metadatas@)) {
            lemma_joined_runs(schema, metadata_views(merged@));
            lemma_among(metadata_views(merged@), concat_all(list_views(field_metadatas@)));
            lemma_merged_by_field_of(
                schema,
                metadata_views(merged@),
                concat_all(list_views(field_metadatas@)),
                joined_runs(schema, metadata_views(merged@)),
            );
        }
    }
    join_runs(merged, schema)
}

proof fn lemma_bytes_irreflexive(a: Seq<u8>)
    ensures
        !bytes_before(a, a),
    decreases a.len(),
{
    if a.len() > 0 {
        lemma_bytes_irreflexive(a.drop_first());
    }
}

proof fn lemma_bytes_total(a: Seq<u8>, b: Seq<u8>)
    ensures
        a != b ==> bytes_before(a, b) || bytes_before(b, a),
        !(bytes_before(a, b) && bytes_before(b, a)),
    decreases a.len(),
{
    if a.len() > 0 && b.len() > 0 {
        lemma_bytes_total(a.drop_first(), b.drop_first());
        if a[0] == b[0] && a.drop_first() == b.drop_first() {
            assert(a =~= seq![a[0]] + a.drop_first());
            assert(b =~= seq![b[0]] + b.drop_first());
        }
    } else if a.len() == 0 && b.len() == 0 {
        assert(a =~= b);
    }
}

proof fn lemma_bytes_transitive(a: Seq<u8>, b: Seq<u8>, c: Seq<u8>)
    requires
        bytes_before(a, b),
        bytes_before(b, c),
    ensures
        bytes_before(a, c),
    decreases a.len(),
{
    if a.len() > 0 && b.len() > 0 && c.len() > 0 && a[0] == b[0] && b[0] == c[0] {
        lemma_bytes_transitive(a.drop_first(), b.drop_first(), c.drop_first());
    }
}

/// Comparing bytes one by one orders byte strings.
pub proof fn lemma_bytes_order(a: Seq<u8>, b: Seq<u8>, c: Seq<u8>)
    ensures
        !bytes_before(a, a),
        bytes_before(a, b) && bytes_before(b, c) ==> bytes_before(a, c),
        a != b ==> bytes_before(a, b) || bytes_before(b, a),
        !(bytes_before(a, b) && bytes_before(b, a)),
{
    lemma_bytes_irreflexive(a);
    lemma_bytes_total(a, b);
    if bytes_before(a, b) && bytes_before(b, c) {
        lemma_bytes_transitive(a, b, c);
    }
}

impl Ranked for FieldMetadata {
    open spec fn precedes(&self, other: &Self) -> bool {
        precedes(self@, other@)
    }

    fn ranks_before(&self, other: &Self) -> (b: bool) {
        comes_before(self, other)
    }

    proof fn lemma_strict(a: &Self, b: &Self, c: &Self) {
        lemma_precedes_order(a@, b@, c@);
    }

    proof fn lemma_tied_or_worse(a: &Self, b: &Self, c: &Self) {
        lemma_precedes_order(a@, b@, c@);
        lemma_precedes_order(a@, c@, b@);
        lemma_precedes_order(b@, a@, c@);
        lemma_precedes_order(c@, b@, a@);
    }
}

/// `precedes` orders field metadata.
pub proof fn lemma_precedes_order(a: FieldMetadataView, b: FieldMetadataView, c: FieldMetadataView)
    ensures
        !precedes(a, a),
        precedes(a, b) && precedes(b, c) ==> precedes(a, c),
        !precedes(a, b) && !precedes(b, c) ==> !precedes(a, c),
{
    let an = bytes_of(a.field_name);
    let bn = bytes_of(b.field_name);
    let cn = bytes_of(c.field_name);
    lemma_bytes_order(an, bn, cn);
    lemma_bytes_order(an, cn, bn);
    lemma_bytes_order(bn, an, cn);
    lemma_bytes_order(bn, cn, an);
    lemma_bytes_order(cn, an, bn);
    lemma_bytes_order(cn, bn, an);
}

/// Different texts have different bytes.
pub proof fn lemma_bytes_of_text(a: Seq<char>, b: Seq<char>)
    ensures
        bytes_of(a) == bytes_of(b) ==> a == b,
{
    vstd::utf8::encode_utf8_decode_utf8(a);
    vstd::utf8::encode_utf8_decode_utf8(b);
}

/// Whether the field of `a` comes before the field of `b`: by name, then
/// by type.
pub open spec fn field_before(a: FieldMetadataView, b: FieldMetadataView) -> bool {
    let an = bytes_of(a.field_name);
    let bn = bytes_of(b.field_name);
    if an != bn {
        bytes_before(an, bn)
    } else {
        a.typ.rank() < b.typ.rank()
    }
}

/// Each entry is of a field that comes after the fields of all entries
/// before it, so that no field has two entries.
pub open spec fn one_entry_per_field(list: Seq<FieldMetadataView>) -> bool {
    forall|i: int, j: int|
        0 <= i < j < list.len() ==> field_before(#[trigger] list[i], #[trigger] list[j])
}

/// Whether the entries have one of the field of `x`.
pub open spec fn has_field(entries: Seq<FieldMetadataView>, x: FieldMetadataView) -> bool {
    exists|i: int| 0 <= i < entries.len() && same_field(#[trigger] entries[i], x)
}

/// Whether one of the entries of the field of `x` says that it is indexed.
pub open spec fn indexed_in(entries: Seq<FieldMetadataView>, x: FieldMetadataView) -> bool {
    exists|i: int|
        0 <= i < entries.len() && same_field(#[trigger] entries[i], x) && entries[i].indexed
}

/// Whether one of the entries of the field of `x` says that it has a
/// column.
pub open spec fn columnar_in(entries: Seq<FieldMetadataView>, x: FieldMetadataView) -> bool {
    exists|i: int|
        0 <= i < entries.len() && same_field(#[trigger] entries[i], x) && entries[i].columnar
}

/// Whether `result` is `entries` merged by field: it has one entry for
/// each field of `entries` and for no other, in the order of the fields;
/// an entry is indexed, or has a column, where one of the field's entries
/// says so, and is stored where the schema says so.
pub open spec fn merged_by_field(
    schema: &Schema,
    entries: Seq<FieldMetadataView>,
    result: Seq<FieldMetadataView>,
) -> bool {
    &&& one_entry_per_field(result)
    &&& forall|i: int| 0 <= i < entries.len() ==> has_field(result, #[trigger] entries[i])
    &&& forall|k: int|
        0 <= k < result.len() ==> {
            &&& has_field(entries, #[trigger] result[k])
            &&& result[k].indexed == indexed_in(entries, result[k])
            &&& result[k].columnar == columnar_in(entries, result[k])
            &&& result[k].stored == stored_in(schema, result[k].field_name)
        }
}

/// The order of the fields is an order, and two entries that are not of
/// one field are of fields of which one comes before the other.
pub proof fn lemma_field_order(a: FieldMetadataView, b: FieldMetadataView, c: FieldMetadataView)
    ensures
        same_field(a, b) ==> !field_before(a, b),
        field_before(a, b) && field_before(b, c) ==> field_before(a, c),
        !same_field(a, b) && !precedes(b, a) ==> field_before(a, b),
        same_field(a, b) ==> field_before(a, c) == field_before(b, c) && field_before(c, a)
            == field_before(c, b),
{
    let an = bytes_of(a.field_name);
    let bn = bytes_of(b.field_name);
    let cn = bytes_of(c.field_name);
    lemma_bytes_order(an, bn, cn);
    lemma_bytes_order(bn, an, cn);
    lemma_bytes_order(an, cn, bn);
    lemma_bytes_of_text(a.field_name, b.field_name);
}

/// The entries but the last are ascending where all are.
proof fn lemma_ascending_drop_last(entries: Seq<FieldMetadataView>)
    requires
        ascending(entries),
        entries.len() > 0,
    ensures
        ascending(entries.drop_last()),
        entries.len() > 1 ==> !precedes(entries.last(), entries.drop_last().last()),
{
    let t = entries.drop_last();
    assert forall|i: int, j: int| 0 <= i < j < t.len() implies !precedes(
        #[trigger] t[j],
        #[trigger] t[i],
    ) by {
        assert(t[j] == entries[j] && t[i] == entries[i]);
    }
    if entries.len() > 1 {
        assert(!precedes(entries[entries.len() - 1], entries[entries.len() - 2]));
    }
}

/// How joining the runs goes on with one more entry: the last entry of
/// the result is of the field of the new entry, and before it stand the
/// entries that were there, all of earlier fields.
proof fn lemma_joined_step(schema: &Schema, entries: Seq<FieldMetadataView>)
    requires
        ascending(entries),
        entries.len() > 0,
    ensures
        ({
            let before = joined_runs(schema, entries.drop_last());
            let r = joined_runs(schema, entries);
            let x = entries.last();
            let joins = before.len() > 0 && same_field(before.last(), x);
            &&& r.len() == if joins {
                before.len()
            } else {
                before.len() + 1
            }
            &&& same_field(r.last(), x)
            &&& r.last().stored == stored_in(schema, x.field_name)
            &&& joins ==> r.last().indexed == (before.last().indexed || x.indexed)
                && r.last().columnar == (before.last().columnar || x.columnar)
            &&& !joins ==> r.last().indexed == x.indexed && r.last().columnar == x.columnar
            &&& forall|k: int|
                0 <= k < r.len() - 1 ==> #[trigger] r[k] == before[k] && field_before(r[k], r.last())
                    && !same_field(r[k], x)
            &&& one_entry_per_field(r)
        }),
    decreases entries.len(),
{
    let t = entries.drop_last();
    let x = entries.last();
    let before = joined_runs(schema, t);
    let r = joined_runs(schema, entries);
    let joins = before.len() > 0 && same_field(before.last(), x);
    let m = r.len() - 1;
    lemma_ascending_drop_last(entries);
    if t.len() > 0 {
        lemma_joined_step(schema, t);
    }
    assert forall|k: int| 0 <= k < m implies #[trigger] r[k] == before[k] && field_before(
        r[k],
        r[m],
    ) && !same_field(r[k], x) by {
        if joins {
            assert(field_before(before[k], before[before.len() - 1]));
            lemma_field_order(before.last(), r[m], before[k]);
        } else {
            lemma_field_order(before.last(), t.last(), x);
            lemma_field_order(t.last(), x, x);
            lemma_field_order(x, r[m], before.last());
            if k < before.len() - 1 {
                assert(field_before(before[k], before[before.len() - 1]));
                lemma_field_order(before[k], before.last(), r[m]);
            }
        }
        lemma_field_order(r[k], x, r[m]);
        lemma_field_order(x, r[m], r[k]);
    }
    assert forall|i: int, j: int| 0 <= i < j < r.len() implies field_before(
        #[trigger] r[i],
        #[trigger] r[j],
    ) by {
        if j < m {
            assert(r[i] == before[i] && r[j] == before[j]);
        }
    }
}

/// Entries merged by field stay so with one more entry, where the last
/// entry of the result takes it up or stands for it alone.
proof fn lemma_merged_step(
    schema: &Schema,
    t: Seq<FieldMetadataView>,
    x: FieldMetadataView,
    before: Seq<FieldMetadataView>,
    r: Seq<FieldMetadataView>,
    joins: bool,
)
    requires
        merged_by_field(schema, t, before),
        joins ==> before.len() > 0 && same_field(before.last(), x),
        r.len() == if joins {
            before.len()
        } else {
            before.len() + 1
        },
        same_field(r.last(), x),
        r.last().stored == stored_in(schema, x.field_name),
        joins ==> r.last().indexed == (before.last().indexed || x.indexed) && r.last().columnar
            == (before.last().columnar || x.columnar),
        !joins ==> r.last().indexed == x.indexed && r.last().columnar == x.columnar,
        forall|k: int|
            0 <= k < r.len() - 1 ==> #[trigger] r[k] == before[k] && !same_field(r[k], x),
        one_entry_per_field(r),
    ensures
        merged_by_field(schema, t.push(x), r),
{
    let entries = t.push(x);
    let n = t.len() as int;
    let m = r.len() - 1;
    assert forall|i: int| 0 <= i < entries.len() implies has_field(r, #[trigger] entries[i]) by {
        if i < n {
            assert(entries[i] == t[i]);
            assert(has_field(before, t[i]));
            let k = choose|k: int| 0 <= k < before.len() && same_field(#[trigger] before[k], t[i]);
            if k < m {
                assert(r[k] == before[k]);
                assert(same_field(r[k], entries[i]));
            } else {
                assert(same_field(r[m], entries[i]));
            }
        } else {
            assert(same_field(r[m], entries[i]));
        }
    }
    assert forall|k: int| 0 <= k < r.len() implies {
        &&& has_field(entries, #[trigger] r[k])
        &&& r[k].indexed == indexed_in(entries, r[k])
        &&& r[k].columnar == columnar_in(entries, r[k])
        &&& r[k].stored == stored_in(schema, r[k].field_name)
    } by {
        if k < m {
            let y = before[k];
            assert(r[k] == y);
            assert(has_field(t, y));
            lemma_flags_in(t, x, y);
        } else if joins {
            let y = before.last();
            assert(has_field(t, y));
            lemma_flags_in(t, x, y);
            lemma_flags_same(entries, r[m], y);
        } else {
            if has_field(t, x) {
                let i = choose|i: int| 0 <= i < t.len() && same_field(#[trigger] t[i], x);
                assert(has_field(before, t[i]));
                let k2 = choose|k2: int|
                    0 <= k2 < before.len() && same_field(#[trigger] before[k2], t[i]);
                assert(r[k2] == before[k2]);
                assert(false);
            }
            lemma_flags_in(t, x, x);
            lemma_flags_same(entries, r[m], x);
        }
    }
}

/// Joining the runs of entries in ascending order merges them by field.
pub proof fn lemma_joined_runs(schema: &Schema, entries: Seq<FieldMetadataView>)
    requires
        ascending(entries),
    ensures
        merged_by_field(schema, entries, joined_runs(schema, entries)),
    decreases entries.len(),
{
    if entries.len() > 0 {
        let t = entries.drop_last();
        let x = entries.last();
        let before = joined_runs(schema, t);
        let joins = before.len() > 0 && same_field(before.last(), x);
        assert(t.push(x) =~= entries) by {
            assert(t.push(x).len() == entries.len());
            assert forall|i: int| 0 <= i < entries.len() implies t.push(x)[i] == entries[i] by {}
        }
        lemma_ascending_drop_last(entries);
        lemma_joined_runs(schema, t);
        lemma_joined_step(schema, entries);
        lemma_merged_step(schema, t, x, before, joined_runs(schema, entries), joins);
    }
}

/// What the entries say of the field of `y` once `x` is added to them.
proof fn lemma_flags_in(t: Seq<FieldMetadataView>, x: FieldMetadataView, y: FieldMetadataView)
    ensures
        has_field(t.push(x), y) == (has_field(t, y) || same_field(x, y)),
        indexed_in(t.push(x), y) == (indexed_in(t, y) || (same_field(x, y) && x.indexed)),
        columnar_in(t.push(x), y) == (columnar_in(t, y) || (same_field(x, y) && x.columnar)),
{
    let e = t.push(x);
    if has_field(t, y) {
        let i = choose|i: int| 0 <= i < t.len() && same_field(#[trigger] t[i], y);
        assert(same_field(e[i], y));
    }
    if same_field(x, y) {
        assert(same_field(e[t.len() as int], y));
    }
    if has_field(e, y) {
        let i = choose|i: int| 0 <= i < e.len() && same_field(#[trigger] e[i], y);
        if i < t.len() {
            assert(same_field(t[i], y));
        }
    }
    if indexed_in(t, y) {
        let i = choose|i: int| 0 <= i < t.len() && same_field(#[trigger] t[i], y) && t[i].indexed;
        assert(same_field(e[i], y) && e[i].indexed);
    }
    if same_field(x, y) && x.indexed {
        assert(same_field(e[t.len() as int], y) && e[t.len() as int].indexed);
    }
    if indexed_in(e, y) {
        let i = choose|i: int| 0 <= i < e.len() && same_field(#[trigger] e[i], y) && e[i].indexed;
        if i < t.len() {
            assert(same_field(t[i], y) && t[i].indexed);
        }
    }
    if columnar_in(t, y) {
        let i = choose|i: int| 0 <= i < t.len() && same_field(#[trigger] t[i], y) && t[i].columnar;
        assert(same_field(e[i], y) && e[i].columnar);
    }
    if same_field(x, y) && x.columnar {
        assert(same_field(e[t.len() as int], y) && e[t.len() as int].columnar);
    }
    if columnar_in(e, y) {
        let i = choose|i: int| 0 <= i < e.len() && same_field(#[trigger] e[i], y) && e[i].columnar;
        if i < t.len() {
            assert(same_field(t[i], y) && t[i].columnar);
        }
    }
}

/// What the entries say of a field does not depend on the entry that
/// names the field.
proof fn lemma_flags_same(entries: Seq<FieldMetadataView>, x: FieldMetadataView, y: FieldMetadataView)
    requires
        same_field(x, y),
    ensures
        indexed_in(entries, x) == indexed_in(entries, y),
        columnar_in(entries, x) == columnar_in(entries, y),
        has_field(entries, x) == has_field(entries, y),
{
    assert forall|i: int| 0 <= i < entries.len() implies same_field(#[trigger] entries[i], x)
        == same_field(entries[i], y) by {}
}

/// Every entry of `a` is an entry of `b`.
pub open spec fn among(a: Seq<FieldMetadataView>, b: Seq<FieldMetadataView>) -> bool {
    forall|i: int| 0 <= i < a.len() ==> b.contains(#[trigger] a[i])
}

/// Whether entries are merged by field does not depend on their order,
/// nor on anything but which entries there are.
pub proof fn lemma_merged_by_field_of(
    schema: &Schema,
    a: Seq<FieldMetadataView>,
    b: Seq<FieldMetadataView>,
    result: Seq<FieldMetadataView>,
)
    requires
        among(a, b),
        among(b, a),
        merged_by_field(schema, a, result),
    ensures
        merged_by_field(schema, b, result),
{
    assert forall|i: int| 0 <= i < b.len() implies has_field(result, #[trigger] b[i]) by {
        assert(a.contains(b[i]));
        let j = choose|j: int| 0 <= j < a.len() && a[j] == b[i];
        assert(has_field(result, a[j]));
    }
    assert forall|k: int| 0 <= k < result.len() implies {
        &&& has_field(b, #[trigger] result[k])
        &&& result[k].indexed == indexed_in(b, result[k])
        &&& result[k].columnar == columnar_in(b, result[k])
    } by {
        lemma_same_entries(a, b, result[k]);
        lemma_same_entries(b, a, result[k]);
    }
}

/// What entries say of a field, other entries that hold each of them say
/// too.
proof fn lemma_same_entries(a: Seq<FieldMetadataView>, b: Seq<FieldMetadataView>, y: FieldMetadataView)
    requires
        among(a, b),
    ensures
        has_field(a, y) ==> has_field(b, y),
        indexed_in(a, y) ==> indexed_in(b, y),
        columnar_in(a, y) ==> columnar_in(b, y),
{
    if has_field(a, y) {
        let i = choose|i: int| 0 <= i < a.len() && same_field(#[trigger] a[i], y);
        assert(b.contains(a[i]));
        let j = choose|j: int| 0 <= j < b.len() && b[j] == a[i];
        assert(same_field(b[j], y));
    }
    if indexed_in(a, y) {
        let i = choose|i: int| 0 <= i < a.len() && same_field(#[trigger] a[i], y) && a[i].indexed;
        assert(b.contains(a[i]));
        let j = choose|j: int| 0 <= j < b.len() && b[j] == a[i];
        assert(same_field(b[j], y) && b[j].indexed);
    }
    if columnar_in(a, y) {
        let i = choose|i: int| 0 <= i < a.len() && same_field(#[trigger] a[i], y) && a[i].columnar;
        assert(b.contains(a[i]));
        let j = choose|j: int| 0 <= j < b.len() && b[j] == a[i];
        assert(same_field(b[j], y) && b[j].columnar);
    }
}

/// Lists that hold the same entries, each as often, hold each other's
/// entries.
pub proof fn lemma_among(a: Seq<FieldMetadataView>, b: Seq<FieldMetadataView>)
    requires
        a.to_multiset() == b.to_multiset(),
    ensures
        among(a, b),
        among(b, a),
{
    broadcast use vstd::seq_lib::group_to_multiset_ensures;

    assert forall|i: int| 0 <= i < a.len() implies b.contains(#[trigger] a[i]) by {
        assert(a.contains(a[i]));
        assert(a.to_multiset().count(a[i]) > 0);
    }
    assert forall|i: int| 0 <= i < b.len() implies a.contains(#[trigger] b[i]) by {
        assert(b.contains(b[i]));
        assert(b.to_multiset().count(b[i]) > 0);
    }
}

/// Ranked field metadata are in ascending order, and hold what was given.
pub proof fn lemma_ranked_ascending(list: Seq<FieldMetadata>)
    ensures
        ascending(metadata_views(ranked(list))),
        among(metadata_views(ranked(list)), metadata_views(list)),
        among(metadata_views(list), metadata_views(ranked(list))),
{
    broadcast use vstd::seq_lib::group_to_multiset_ensures;

    crate::ranking::lemma_ranked(list);
    let r = ranked(list);
    let rv = metadata_views(r);
    let lv = metadata_views(list);
    assert forall|i: int, j: int| 0 <= i < j < rv.len() implies !precedes(
        #[trigger] rv[j],
        #[trigger] rv[i],
    ) by {
        assert(!r[j].precedes(&r[i]));
    }
    assert forall|i: int| 0 <= i < rv.len() implies lv.contains(#[trigger] rv[i]) by {
        assert(r.contains(r[i]));
        assert(r.to_multiset().count(r[i]) > 0);
        assert(list.contains(r[i]));
        let j = choose|j: int| 0 <= j < list.len() && list[j] == r[i];
        assert(lv[j] == rv[i]);
    }
    assert forall|i: int| 0 <= i < lv.len() implies rv.contains(#[trigger] lv[i]) by {
        assert(list.contains(list[i]));
        assert(list.to_multiset().count(list[i]) > 0);
        assert(r.contains(list[i]));
        let j = choose|j: int| 0 <= j < r.len() && r[j] == list[i];
        assert(rv[j] == lv[i]);
    }
}

/// `list` with `x` put behind every entry that `x` does not precede.
pub open spec fn placed(list: Seq<FieldMetadataView>, x: FieldMetadataView) -> Seq<FieldMetadataView>
    decreases list.len(),
{
    if list.len() == 0 {
        seq![x]
    } else if precedes(x, list[0]) {
        seq![x] + list
    } else {
        seq![list[0]] + placed(list.drop_first(), x)
    }
}

/// The entries in ascending order; entries that are alike keep their
/// order.
pub open spec fn sorted(list: Seq<FieldMetadataView>) -> Seq<FieldMetadataView>
    decreases list.len(),
{
    if list.len() == 0 {
        Seq::empty()
    } else {
        placed(sorted(list.drop_last()), list.last())
    }
}

proof fn lemma_placed_views(list: Seq<FieldMetadata>, x: FieldMetadata)
    ensures
        metadata_views(place(list, x)) == placed(metadata_views(list), x@),
    decreases list.len(),
{
    let views = metadata_views(list);
    if list.len() == 0 {
        assert(metadata_views(place(list, x)) =~= seq![x@]);
    } else if x.precedes(&list[0]) {
        assert(metadata_views(seq![x] + list) =~= seq![x@] + views);
    } else {
        lemma_placed_views(list.drop_first(), x);
        assert(views.drop_first() =~= metadata_views(list.drop_first()));
        assert(metadata_views(seq![list[0]] + place(list.drop_first(), x)) =~= seq![views[0]]
            + metadata_views(place(list.drop_first(), x)));
    }
}

/// Ranking field metadata sorts what they hold.
pub proof fn lemma_ranked_views(list: Seq<FieldMetadata>)
    ensures
        metadata_views(ranked(list)) == sorted(metadata_views(list)),
    decreases list.len(),
{
    if list.len() == 0 {
        assert(metadata_views(ranked(list)) =~= Seq::<FieldMetadataView>::empty());
    } else {
        lemma_ranked_views(list.drop_last());
        lemma_placed_views(ranked(list.drop_last()), list.last());
        assert(metadata_views(list).drop_last() =~= metadata_views(list.drop_last()));
    }
}

/// `fnv::FnvHasher`: the hasher of the map from paths to their canonical
/// form.
#[verifier::external_type_specification]
#[verifier::external_body]
pub struct ExFnvHasher(fnv::FnvHasher);

/// `std::hash::BuildHasherDefault`: makes hashers by `Default`.
#[verifier::external_type_specification]
#[verifier::external_body]
#[verifier::reject_recursive_types(H)]
pub struct ExBuildHasherDefault<H>(std::hash::BuildHasherDefault<H>);

/// What a map from paths to their canonical form holds.
pub uninterp spec fn canonical_paths(paths: FnvHashMap<String, String>) -> Map<Seq<char>, Seq<char>>;

/// No paths.
pub open spec fn no_paths() -> Map<Seq<char>, Seq<char>> {
    Map::empty()
}

/// `FnvHashMap::default`: a map without entries.
#[verifier::external_body]
pub(crate) fn paths_new() -> (r: FnvHashMap<String, String>)
    ensures
        canonical_paths(r) == no_paths(),
{
    FnvHashMap::default()
}

/// `HashMap::insert`: afterwards the map holds `value` for `key`, and for
/// every other key what it held.
#[verifier::external_body]
pub(crate) fn paths_insert(paths: &mut FnvHashMap<String, String>, key: String, value: String)
    ensures
        canonical_paths(*final(paths)) == canonical_paths(*old(paths)).insert(key@, value@),
{
    paths.insert(key, value);
}

/// `HashMap::get`: what the map holds for `key`, if anything.
#[verifier::external_body]
pub(crate) fn paths_get<'a>(paths: &'a FnvHashMap<String, String>, key: &str) -> (r: Option<
    &'a String,
>)
    ensures
        match r {
            Some(v) => canonical_paths(*paths).contains_key(key@) && canonical_paths(*paths)[key@]
                == v@,
            None => !canonical_paths(*paths).contains_key(key@),
        },
{
    paths.get(key)
}

/// Whether a path in a JSON value gets a canonical form of its own: where
/// dots in keys are not steps of a path, and the path has a dot.
pub open spec fn needs_canonical(expand_dots: bool, json_path: Seq<char>) -> bool {
    !expand_dots && json_path.contains('.')
}

/// The name under which a path in the JSON value of a field can be
/// searched: the field's name, a dot, and the path, with its dots escaped
/// where it has a canonical form of its own, else with a dot between its
/// steps.
pub open spec fn json_field_name(field_name: Seq<char>, json_path: Seq<char>, expand_dots: bool) -> Seq<
    char,
> {
    if needs_canonical(expand_dots, json_path) {
        field_name + seq!['.'] + replaced(json_path, '.', seq!['\\', '.'])
    } else {
        field_name + seq!['.'] + replaced(json_path, '\u{1}', seq!['.'])
    }
}

/// What paths with their types hold.
pub open spec fn path_views(paths: Seq<(String, Type)>) -> Seq<(Seq<char>, Type)> {
    paths.map_values(|p: (String, Type)| (p.0@, p.1))
}

/// An indexed field that is neither stored nor in a column.
pub open spec fn indexed_entry(field_name: Seq<char>, typ: Type) -> FieldMetadataView {
    FieldMetadataView { field_name, typ, indexed: true, stored: false, columnar: false }
}

/// The entries of the paths found in the JSON value of a field.
pub open spec fn json_entries(
    field_name: Seq<char>,
    expand_dots: bool,
    paths: Seq<(Seq<char>, Type)>,
) -> Seq<FieldMetadataView> {
    paths.map_values(
        |p: (Seq<char>, Type)| indexed_entry(json_field_name(field_name, p.0, expand_dots), p.1),
    )
}

/// The canonical forms after the paths found in the JSON value of a field
/// were gone through.
pub open spec fn json_canonical(
    canonical: Map<Seq<char>, Seq<char>>,
    field_name: Seq<char>,
    expand_dots: bool,
    paths: Seq<(Seq<char>, Type)>,
) -> Map<Seq<char>, Seq<char>>
    decreases paths.len(),
{
    if paths.len() == 0 {
        canonical
    } else {
        let before = json_canonical(canonical, field_name, expand_dots, paths.drop_last());
        let path = paths.last().0;
        if needs_canonical(expand_dots, path) {
            before.insert(
                field_name + seq!['.'] + path,
                json_field_name(field_name, path, expand_dots),
            )
        } else {
            before
        }
    }
}

/// The paths found in the JSON value of the field of number `i`: none
/// where none are given for it.
pub open spec fn paths_of(encoded: Seq<Vec<(String, Type)>>, i: int) -> Seq<(Seq<char>, Type)> {
    if 0 <= i < encoded.len() {
        path_views(encoded[i]@)
    } else {
        Seq::empty()
    }
}

/// The entries of the indexed fields among the first `n` fields: one for
/// each indexed field, and for an indexed field of JSON values one for
/// each path found in its values.
pub open spec fn indexed_entries(
    fields: Seq<FieldEntry>,
    encoded: Seq<Vec<(String, Type)>>,
    n: int,
) -> Seq<FieldMetadataView>
    decreases n,
{
    if n <= 0 {
        Seq::empty()
    } else {
        let before = indexed_entries(fields, encoded, n - 1);
        let field = fields[n - 1];
        if !field.indexed {
            before
        } else if field.typ == Type::Json {
            before + json_entries(field.name@, field.expand_dots, paths_of(encoded, n - 1))
        } else {
            before.push(indexed_entry(field.name@, field.typ))
        }
    }
}

/// The canonical forms after the first `n` fields were gone through.
pub open spec fn canonical_forms(
    fields: Seq<FieldEntry>,
    encoded: Seq<Vec<(String, Type)>>,
    n: int,
) -> Map<Seq<char>, Seq<char>>
    decreases n,
{
    if n <= 0 {
        Map::empty()
    } else {
        let before = canonical_forms(fields, encoded, n - 1);
        let field = fields[n - 1];
        if field.indexed && field.typ == Type::Json {
            json_canonical(before, field.name@, field.expand_dots, paths_of(encoded, n - 1))
        } else {
            before
        }
    }
}

/// The entry of a column: its name with a dot between its steps, or the
/// canonical form of that where there is one.
pub open spec fn column_entry(canonical: Map<Seq<char>, Seq<char>>, column: (Seq<char>, Type)) -> FieldMetadataView {
    let dotted = replaced(column.0, '\u{1}', seq!['.']);
    FieldMetadataView {
        field_name: if canonical.contains_key(dotted) {
            canonical[dotted]
        } else {
            dotted
        },
        typ: column.1,
        indexed: false,
        stored: false,
        columnar: true,
    }
}

/// The entries of columns.
pub open spec fn column_entries(canonical: Map<Seq<char>, Seq<char>>, columns: Seq<(Seq<char>, Type)>) -> Seq<
    FieldMetadataView,
> {
    columns.map_values(|c: (Seq<char>, Type)| column_entry(canonical, c))
}

/// The name under which a path in the JSON value of a field can be
/// searched. A path that gets a canonical form of its own is noted in
/// `map_to_canonical`.
fn build_path(
    map_to_canonical: &mut FnvHashMap<String, String>,
    field_name: &str,
    expand_dots: bool,
    json_path: &str,
) -> (r: String)
    ensures
        r@ == json_field_name(field_name@, json_path@, expand_dots),
        canonical_paths(*final(map_to_canonical)) == if needs_canonical(expand_dots, json_path@) {
            canonical_paths(*old(map_to_canonical)).insert(field_name@ + seq!['.'] + json_path@, r@)
        } else {
            canonical_paths(*old(map_to_canonical))
        },
{
    proof {
        reveal_strlit(".");
        reveal_strlit("\\.");
        assert("."@ =~= seq!['.']);
        assert("\\."@ =~= seq!['\\', '.']);
    }
    // without expand dots enabled dots need to be escaped
    let create_canonical = !expand_dots && has_char(json_path, '.');
    if create_canonical {
        let escaped_json_path = replace_char(json_path, '.', "\\.");
        let full_path = join3(field_name, ".", escaped_json_path.as_str());
        let full_path_unescaped = join3(field_name, ".", json_path);
        paths_insert(map_to_canonical, full_path_unescaped, full_path.clone());
        full_path
    } else {
        // with expand dots enabled, a dot can stand between the steps
        let dotted = replace_char(json_path, '\u{1}', ".");
        join3(field_name, ".", dotted.as_str())
    }
}

/// What is known of the fields of a segment: of the indexed fields of the
/// schema, with the paths found in JSON values, and of the columns, merged
/// by field.
pub fn fields_metadata(
    schema: &Schema,
    encoded_fields: &Vec<Vec<(String, Type)>>,
    columns: &Vec<(String, Type)>,
) -> (r: Vec<FieldMetadata>)
    ensures
        metadata_views(r@) == joined_runs(
            schema,
            kmerged(
                seq![
                    sorted(indexed_entries(schema.fields@, encoded_fields@, schema.fields@.len() as int)),
                    sorted(
                        column_entries(
                            canonical_forms(
                                schema.fields@,
                                encoded_fields@,
                                schema.fields@.len() as int,
                            ),
                            path_views(columns@),
                        ),
                    ),
                ],
            ),
        ),
        merged_by_field(
            schema,
            indexed_entries(schema.fields@, encoded_fields@, schema.fields@.len() as int)
                + column_entries(
                canonical_forms(schema.fields@, encoded_fields@, schema.fields@.len() as int),
                path_views(columns@),
            ),
            metadata_views(r@),
        ),
{
    let mut indexed_fields: Vec<FieldMetadata> = Vec::new();
    let mut map_to_canonical = paths_new();
    let mut i: usize = 0;
    proof {
        assert(metadata_views(indexed_fields@) =~= indexed_entries(
            schema.fields@,
            encoded_fields@,
            0,
        ));
    }
    while i < schema.fields.len()
        invariant
            i <= schema.fields.len(),
            metadata_views(indexed_fields@) == indexed_entries(
                schema.fields@,
                encoded_fields@,
                i as int,
            ),
            canonical_paths(map_to_canonical) == canonical_forms(
                schema.fields@,
                encoded_fields@,
                i as int,
            ),
        decreases schema.fields.len() - i,
    {
        let field_entry = &schema.fields[i];
        let ghost before = metadata_views(indexed_fields@);
        if field_entry.is_indexed() {
            let is_json = field_entry.typ == Type::Json;
            if is_json {
                let ghost base = canonical_paths(map_to_canonical);
                let ghost paths = paths_of(encoded_fields@, i as int);
                if i < encoded_fields.len() {
                    let encoded = &encoded_fields[i];
                    let mut k: usize = 0;
                    proof {
                        assert(before + json_entries(
                            field_entry.name@,
                            field_entry.expand_dots,
                            paths.take(0),
                        ) =~= before);
                    }
                    while k < encoded.len()
                        invariant
                            k <= encoded.len(),
                            paths == path_views(encoded@),
                            metadata_views(indexed_fields@) == before + json_entries(
                                field_entry.name@,
                                field_entry.expand_dots,
                                paths.take(k as int),
                            ),
                            canonical_paths(map_to_canonical) == json_canonical(
                                base,
                                field_entry.name@,
                                field_entry.expand_dots,
                                paths.take(k as int),
                            ),
                        decreases encoded.len() - k,
                    {
                        let ghost inner = metadata_views(indexed_fields@);
                        proof {
                            assert(paths.take(k + 1).drop_last() =~= paths.take(k as int));
                            assert(paths[k as int] == (encoded@[k as int].0@, encoded@[k as int].1));
                        }
                        let field_name = build_path(
                            &mut map_to_canonical,
                            field_entry.name.as_str(),
                            field_entry.is_expand_dots_enabled(),
                            encoded[k].0.as_str(),
                        );
                        let entry = FieldMetadata {
                            indexed: true,
                            stored: false,
                            field_name,
                            columnar: false,
                            typ: encoded[k].1,
                        };
                        let ghost view = entry@;
                        indexed_fields.push(entry);
                        proof {
                            assert(metadata_views(indexed_fields@) =~= inner.push(view));
                            assert(before + json_entries(
                                field_entry.name@,
                                field_entry.expand_dots,
                                paths.take(k + 1),
                            ) =~= inner.push(view));
                        }
                        k += 1;
                    }
                    proof {
                        assert(paths.take(k as int) =~= paths);
                    }
                } else {
                    proof {
                        assert(before + json_entries(
                            field_entry.name@,
                            field_entry.expand_dots,
                            paths,
                        ) =~= before);
                    }
                }
            } else {
                let entry = FieldMetadata {
                    indexed: true,
                    stored: false,
                    field_name: field_entry.name.clone(),
                    columnar: false,
                    typ: field_entry.typ,
                };
                let ghost view = entry@;
                indexed_fields.push(entry);
                proof {
                    assert(metadata_views(indexed_fields@) =~= before.push(view));
                }
            }
        }
        i += 1;
    }
    let ghost canonical = canonical_paths(map_to_canonical);
    let mut column_fields: Vec<FieldMetadata> = Vec::new();
    let mut j: usize = 0;
    proof {
        assert(metadata_views(column_fields@) =~= column_entries(
            canonical,
            path_views(columns@).take(0),
        ));
    }
    while j < columns.len()
        invariant
            j <= columns.len(),
            canonical == canonical_paths(map_to_canonical),
            metadata_views(column_fields@) == column_entries(
                canonical,
                path_views(columns@).take(j as int),
            ),
        decreases columns.len() - j,
    {
        let ghost before = metadata_views(column_fields@);
        proof {
            reveal_strlit(".");
            assert("."@ =~= seq!['.']);
        }
        let dotted = replace_char(columns[j].0.as_str(), '\u{1}', ".");
        // the canonical path, to avoid entries that are alike but differ
        let field_name = match paths_get(&map_to_canonical, dotted.as_str()) {
            Some(canonical_name) => canonical_name.clone(),
            None => dotted,
        };
        let entry = FieldMetadata {
            indexed: false,
            stored: false,
            field_name,
            columnar: true,
            typ: columns[j].1,
        };
        let ghost view = entry@;
        column_fields.push(entry);
        proof {
            assert(view == column_entry(canonical, path_views(columns@)[j as int]));
            assert(metadata_views(column_fields@) =~= before.push(view));
            assert(column_entries(canonical, path_views(columns@).take(j + 1)) =~= before.push(
                view,
            ));
        }
        j += 1;
    }
    let ghost indexed = metadata_views(indexed_fields@);
    let ghost columnar = metadata_views(column_fields@);
    proof {
        assert(path_views(columns@).take(j as int) =~= path_views(columns@));
        lemma_ranked_views(indexed_fields@);
        lemma_ranked_views(column_fields@);
        lemma_ranked_ascending(indexed_fields@);
        lemma_ranked_ascending(column_fields@);
    }
    // the two lists come in different orders, so both are sorted
    let indexed_fields = sort_ranked(indexed_fields);
    let column_fields = sort_ranked(column_fields);
    let ghost first = metadata_views(indexed_fields@);
    let ghost second = metadata_views(column_fields@);
    let mut lists: Vec<Vec<FieldMetadata>> = Vec::new();
    lists.push(indexed_fields);
    lists.push(column_fields);
    proof {
        assert(list_views(lists@) =~= seq![first, second]);
        lemma_both(indexed, columnar, first, second);
    }
    let merged = merge_field_meta_data(lists, schema);
    proof {
        lemma_merged_by_field_of(
            schema,
            concat_all(seq![first, second]),
            indexed + columnar,
            metadata_views(merged@),
        );
    }
    merged
}

/// Two sorted lists one after the other hold what the two lists hold that
/// they were sorted from.
proof fn lemma_both(
    a: Seq<FieldMetadataView>,
    b: Seq<FieldMetadataView>,
    first: Seq<FieldMetadataView>,
    second: Seq<FieldMetadataView>,
)
    requires
        among(a, first),
        among(first, a),
        among(b, second),
        among(second, b),
    ensures
        concat_all(seq![first, second]) == first + second,
        among(concat_all(seq![first, second]), a + b),
        among(a + b, concat_all(seq![first, second])),
{
    let parts = seq![first, second];
    assert(parts.drop_last() =~= seq![first]);
    assert(parts.drop_last().drop_last() =~= Seq::<Seq<FieldMetadataView>>::empty());
    assert(concat_all(parts.drop_last()) =~= first) by {
        assert(concat_all(parts.drop_last().drop_last()) =~= Seq::<FieldMetadataView>::empty());
    }
    let both = first + second;
    assert(concat_all(parts) =~= both);
    assert forall|i: int| 0 <= i < both.len() implies (a + b).contains(#[trigger] both[i]) by {
        if i < first.len() {
            assert(a.contains(first[i]));
            let j = choose|j: int| 0 <= j < a.len() && a[j] == first[i];
            assert((a + b)[j] == both[i]);
        } else {
            assert(b.contains(second[i - first.len()]));
            let j = choose|j: int| 0 <= j < b.len() && b[j] == second[i - first.len()];
            assert((a + b)[a.len() + j] == both[i]);
        }
    }
    assert forall|i: int| 0 <= i < (a + b).len() implies both.contains(#[trigger] (a + b)[i]) by {
        if i < a.len() {
            assert(first.contains(a[i]));
            let j = choose|j: int| 0 <= j < first.len() && first[j] == a[i];
            assert(both[j] == (a + b)[i]);
        } else {
            assert(second.contains(b[i - a.len()]));
            let j = choose|j: int| 0 <= j < second.len() && second[j] == b[i - a.len()];
            assert(both[first.len() + j] == (a + b)[i]);
        }
    }
}

} // verus!
