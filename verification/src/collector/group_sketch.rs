//! For each group, a sketch of the distinct values that occur with it.

use crate::collector::group::{excluded_by, opened, GroupColumns, GroupColumnsView, GroupSetup};
use crate::column::{FieldEnum, WarmedColumnFields};
use crate::error::Error;
use crate::filter::ColumnFieldFilter;
use crate::hashed::{entries_of, map_entries, map_insert, map_new, map_remove};
use crate::hyperloglog::{added, empty_registers, merged, HyperLogLog, REGISTERS};
use crate::index_query::{IndexQuery, IndexQueryView};
use crate::schema::Field;
use crate::searcher::Searcher;
use crate::segment_reader::SegmentReader;
use rustc_hash::FxHashMap;
use std::sync::Arc;
use vstd::prelude::*;

verus! {

/// The registers of the sketches of a map.
pub open spec fn sketches(m: Map<u128, HyperLogLog>) -> Map<u128, Seq<u8>> {
    m.map_values(|h: HyperLogLog| h@)
}

/// The sketch of a group: that of nothing where the map has none.
pub open spec fn sketch_of(m: Map<u128, Seq<u8>>, group: u128) -> Seq<u8> {
    if m.contains_key(group) {
        m[group]
    } else {
        empty_registers()
    }
}

/// The sketches after `value` was added to the sketch of `group`.
pub open spec fn with_value(m: Map<u128, Seq<u8>>, group: u128, value: u128) -> Map<u128, Seq<u8>> {
    m.insert(group, added(sketch_of(m, group), value))
}

/// The sketches of these pairs of group and value.
pub open spec fn grouped(pairs: Seq<(u128, u128)>) -> Map<u128, Seq<u8>>
    decreases pairs.len(),
{
    if pairs.len() == 0 {
        Map::empty()
    } else {
        with_value(grouped(pairs.drop_last()), pairs.last().0, pairs.last().1)
    }
}

/// The sketches of two maps merged: for each group that one of them has,
/// the merge of its two sketches.
pub open spec fn merged_sketches(a: Map<u128, Seq<u8>>, b: Map<u128, Seq<u8>>) -> Map<
    u128,
    Seq<u8>,
> {
    Map::new(
        |g: u128| a.contains_key(g) || b.contains_key(g),
        |g: u128| merged(sketch_of(a, g), sketch_of(b, g)),
    )
}

/// The sketches of several maps merged, one map after the other.
pub open spec fn merged_all(fruits: Seq<Map<u128, Seq<u8>>>) -> Map<u128, Seq<u8>>
    decreases fruits.len(),
{
    if fruits.len() == 0 {
        Map::empty()
    } else {
        merged_sketches(merged_all(fruits.drop_last()), fruits.last())
    }
}

/// Every sketch of pairs has all its registers.
pub proof fn lemma_grouped_registers(pairs: Seq<(u128, u128)>)
    ensures
        forall|g: u128| #[trigger]
            grouped(pairs).contains_key(g) ==> grouped(pairs)[g].len() == REGISTERS,
    decreases pairs.len(),
{
    if pairs.len() > 0 {
        let before = grouped(pairs.drop_last());
        let group = pairs.last().0;
        lemma_grouped_registers(pairs.drop_last());
        assert forall|g: u128| #[trigger] grouped(pairs).contains_key(g) implies grouped(
            pairs,
        )[g].len() == REGISTERS by {
            if g == group {
                assert(sketch_of(before, group).len() == REGISTERS);
            } else {
                assert(before.contains_key(g));
            }
        }
    }
}

/// Collecting pairs in two parts and merging the sketches gives what
/// collecting all of them at once gives.
pub proof fn lemma_grouped_concat(p: Seq<(u128, u128)>, q: Seq<(u128, u128)>)
    ensures
        merged_sketches(grouped(p), grouped(q)) == grouped(p + q),
    decreases q.len(),
{
    lemma_grouped_registers(p);
    lemma_grouped_registers(q);
    let gp = grouped(p);
    if q.len() == 0 {
        assert(p + q =~= p);
        assert forall|g: u128| gp.contains_key(g) implies merged(
            sketch_of(gp, g),
            sketch_of(grouped(q), g),
        ) == gp[g] by {
            assert(merged(gp[g], empty_registers()) =~= gp[g]);
        }
        assert(merged_sketches(gp, grouped(q)) =~= gp);
    } else {
        let t = q.drop_last();
        let group = q.last().0;
        let value = q.last().1;
        lemma_grouped_concat(p, t);
        lemma_grouped_registers(t);
        assert((p + q).drop_last() =~= p + t);
        let gt = grouped(t);
        let a = sketch_of(gp, group);
        let b = sketch_of(gt, group);
        assert(a.len() == REGISTERS && b.len() == REGISTERS);
        assert(added(merged(a, b), value) =~= merged(a, added(b, value)));
        assert(sketch_of(merged_sketches(gp, gt), group) == merged(a, b)) by {
            if !gp.contains_key(group) && !gt.contains_key(group) {
                assert(merged(a, b) =~= empty_registers());
            }
        }
        let left = merged_sketches(gp, with_value(gt, group, value));
        let right = with_value(merged_sketches(gp, gt), group, value);
        assert forall|g: u128| left.contains_key(g) == right.contains_key(g) && (left.contains_key(
            g,
        ) ==> left[g] == right[g]) by {
            if g != group {
                assert(sketch_of(with_value(gt, group, value), g) == sketch_of(gt, g));
            }
        }
        assert(merged_sketches(gp, with_value(gt, group, value)) =~= with_value(
            merged_sketches(gp, gt),
            group,
            value,
        ));
    }
}

/// Collecting pairs part by part, as segments and shards do, and merging
/// the sketches gives what collecting all pairs at once gives.
pub proof fn lemma_merged_parts(parts: Seq<Seq<(u128, u128)>>)
    ensures
        merged_all(parts.map_values(|p: Seq<(u128, u128)>| grouped(p))) == grouped(
            crate::ranking::concat_all(parts),
        ),
    decreases parts.len(),
{
    let mapped = parts.map_values(|p: Seq<(u128, u128)>| grouped(p));
    if parts.len() > 0 {
        lemma_merged_parts(parts.drop_last());
        assert(mapped.drop_last() =~= parts.drop_last().map_values(
            |p: Seq<(u128, u128)>| grouped(p),
        ));
        lemma_grouped_concat(crate::ranking::concat_all(parts.drop_last()), parts.last());
    }
}

/// Every sketch of the map has all its registers.
pub open spec fn full(m: Map<u128, Seq<u8>>) -> bool {
    forall|g: u128| #[trigger] m.contains_key(g) ==> m[g].len() == REGISTERS
}

/// It does not matter which of two fruits is merged into which: each group
/// gets the same registers.
pub proof fn lemma_fruits_commute(a: Map<u128, Seq<u8>>, b: Map<u128, Seq<u8>>)
    requires
        full(a),
        full(b),
    ensures
        merged_sketches(a, b) == merged_sketches(b, a),
{
    assert forall|g: u128| a.contains_key(g) || b.contains_key(g) implies merged(
        sketch_of(a, g),
        sketch_of(b, g),
    ) == merged(sketch_of(b, g), sketch_of(a, g)) by {
        assert(sketch_of(a, g).len() == REGISTERS && sketch_of(b, g).len() == REGISTERS);
        crate::hyperloglog::lemma_merge_commutative(sketch_of(a, g), sketch_of(b, g));
    }
    assert(merged_sketches(a, b) =~= merged_sketches(b, a));
}

/// It does not matter in which order three fruits are merged: each group
/// gets the same registers.
pub proof fn lemma_fruits_associate(
    a: Map<u128, Seq<u8>>,
    b: Map<u128, Seq<u8>>,
    c: Map<u128, Seq<u8>>,
)
    requires
        full(a),
        full(b),
        full(c),
    ensures
        merged_sketches(merged_sketches(a, b), c) == merged_sketches(a, merged_sketches(b, c)),
{
    let left = merged_sketches(merged_sketches(a, b), c);
    let right = merged_sketches(a, merged_sketches(b, c));
    assert forall|g: u128| left.contains_key(g) == right.contains_key(g) && (left.contains_key(g)
        ==> left[g] == right[g]) by {
        let x = sketch_of(a, g);
        let y = sketch_of(b, g);
        let z = sketch_of(c, g);
        assert(x.len() == REGISTERS && y.len() == REGISTERS && z.len() == REGISTERS);
        assert(sketch_of(merged_sketches(a, b), g) == merged(x, y)) by {
            if !a.contains_key(g) && !b.contains_key(g) {
                assert(merged(x, y) =~= empty_registers());
            }
        }
        assert(sketch_of(merged_sketches(b, c), g) == merged(y, z)) by {
            if !b.contains_key(g) && !c.contains_key(g) {
                assert(merged(y, z) =~= empty_registers());
            }
        }
        crate::hyperloglog::lemma_merge_associative(x, y, z);
    }
    assert(left =~= right);
}

/// A fruit merged with itself is unchanged.
pub proof fn lemma_fruit_with_itself(a: Map<u128, Seq<u8>>)
    ensures
        merged_sketches(a, a) == a,
{
    assert forall|g: u128| a.contains_key(g) implies merged(sketch_of(a, g), sketch_of(a, g))
        == a[g] by {
        crate::hyperloglog::lemma_merge_idempotent(a[g]);
    }
    assert(merged_sketches(a, a) =~= a);
}

/// Every sketch of every fruit has all its registers.
pub open spec fn all_full(fruits: Seq<Map<u128, Seq<u8>>>) -> bool {
    forall|i: int| 0 <= i < fruits.len() ==> full(#[trigger] fruits[i])
}

/// Whether one of the fruits has the group.
pub open spec fn has_group(fruits: Seq<Map<u128, Seq<u8>>>, group: u128) -> bool {
    exists|i: int| 0 <= i < fruits.len() && (#[trigger] fruits[i]).contains_key(group)
}

/// Whether `v` holds, register by register, the largest value that the
/// sketches of the fruits for the group hold.
pub open spec fn largest_of(fruits: Seq<Map<u128, Seq<u8>>>, group: u128, v: Seq<u8>) -> bool {
    &&& v.len() == REGISTERS
    &&& forall|i: int, k: int|
        0 <= i < fruits.len() && 0 <= k < REGISTERS ==> sketch_of(#[trigger] fruits[i], group)[k]
            <= #[trigger] v[k]
    &&& forall|k: int|
        0 <= k < REGISTERS ==> exists|i: int|
            0 <= i < fruits.len() && sketch_of(#[trigger] fruits[i], group)[k] == #[trigger] v[k]
}

/// The fruits merged have the groups that one of them has, and for a
/// group, register by register, the largest value that one of them has.
pub proof fn lemma_merged_all(fruits: Seq<Map<u128, Seq<u8>>>, group: u128)
    requires
        all_full(fruits),
    ensures
        merged_all(fruits).contains_key(group) == has_group(fruits, group),
        merged_all(fruits).contains_key(group) ==> largest_of(
            fruits,
            group,
            merged_all(fruits)[group],
        ),
    decreases fruits.len(),
{
    if fruits.len() > 0 {
        let t = fruits.drop_last();
        let x = fruits.last();
        let n = fruits.len() - 1;
        let mt = merged_all(t);
        let m = merged_all(fruits);
        assert(all_full(t)) by {
            assert forall|i: int| 0 <= i < t.len() implies full(#[trigger] t[i]) by {
                assert(t[i] == fruits[i]);
            }
        }
        assert(full(fruits[n]));
        lemma_merged_all(t, group);
        if has_group(t, group) {
            let i = choose|i: int| 0 <= i < t.len() && (#[trigger] t[i]).contains_key(group);
            assert(fruits[i].contains_key(group));
        }
        if x.contains_key(group) {
            assert(fruits[n].contains_key(group));
        }
        if has_group(fruits, group) {
            let i = choose|i: int| 0 <= i < fruits.len() && (#[trigger] fruits[i]).contains_key(group);
            if i < n {
                assert(t[i].contains_key(group));
            }
        }
        if m.contains_key(group) {
            let a = sketch_of(mt, group);
            let b = sketch_of(x, group);
            let v = m[group];
            assert(v == merged(a, b));
            assert(a.len() == REGISTERS && b.len() == REGISTERS);
            assert forall|i: int, k: int| 0 <= i < fruits.len() && 0 <= k < REGISTERS implies sketch_of(
                #[trigger] fruits[i],
                group,
            )[k] <= #[trigger] v[k] by {
                if i < n {
                    assert(fruits[i] == t[i]);
                    if mt.contains_key(group) {
                        assert(sketch_of(t[i], group)[k] <= mt[group][k]);
                    } else {
                        assert(!t[i].contains_key(group));
                    }
                }
            }
            assert forall|k: int| 0 <= k < REGISTERS implies exists|i: int|
                0 <= i < fruits.len() && sketch_of(#[trigger] fruits[i], group)[k] == #[trigger] v[k] by {
                if v[k] == b[k] {
                    assert(sketch_of(fruits[n], group)[k] == v[k]);
                } else {
                    assert(v[k] == a[k]);
                    assert(mt.contains_key(group));
                    let w = mt[group];
                    assert(0 <= k < REGISTERS ==> exists|i: int|
                        0 <= i < t.len() && sketch_of(#[trigger] t[i], group)[k] == w[k]);
                    let i = choose|i: int|
                        0 <= i < t.len() && sketch_of(#[trigger] t[i], group)[k] == w[k];
                    assert(fruits[i] == t[i]);
                    assert(sketch_of(fruits[i], group)[k] == v[k]);
                }
            }
        }
    }
}

/// Each of the fruits `a` is one of the fruits `b`.
pub open spec fn each_among(a: Seq<Map<u128, Seq<u8>>>, b: Seq<Map<u128, Seq<u8>>>) -> bool {
    forall|i: int| 0 <= i < a.len() ==> b.contains(#[trigger] a[i])
}

/// It does not matter in which order fruits are merged, nor how often a
/// fruit is given.
pub proof fn lemma_merged_in_any_order(a: Seq<Map<u128, Seq<u8>>>, b: Seq<Map<u128, Seq<u8>>>)
    requires
        all_full(a),
        all_full(b),
        each_among(a, b),
        each_among(b, a),
    ensures
        merged_all(a) == merged_all(b),
{
    let ma = merged_all(a);
    let mb = merged_all(b);
    assert forall|g: u128| #[trigger] ma.contains_key(g) == mb.contains_key(g) by {
        lemma_merged_all(a, g);
        lemma_merged_all(b, g);
        lemma_has_group_among(a, b, g);
        lemma_has_group_among(b, a, g);
    }
    assert forall|g: u128| #[trigger] ma.contains_key(g) implies ma[g] == mb[g] by {
        lemma_merged_all(a, g);
        lemma_merged_all(b, g);
        assert(mb.contains_key(g));
        lemma_largest_among(a, b, g, ma[g], mb[g]);
        lemma_largest_among(b, a, g, mb[g], ma[g]);
        assert(ma[g] =~= mb[g]);
    }
    assert(ma.dom() =~= mb.dom());
    assert(ma =~= mb);
}

proof fn lemma_has_group_among(a: Seq<Map<u128, Seq<u8>>>, b: Seq<Map<u128, Seq<u8>>>, group: u128)
    requires
        each_among(a, b),
    ensures
        has_group(a, group) ==> has_group(b, group),
{
    if has_group(a, group) {
        let i = choose|i: int| 0 <= i < a.len() && (#[trigger] a[i]).contains_key(group);
        assert(b.contains(a[i]));
        let j = choose|j: int| 0 <= j < b.len() && b[j] == a[i];
        assert(b[j].contains_key(group));
    }
}

proof fn lemma_largest_among(
    a: Seq<Map<u128, Seq<u8>>>,
    b: Seq<Map<u128, Seq<u8>>>,
    group: u128,
    va: Seq<u8>,
    vb: Seq<u8>,
)
    requires
        each_among(a, b),
        largest_of(a, group, va),
        largest_of(b, group, vb),
    ensures
        forall|k: int| 0 <= k < REGISTERS ==> va[k] <= vb[k],
{
    assert forall|k: int| 0 <= k < REGISTERS implies va[k] <= vb[k] by {
        let i = choose|i: int| 0 <= i < a.len() && sketch_of(#[trigger] a[i], group)[k] == va[k];
        assert(b.contains(a[i]));
        let j = choose|j: int| 0 <= j < b.len() && b[j] == a[i];
        assert(sketch_of(b[j], group)[k] <= vb[k]);
    }
}

/// What fruits hold.
pub open spec fn sketch_views(fruits: Seq<FxHashMap<u128, HyperLogLog>>) -> Seq<Map<u128, Seq<u8>>> {
    fruits.map_values(|f: FxHashMap<u128, HyperLogLog>| sketches(f@))
}

/// Merges the sketches of `fruit` into those of `groups`.
fn merge_into(groups: &mut FxHashMap<u128, HyperLogLog>, fruit: &FxHashMap<u128, HyperLogLog>)
    ensures
        sketches(final(groups)@) == merged_sketches(sketches(old(groups)@), sketches(fruit@)),
{
    let ghost start = groups@;
    let ghost before = sketches(groups@);
    let ghost given = sketches(fruit@);
    let entries = map_entries(fruit);
    let ghost mut done: Set<u128> = Set::empty();
    let mut j: usize = 0;
    proof {
        assert forall|g: u128| before.contains_key(g) implies (#[trigger] before[g]).len() == REGISTERS by {
            start[g].lemma_registers();
        }
        assert(given.restrict(done) =~= Map::<u128, Seq<u8>>::empty());
        assert forall|g: u128| before.contains_key(g) implies merged(
            sketch_of(before, g),
            sketch_of(given.restrict(done), g),
        ) == before[g] by {
            assert(merged(before[g], empty_registers()) =~= before[g]);
        }
        assert(sketches(groups@) =~= merged_sketches(before, given.restrict(done)));
    }
    while j < entries.len()
        invariant
            j <= entries.len(),
            entries_of(entries@, fruit@),
            given == sketches(fruit@),
            forall|g: u128| before.contains_key(g) ==> (#[trigger] before[g]).len() == REGISTERS,
            forall|k: int|
                0 <= k < entries.len() ==> (done.contains((#[trigger] entries@[k]).0) <==> k < j),
            sketches(groups@) == merged_sketches(before, given.restrict(done)),
        decreases entries.len() - j,
    {
        let group = entries[j].0;
        let sketch = entries[j].1;
        let ghost old_groups = groups@;
        let ghost partial = merged_sketches(before, given.restrict(done));
        proof {
            assert(!done.contains(entries@[j as int].0));
            assert(fruit@.contains_key(group) && fruit@[group] == *sketch);
            assert(given[group] == sketch@);
        }
        let mut current = match map_remove(groups, group) {
            Some(current) => current,
            None => HyperLogLog::new(),
        };
        proof {
            assert(current@ == sketch_of(partial, group));
            if before.contains_key(group) {
                assert(merged(before[group], empty_registers()) =~= before[group]);
            }
            assert(current@ == sketch_of(before, group));
        }
        current.merge(sketch);
        let ghost merged_sketch = current;
        map_insert(groups, group, current);
        proof {
            assert(groups@ =~= old_groups.insert(group, merged_sketch));
            assert(sketches(groups@) =~= partial.insert(group, merged_sketch@));
            let next = done.insert(group);
            assert(partial.insert(group, merged_sketch@) =~= merged_sketches(
                before,
                given.restrict(next),
            ));
            assert forall|k: int| 0 <= k < entries.len() implies (next.contains(
                (#[trigger] entries@[k]).0,
            ) <==> k < j + 1) by {
                if k != j {
                    assert(entries@[k].0 != entries@[j as int].0);
                }
            }
            done = next;
        }
        j += 1;
    }
    proof {
        assert forall|g: u128| given.contains_key(g) implies done.contains(g) by {
            let k = choose|k: int| 0 <= k < entries@.len() && (#[trigger] entries@[k]).0 == g;
            assert(done.contains(entries@[k].0));
        }
        assert(given.restrict(done) =~= given);
    }
}

/// Collects, for each group, a sketch of its values.
#[derive(Debug)]
pub struct GroupSketchCollector {
    pub group_field: FieldEnum,
    pub value_field: FieldEnum,
    pub warmed_column_fields: Option<Arc<WarmedColumnFields>>,
    pub filter: Option<ColumnFieldFilter>,
}

/// What a segment collector of sketches holds.
pub struct SketchCollection {
    pub columns: GroupColumnsView,
    /// The documents collected so far.
    pub docs: Seq<u32>,
}

impl SketchCollection {
    /// The fruit of the segment: the sketches of the pairs that the
    /// collected documents give.
    pub open spec fn fruit(&self) -> Map<u128, Seq<u8>> {
        grouped(self.columns.pairs(self.docs))
    }
}

/// Collects the sketches of one segment.
pub struct GroupSketchSegmentCollector<'a> {
    columns: GroupColumns<'a>,
    groups: FxHashMap<u128, HyperLogLog>,
    docs: Ghost<Seq<u32>>,
}

impl<'a> View for GroupSketchSegmentCollector<'a> {
    type V = SketchCollection;

    closed spec fn view(&self) -> SketchCollection {
        SketchCollection { columns: self.columns@, docs: self.docs@ }
    }
}

impl<'a> GroupSketchSegmentCollector<'a> {
    /// The collector holds the sketches of what it has collected.
    pub closed spec fn wf(&self) -> bool {
        sketches(self.groups@) == self@.fruit()
    }

    /// Collects the document `doc`.
    pub fn collect(&mut self, doc: u32)
        requires
            old(self).wf(),
        ensures
            final(self).wf(),
            final(self)@ == (SketchCollection { docs: old(self)@.docs.push(doc), ..old(self)@ }),
    {
        let ghost docs = self.docs@.push(doc);
        proof {
            assert(docs.drop_last() =~= self.docs@);
        }
        let ghost before = self.columns@.pairs(self.docs@);
        proof {
            assert(self.columns@.pairs(docs) == match self.columns@.pair(doc) {
                Some(p) => before.push(p),
                None => before,
            });
        }
        match self.columns.pair(doc) {
            None => {},
            Some((group, value)) => {
                let ghost old_groups = self.groups@;
                let mut sketch = match map_remove(&mut self.groups, group) {
                    Some(sketch) => sketch,
                    None => HyperLogLog::new(),
                };
                proof {
                    assert(sketch@ == sketch_of(sketches(old_groups), group));
                    assert(before.push((group, value)).drop_last() =~= before);
                }
                sketch.add_u128(value);
                let ghost new_sketch = sketch;
                map_insert(&mut self.groups, group, sketch);
                proof {
                    assert(self.groups@ =~= old_groups.insert(group, new_sketch));
                    assert(sketches(self.groups@) =~= with_value(
                        sketches(old_groups),
                        group,
                        value,
                    ));
                }
            },
        }
        self.docs = Ghost(docs);
    }

    /// The fruit of the segment.
    pub fn harvest(self) -> (r: FxHashMap<u128, HyperLogLog>)
        requires
            self.wf(),
        ensures
            sketches(r@) == self@.fruit(),
    {
        self.groups
    }
}

impl GroupSketchCollector {
    /// A collector of the values of `value_field`, grouped by
    /// `group_field`.
    pub fn new<Group: Field, Value: Field>(group_field: Group, value_field: Value) -> (r:
        GroupSketchCollector)
        ensures
            r.group_field == group_field.field_enum(),
            r.value_field == value_field.field_enum(),
            r.warmed_column_fields is None,
            r.filter is None,
    {
        GroupSketchCollector {
            group_field: group_field.as_enum(),
            value_field: value_field.as_enum(),
            warmed_column_fields: None,
            filter: None,
        }
    }

    /// The collector with these opened columns.
    #[must_use]
    pub fn with_column_fields(self, warmed_column_fields: Arc<WarmedColumnFields>) -> (r:
        GroupSketchCollector)
        ensures
            r == (GroupSketchCollector { warmed_column_fields: Some(warmed_column_fields), ..self }),
    {
        let mut collector = self;
        collector.warmed_column_fields = Some(warmed_column_fields);
        collector
    }

    /// The collector that leaves out the documents that `filter` skips.
    #[must_use]
    pub fn with_filter(self, filter: ColumnFieldFilter) -> (r: GroupSketchCollector)
        ensures
            r == (GroupSketchCollector { filter: Some(filter), ..self }),
    {
        let mut collector = self;
        collector.filter = Some(filter);
        collector
    }

    /// The collector for one segment. Fails where the opened columns were
    /// not given or lack the segment, and where the segment has no column for
    /// the group field or for the value field.
    pub fn for_segment<'a>(&'a self, segment_ord: u32, segment: &SegmentReader) -> (r: Result<
        GroupSketchSegmentCollector<'a>,
        Error,
    >)
        ensures
            match opened(
                self.warmed_column_fields,
                self.group_field,
                self.value_field,
                excluded_by(self.filter),
                segment,
            ) {
                Ok(c) => r matches Ok(child) && child.wf() && child@ == (SketchCollection {
                    columns: c,
                    docs: Seq::empty(),
                }),
                Err(e) => r matches Err(x) && x == e,
            },
    {
        let columns = match GroupColumns::open(
            &self.warmed_column_fields,
            self.group_field,
            self.value_field,
            &self.filter,
            segment,
        ) {
            Err(e) => {
                return Err(e);
            },
            Ok(columns) => columns,
        };
        let child = GroupSketchSegmentCollector {
            columns,
            groups: map_new(),
            docs: Ghost(Seq::empty()),
        };
        proof {
            assert(sketches(child.groups@) =~= Map::<u128, Seq<u8>>::empty());
        }
        Ok(child)
    }

    /// Merges the fruits of segments or shards: for each group, the merge of
    /// its sketches.
    pub fn merge_fruits(&self, segment_fruits: Vec<FxHashMap<u128, HyperLogLog>>) -> (r: FxHashMap<
        u128,
        HyperLogLog,
    >)
        ensures
            sketches(r@) == merged_all(sketch_views(segment_fruits@)),
    {
        merge_sketches(segment_fruits)
    }
}

impl GroupSketchCollector {
    /// How the collector is set up.
    pub open spec fn setup(&self) -> GroupSetup {
        GroupSetup {
            column_fields: self.warmed_column_fields,
            group_field: self.group_field,
            value_field: self.value_field,
            excluded: excluded_by(self.filter),
        }
    }

    /// The fruit of a shard: the sketches of its segments, merged.
    pub open spec fn local_fruit(&self, query: IndexQueryView, searcher: &Searcher) -> Result<
        Map<u128, Seq<u8>>,
        Error,
    > {
        match self.setup().shard_pairs(query, searcher, searcher.segments@.len()) {
            Err(e) => Err(e),
            Ok(pairs) => Ok(
                merged_all(pairs.map_values(|p: Seq<(u128, u128)>| grouped(p))),
            ),
        }
    }

    /// Runs `query` on a shard and collects what it gives.
    pub fn search(&self, query: &IndexQuery, searcher: &Searcher) -> (r: Result<
        FxHashMap<u128, HyperLogLog>,
        Error,
    >)
        requires
            searcher.segments@.len() <= u32::MAX,
        ensures
            match self.local_fruit(query@, searcher) {
                Ok(f) => r matches Ok(m) && sketches(m@) == f,
                Err(e) => r matches Err(x) && x == e,
            },
    {
        let mut fruits: Vec<FxHashMap<u128, HyperLogLog>> = Vec::new();
        let ghost mut pairs: Seq<Seq<(u128, u128)>> = Seq::empty();
        let mut i: usize = 0;
        proof {
            assert(sketch_views(fruits@) =~= pairs.map_values(|p: Seq<(u128, u128)>| grouped(p)));
        }
        while i < searcher.segments.len()
            invariant
                i <= searcher.segments@.len() <= u32::MAX,
                self.setup().shard_pairs(query@, searcher, i as nat) == Ok::<
                    Seq<Seq<(u128, u128)>>,
                    Error,
                >(pairs),
                sketch_views(fruits@) == pairs.map_values(|p: Seq<(u128, u128)>| grouped(p)),
            decreases searcher.segments.len() - i,
        {
            let segment_ord = i as u32;
            let segment = &searcher.segments[i];
            let mut child = match self.for_segment(segment_ord, segment) {
                Err(e) => {
                    proof {
                        self.setup().lemma_shard_pairs_fail(
                            query@,
                            searcher,
                            i as nat,
                            searcher.segments@.len(),
                        );
                    }
                    return Err(e);
                },
                Ok(child) => child,
            };
            let columns = match searcher.column_fields.segment(&segment.segment_id()) {
                None => {
                    proof {
                        self.setup().lemma_shard_pairs_fail(
                            query@,
                            searcher,
                            i as nat,
                            searcher.segments@.len(),
                        );
                    }
                    return Err(Error::SegmentNotWarmed);
                },
                Some(columns) => columns,
            };
            let docs = query.search_segment(columns, segment.max_doc());
            let ghost empty = child@;
            let mut k: usize = 0;
            proof {
                assert(docs@.take(0) =~= empty.docs);
            }
            while k < docs.len()
                invariant
                    k <= docs.len(),
                    child.wf(),
                    child@.columns == empty.columns,
                    child@.docs == docs@.take(k as int),
                decreases docs.len() - k,
            {
                child.collect(docs[k]);
                k += 1;
                proof {
                    assert(docs@.take(k as int) =~= docs@.take(k - 1).push(docs@[k - 1]));
                }
            }
            proof {
                assert(docs@.take(k as int) =~= docs@);
            }
            let ghost before = sketch_views(fruits@);
            let ghost p = empty.columns.pairs(docs@);
            let fruit = child.harvest();
            fruits.push(fruit);
            proof {
                assert(sketch_views(fruits@) =~= before.push(sketches(fruit@)));
                assert(pairs.push(p).map_values(|p: Seq<(u128, u128)>| grouped(p)) =~= before.push(
                    grouped(p),
                ));
                pairs = pairs.push(p);
            }
            i += 1;
        }
        Ok(self.merge_fruits(fruits))
    }
}

/// Merges fruits into one: for each group that one of them has, the merge
/// of its sketches.
pub fn merge_sketches(fruits: Vec<FxHashMap<u128, HyperLogLog>>) -> (r: FxHashMap<u128, HyperLogLog>)
    ensures
        sketches(r@) == merged_all(sketch_views(fruits@)),
{
    let mut groups: FxHashMap<u128, HyperLogLog> = map_new();
    let ghost views = sketch_views(fruits@);
    let mut i: usize = 0;
    proof {
        assert(sketches(groups@) =~= Map::<u128, Seq<u8>>::empty());
    }
    while i < fruits.len()
        invariant
            i <= fruits.len(),
            views == sketch_views(fruits@),
            sketches(groups@) == merged_all(views.take(i as int)),
        decreases fruits.len() - i,
    {
        proof {
            assert(views.take(i + 1).drop_last() =~= views.take(i as int));
        }
        merge_into(&mut groups, &fruits[i]);
        i += 1;
    }
    proof {
        assert(views.take(i as int) =~= views);
    }
    groups
}

/// A copy of a fruit.
pub fn copy_sketches(fruit: &FxHashMap<u128, HyperLogLog>) -> (r: FxHashMap<u128, HyperLogLog>)
    ensures
        sketches(r@) == sketches(fruit@),
{
    let entries = map_entries(fruit);
    let mut copy: FxHashMap<u128, HyperLogLog> = map_new();
    let ghost given = sketches(fruit@);
    let ghost mut done: Set<u128> = Set::empty();
    let mut j: usize = 0;
    proof {
        assert(sketches(copy@) =~= given.restrict(done));
    }
    while j < entries.len()
        invariant
            j <= entries.len(),
            entries_of(entries@, fruit@),
            given == sketches(fruit@),
            forall|k: int| 0 <= k < j ==> done.contains((#[trigger] entries@[k]).0),
            sketches(copy@) == given.restrict(done),
        decreases entries.len() - j,
    {
        let group = entries[j].0;
        let sketch = entries[j].1.clone();
        let ghost before = copy@;
        let ghost copied = sketch;
        map_insert(&mut copy, group, sketch);
        proof {
            assert(fruit@.contains_key(group) && fruit@[group] == *entries@[j as int].1);
            assert(sketches(copy@) =~= sketches(before).insert(group, copied@));
            assert(sketches(before).insert(group, copied@) =~= given.restrict(done.insert(group)));
            done = done.insert(group);
        }
        j += 1;
    }
    proof {
        assert forall|g: u128| given.contains_key(g) implies done.contains(g) by {
            let k = choose|k: int| 0 <= k < entries@.len() && (#[trigger] entries@[k]).0 == g;
            assert(done.contains(entries@[k].0));
        }
        assert(given.restrict(done) =~= given);
    }
    copy
}

} // verus!
