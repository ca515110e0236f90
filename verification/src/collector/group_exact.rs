//! For each group, the set of the distinct values that occur with it.

use crate::collector::group::{excluded_by, opened, GroupColumns, GroupColumnsView, GroupSetup};
use crate::column::{FieldEnum, WarmedColumnFields};
use crate::error::Error;
use crate::filter::ColumnFieldFilter;
use crate::hashed::{
    entries_of, map_entries, map_insert, map_new, map_remove, set_elements,
    set_insert, set_new,
};
use crate::index_query::{IndexQuery, IndexQueryView};
use crate::schema::Field;
use crate::searcher::Searcher;
use crate::segment_reader::SegmentReader;
use rustc_hash::{FxHashMap, FxHashSet};
use std::sync::Arc;
use vstd::prelude::*;

verus! {

/// The sets of a map.
pub open spec fn value_sets(m: Map<u128, FxHashSet<u128>>) -> Map<u128, Set<u128>> {
    m.map_values(|s: FxHashSet<u128>| s@)
}

/// The values of a group: none where the map does not have the group.
pub open spec fn values_of(m: Map<u128, Set<u128>>, group: u128) -> Set<u128> {
    if m.contains_key(group) {
        m[group]
    } else {
        Set::empty()
    }
}

/// For each group that occurs in `pairs`, the values that occur with it.
pub open spec fn exact_groups(pairs: Seq<(u128, u128)>) -> Map<u128, Set<u128>> {
    Map::new(
        |g: u128| exists|i: int| 0 <= i < pairs.len() && (#[trigger] pairs[i]).0 == g,
        |g: u128| Set::new(|v: u128| exists|i: int| 0 <= i < pairs.len() && #[trigger] pairs[i] == (g, v)),
    )
}

/// Two maps united: for each group that one of them has, the values that
/// it has in one of them.
pub open spec fn united(a: Map<u128, Set<u128>>, b: Map<u128, Set<u128>>) -> Map<u128, Set<u128>> {
    Map::new(
        |g: u128| a.contains_key(g) || b.contains_key(g),
        |g: u128| values_of(a, g).union(values_of(b, g)),
    )
}

/// Several maps united, one after the other.
pub open spec fn united_all(fruits: Seq<Map<u128, Set<u128>>>) -> Map<u128, Set<u128>>
    decreases fruits.len(),
{
    if fruits.len() == 0 {
        Map::empty()
    } else {
        united(united_all(fruits.drop_last()), fruits.last())
    }
}

/// Whether one of the fruits has the group.
pub open spec fn has_group(fruits: Seq<Map<u128, Set<u128>>>, group: u128) -> bool {
    exists|i: int| 0 <= i < fruits.len() && (#[trigger] fruits[i]).contains_key(group)
}

/// Whether one of the fruits has the value for the group.
pub open spec fn has_value(fruits: Seq<Map<u128, Set<u128>>>, group: u128, value: u128) -> bool {
    exists|i: int|
        0 <= i < fruits.len() && (#[trigger] fruits[i]).contains_key(group) && fruits[i][group].contains(
            value,
        )
}

/// The fruits united have the groups that one of them has, and for a group
/// the values that one of them has for it.
pub proof fn lemma_united_all(fruits: Seq<Map<u128, Set<u128>>>, group: u128, value: u128)
    ensures
        united_all(fruits).contains_key(group) == has_group(fruits, group),
        values_of(united_all(fruits), group).contains(value) == has_value(fruits, group, value),
    decreases fruits.len(),
{
    if fruits.len() > 0 {
        let t = fruits.drop_last();
        let x = fruits.last();
        lemma_united_all(t, group, value);
        if has_group(t, group) {
            let i = choose|i: int| 0 <= i < t.len() && (#[trigger] t[i]).contains_key(group);
            assert(fruits[i].contains_key(group));
        }
        if has_value(t, group, value) {
            let i = choose|i: int|
                0 <= i < t.len() && (#[trigger] t[i]).contains_key(group) && t[i][group].contains(
                    value,
                );
            assert(fruits[i].contains_key(group) && fruits[i][group].contains(value));
        }
        if x.contains_key(group) {
            assert(fruits[fruits.len() - 1].contains_key(group));
        }
        if has_group(fruits, group) {
            let i = choose|i: int| 0 <= i < fruits.len() && (#[trigger] fruits[i]).contains_key(group);
            if i < t.len() {
                assert(t[i].contains_key(group));
            }
        }
        if has_value(fruits, group, value) {
            let i = choose|i: int|
                0 <= i < fruits.len() && (#[trigger] fruits[i]).contains_key(group)
                    && fruits[i][group].contains(value);
            if i < t.len() {
                assert(t[i].contains_key(group) && t[i][group].contains(value));
            }
        }
    }
}

/// Each of the fruits `a` is one of the fruits `b`.
pub open spec fn each_among(a: Seq<Map<u128, Set<u128>>>, b: Seq<Map<u128, Set<u128>>>) -> bool {
    forall|i: int| 0 <= i < a.len() ==> b.contains(#[trigger] a[i])
}

/// It does not matter in which order fruits are united, nor how often a
/// fruit is given.
pub proof fn lemma_united_in_any_order(a: Seq<Map<u128, Set<u128>>>, b: Seq<Map<u128, Set<u128>>>)
    requires
        each_among(a, b),
        each_among(b, a),
    ensures
        united_all(a) == united_all(b),
{
    let ua = united_all(a);
    let ub = united_all(b);
    assert forall|g: u128| ua.contains_key(g) == ub.contains_key(g) by {
        lemma_united_all(a, g, 0);
        lemma_united_all(b, g, 0);
        lemma_has_group_among(a, b, g, 0);
        lemma_has_group_among(b, a, g, 0);
    }
    assert forall|g: u128| ua.contains_key(g) implies ua[g] =~= ub[g] by {
        lemma_united_all(a, g, 0);
        lemma_united_all(b, g, 0);
        lemma_has_group_among(a, b, g, 0);
        assert forall|v: u128| ua[g].contains(v) == ub[g].contains(v) by {
            lemma_united_all(a, g, v);
            lemma_united_all(b, g, v);
            lemma_has_group_among(a, b, g, v);
            lemma_has_group_among(b, a, g, v);
        }
    }
    assert(ua =~= ub);
}

proof fn lemma_has_group_among(
    a: Seq<Map<u128, Set<u128>>>,
    b: Seq<Map<u128, Set<u128>>>,
    group: u128,
    value: u128,
)
    requires
        each_among(a, b),
    ensures
        has_group(a, group) ==> has_group(b, group),
        has_value(a, group, value) ==> has_value(b, group, value),
{
    if has_group(a, group) {
        let i = choose|i: int| 0 <= i < a.len() && (#[trigger] a[i]).contains_key(group);
        assert(b.contains(a[i]));
        let j = choose|j: int| 0 <= j < b.len() && b[j] == a[i];
        assert(b[j].contains_key(group));
    }
    if has_value(a, group, value) {
        let i = choose|i: int|
            0 <= i < a.len() && (#[trigger] a[i]).contains_key(group) && a[i][group].contains(value);
        assert(b.contains(a[i]));
        let j = choose|j: int| 0 <= j < b.len() && b[j] == a[i];
        assert(b[j].contains_key(group) && b[j][group].contains(value));
    }
}

/// What fruits hold.
pub open spec fn set_views(fruits: Seq<FxHashMap<u128, FxHashSet<u128>>>) -> Seq<
    Map<u128, Set<u128>>,
> {
    fruits.map_values(|f: FxHashMap<u128, FxHashSet<u128>>| value_sets(f@))
}

/// One more pair adds its value to the values of its group.
pub proof fn lemma_exact_groups_push(pairs: Seq<(u128, u128)>, group: u128, value: u128)
    ensures
        exact_groups(pairs.push((group, value))) == exact_groups(pairs).insert(
            group,
            values_of(exact_groups(pairs), group).insert(value),
        ),
{
    let p = pairs.push((group, value));
    let a = exact_groups(p);
    let b = exact_groups(pairs).insert(group, values_of(exact_groups(pairs), group).insert(value));
    assert forall|g: u128| a.contains_key(g) == b.contains_key(g) by {
        if a.contains_key(g) {
            let i = choose|i: int| 0 <= i < p.len() && (#[trigger] p[i]).0 == g;
            if i < pairs.len() {
                assert(pairs[i].0 == g);
            }
        }
        if b.contains_key(g) {
            if g == group {
                assert(p[pairs.len() as int].0 == g);
            } else {
                let i = choose|i: int| 0 <= i < pairs.len() && (#[trigger] pairs[i]).0 == g;
                assert(p[i].0 == g);
            }
        }
    }
    assert forall|g: u128| a.contains_key(g) implies a[g] =~= b[g] by {
        assert forall|v: u128| a[g].contains(v) == b[g].contains(v) by {
            if a[g].contains(v) {
                let i = choose|i: int| 0 <= i < p.len() && #[trigger] p[i] == (g, v);
                if i < pairs.len() {
                    assert(pairs[i] == (g, v));
                    assert(pairs[i].0 == g);
                }
            }
            if b[g].contains(v) {
                if g == group && v == value {
                    assert(p[pairs.len() as int] == (g, v));
                } else {
                    if g == group {
                        assert(values_of(exact_groups(pairs), group).contains(v));
                    }
                    let i = choose|i: int| 0 <= i < pairs.len() && #[trigger] pairs[i] == (g, v);
                    assert(p[i] == (g, v));
                }
            }
        }
    }
    assert(a =~~= b);
}

/// Collecting pairs in two parts and uniting the results gives what
/// collecting all of them at once gives.
pub proof fn lemma_exact_groups_concat(p: Seq<(u128, u128)>, q: Seq<(u128, u128)>)
    ensures
        united(exact_groups(p), exact_groups(q)) == exact_groups(p + q),
{
    let a = united(exact_groups(p), exact_groups(q));
    let b = exact_groups(p + q);
    let s = p + q;
    assert forall|g: u128| a.contains_key(g) == b.contains_key(g) by {
        if exact_groups(p).contains_key(g) {
            let i = choose|i: int| 0 <= i < p.len() && (#[trigger] p[i]).0 == g;
            assert(s[i].0 == g);
        }
        if exact_groups(q).contains_key(g) {
            let i = choose|i: int| 0 <= i < q.len() && (#[trigger] q[i]).0 == g;
            assert(s[p.len() + i].0 == g);
        }
        if b.contains_key(g) {
            let i = choose|i: int| 0 <= i < s.len() && (#[trigger] s[i]).0 == g;
            if i < p.len() {
                assert(p[i].0 == g);
            } else {
                assert(q[i - p.len()].0 == g);
            }
        }
    }
    assert forall|g: u128| a.contains_key(g) implies a[g] =~= b[g] by {
        assert forall|v: u128| a[g].contains(v) == b[g].contains(v) by {
            if values_of(exact_groups(p), g).contains(v) {
                let i = choose|i: int| 0 <= i < p.len() && #[trigger] p[i] == (g, v);
                assert(s[i] == (g, v));
            }
            if values_of(exact_groups(q), g).contains(v) {
                let i = choose|i: int| 0 <= i < q.len() && #[trigger] q[i] == (g, v);
                assert(s[p.len() + i] == (g, v));
            }
            if b[g].contains(v) {
                let i = choose|i: int| 0 <= i < s.len() && #[trigger] s[i] == (g, v);
                if i < p.len() {
                    assert(p[i] == (g, v));
                    assert(p[i].0 == g);
                } else {
                    assert(q[i - p.len()] == (g, v));
                    assert(q[i - p.len()].0 == g);
                }
            }
        }
    }
    assert(a =~~= b);
}

/// Collecting pairs part by part, as segments and shards do, and uniting
/// the results gives for each group the values that occur with it in any
/// part: what counting over all pairs at once gives.
pub proof fn lemma_united_parts(parts: Seq<Seq<(u128, u128)>>)
    ensures
        united_all(parts.map_values(|p: Seq<(u128, u128)>| exact_groups(p))) == exact_groups(
            crate::ranking::concat_all(parts),
        ),
    decreases parts.len(),
{
    let mapped = parts.map_values(|p: Seq<(u128, u128)>| exact_groups(p));
    if parts.len() == 0 {
        assert(exact_groups(Seq::<(u128, u128)>::empty()) =~= Map::<u128, Set<u128>>::empty());
    } else {
        lemma_united_parts(parts.drop_last());
        assert(mapped.drop_last() =~= parts.drop_last().map_values(
            |p: Seq<(u128, u128)>| exact_groups(p),
        ));
        lemma_exact_groups_concat(crate::ranking::concat_all(parts.drop_last()), parts.last());
    }
}

/// Adds the elements of `values` to `current`.
fn insert_all(current: &mut FxHashSet<u128>, values: &FxHashSet<u128>)
    ensures
        final(current)@ == old(current)@.union(values@),
{
    let elements = set_elements(values);
    let ghost before = current@;
    let mut k: usize = 0;
    proof {
        assert(before.union(elements@.take(0).to_set()) =~= before);
    }
    while k < elements.len()
        invariant
            k <= elements.len(),
            current@ == before.union(elements@.take(k as int).to_set()),
        decreases elements.len() - k,
    {
        let e = elements[k];
        set_insert(current, e);
        proof {
            let t = elements@.take(k as int);
            t.lemma_push_to_set_commute(e);
            assert(elements@.take(k + 1) =~= t.push(e));
            assert(current@ =~= before.union(elements@.take(k + 1).to_set()));
        }
        k += 1;
    }
    proof {
        assert(elements@.take(k as int) =~= elements@);
        assert forall|v: u128| elements@.to_set().contains(v) == values@.contains(v) by {
            if elements@.to_set().contains(v) {
                let i = choose|i: int| 0 <= i < elements@.len() && elements@[i] == v;
                assert(values@.contains(elements@[i]));
            }
            if values@.contains(v) {
                let i = choose|i: int| 0 <= i < elements@.len() && #[trigger] elements@[i] == v;
                assert(elements@.contains(elements@[i]));
            }
        }
        assert(elements@.to_set() =~= values@);
    }
}

/// Unites the sets of `fruit` with those of `groups`.
fn unite_into(
    groups: &mut FxHashMap<u128, FxHashSet<u128>>,
    fruit: &FxHashMap<u128, FxHashSet<u128>>,
)
    ensures
        value_sets(final(groups)@) == united(value_sets(old(groups)@), value_sets(fruit@)),
{
    let ghost before = value_sets(groups@);
    let ghost given = value_sets(fruit@);
    let entries = map_entries(fruit);
    let ghost mut done: Set<u128> = Set::empty();
    let mut j: usize = 0;
    proof {
        assert(given.restrict(done) =~= Map::<u128, Set<u128>>::empty());
        assert(value_sets(groups@) =~~= united(before, given.restrict(done)));
    }
    while j < entries.len()
        invariant
            j <= entries.len(),
            entries_of(entries@, fruit@),
            given == value_sets(fruit@),
            forall|k: int|
                0 <= k < entries.len() ==> (done.contains((#[trigger] entries@[k]).0) <==> k < j),
            value_sets(groups@) == united(before, given.restrict(done)),
        decreases entries.len() - j,
    {
        let group = entries[j].0;
        let values = entries[j].1;
        let ghost old_groups = groups@;
        let ghost partial = united(before, given.restrict(done));
        proof {
            assert(!done.contains(entries@[j as int].0));
            assert(fruit@.contains_key(group) && fruit@[group] == *values);
            assert(given[group] == values@);
        }
        let mut current = match map_remove(groups, group) {
            Some(current) => current,
            None => set_new(),
        };
        proof {
            assert(current@ == values_of(partial, group));
            assert(current@ =~= values_of(before, group));
        }
        insert_all(&mut current, values);
        let ghost united_set = current;
        map_insert(groups, group, current);
        proof {
            assert(groups@ =~= old_groups.insert(group, united_set));
            assert(value_sets(groups@) =~= partial.insert(group, united_set@));
            let next = done.insert(group);
            assert(partial.insert(group, united_set@) =~~= united(before, given.restrict(next)));
            assert forall|k: int| 0 <= k < entries.len() implies (next.contains(
                (#[trigger] entries@[k]).0,
            ) <==> k < j + 1) by {
                if k != j {
                    assert(entries@[k].0 != entries@[j as int].0);
                }
            }
            done = next;
        }
        j += 1;
    }
    proof {
        assert forall|g: u128| given.contains_key(g) implies done.contains(g) by {
            let k = choose|k: int| 0 <= k < entries@.len() && (#[trigger] entries@[k]).0 == g;
            assert(done.contains(entries@[k].0));
        }
        assert(given.restrict(done) =~= given);
    }
}

/// Collects, for each group, the set of its values.
#[derive(Debug)]
pub struct GroupExactCollector {
    pub group_field: FieldEnum,
    pub value_field: FieldEnum,
    pub warmed_column_fields: Option<Arc<WarmedColumnFields>>,
    pub filter: Option<ColumnFieldFilter>,
}

/// What a segment collector of sets holds.
pub struct ExactCollection {
    pub columns: GroupColumnsView,
    /// The documents collected so far.
    pub docs: Seq<u32>,
}

impl ExactCollection {
    /// The fruit of the segment: for each group of the collected documents,
    /// the values that occur with it.
    pub open spec fn fruit(&self) -> Map<u128, Set<u128>> {
        exact_groups(self.columns.pairs(self.docs))
    }
}

/// Collects the sets of one segment.
pub struct GroupExactSegmentCollector<'a> {
    columns: GroupColumns<'a>,
    groups: FxHashMap<u128, FxHashSet<u128>>,
    docs: Ghost<Seq<u32>>,
}

impl<'a> View for GroupExactSegmentCollector<'a> {
    type V = ExactCollection;

    closed spec fn view(&self) -> ExactCollection {
        ExactCollection { columns: self.columns@, docs: self.docs@ }
    }
}

impl<'a> GroupExactSegmentCollector<'a> {
    /// The collector holds the sets of what it has collected.
    pub closed spec fn wf(&self) -> bool {
        value_sets(self.groups@) == self@.fruit()
    }

    /// Collects the document `doc`.
    pub fn collect(&mut self, doc: u32)
        requires
            old(self).wf(),
        ensures
            final(self).wf(),
            final(self)@ == (ExactCollection { docs: old(self)@.docs.push(doc), ..old(self)@ }),
    {
        let ghost docs = self.docs@.push(doc);
        proof {
            assert(docs.drop_last() =~= self.docs@);
        }
        let ghost before = self.columns@.pairs(self.docs@);
        proof {
            assert(self.columns@.pairs(docs) == match self.columns@.pair(doc) {
                Some(p) => before.push(p),
                None => before,
            });
        }
        match self.columns.pair(doc) {
            None => {},
            Some((group, value)) => {
                let ghost old_groups = self.groups@;
                let mut values = match map_remove(&mut self.groups, group) {
                    Some(values) => values,
                    None => set_new(),
                };
                proof {
                    assert(values@ == values_of(value_sets(old_groups), group));
                    lemma_exact_groups_push(before, group, value);
                }
                set_insert(&mut values, value);
                let ghost new_values = values;
                map_insert(&mut self.groups, group, values);
                proof {
                    assert(self.groups@ =~= old_groups.insert(group, new_values));
                    assert(value_sets(self.groups@) =~= value_sets(old_groups).insert(
                        group,
                        new_values@,
                    ));
                }
            },
        }
        self.docs = Ghost(docs);
    }

    /// The fruit of the segment.
    pub fn harvest(self) -> (r: FxHashMap<u128, FxHashSet<u128>>)
        requires
            self.wf(),
        ensures
            value_sets(r@) == self@.fruit(),
    {
        self.groups
    }
}

impl GroupExactCollector {
    /// A collector of the values of `value_field`, grouped by
    /// `group_field`.
    pub fn new<Group: Field, Value: Field>(group_field: Group, value_field: Value) -> (r:
        GroupExactCollector)
        ensures
            r.group_field == group_field.field_enum(),
            r.value_field == value_field.field_enum(),
            r.warmed_column_fields is None,
            r.filter is None,
    {
        GroupExactCollector {
            group_field: group_field.as_enum(),
            value_field: value_field.as_enum(),
            warmed_column_fields: None,
            filter: None,
        }
    }

    /// The collector with these opened columns.
    #[must_use]
    pub fn with_column_fields(self, warmed_column_fields: Arc<WarmedColumnFields>) -> (r:
        GroupExactCollector)
        ensures
            r == (GroupExactCollector { warmed_column_fields: Some(warmed_column_fields), ..self }),
    {
        let mut collector = self;
        collector.warmed_column_fields = Some(warmed_column_fields);
        collector
    }

    /// The collector that leaves out the documents that `filter` skips.
    #[must_use]
    pub fn with_filter(self, filter: ColumnFieldFilter) -> (r: GroupExactCollector)
        ensures
            r == (GroupExactCollector { filter: Some(filter), ..self }),
    {
        let mut collector = self;
        collector.filter = Some(filter);
        collector
    }

    /// The collector for one segment. Fails where the opened columns were
    /// not given or lack the segment, and where the segment has no column for
    /// the group field or for the value field.
    pub fn for_segment<'a>(&'a self, segment_ord: u32, segment: &SegmentReader) -> (r: Result<
        GroupExactSegmentCollector<'a>,
        Error,
    >)
        ensures
            match opened(
                self.warmed_column_fields,
                self.group_field,
                self.value_field,
                excluded_by(self.filter),
                segment,
            ) {
                Ok(c) => r matches Ok(child) && child.wf() && child@ == (ExactCollection {
                    columns: c,
                    docs: Seq::empty(),
                }),
                Err(e) => r matches Err(x) && x == e,
            },
    {
        let columns = match GroupColumns::open(
            &self.warmed_column_fields,
            self.group_field,
            self.value_field,
            &self.filter,
            segment,
        ) {
            Err(e) => {
                return Err(e);
            },
            Ok(columns) => columns,
        };
        let child = GroupExactSegmentCollector {
            columns,
            groups: map_new(),
            docs: Ghost(Seq::empty()),
        };
        proof {
            assert(value_sets(child.groups@) =~= exact_groups(Seq::<(u128, u128)>::empty()));
        }
        Ok(child)
    }

    /// Merges the fruits of segments or shards: for each group, the union of
    /// its sets.
    pub fn merge_fruits(&self, segment_fruits: Vec<FxHashMap<u128, FxHashSet<u128>>>) -> (r:
        FxHashMap<u128, FxHashSet<u128>>)
        ensures
            value_sets(r@) == united_all(set_views(segment_fruits@)),
    {
        unite_sets(segment_fruits)
    }
}

impl GroupExactCollector {
    /// How the collector is set up.
    pub open spec fn setup(&self) -> GroupSetup {
        GroupSetup {
            column_fields: self.warmed_column_fields,
            group_field: self.group_field,
            value_field: self.value_field,
            excluded: excluded_by(self.filter),
        }
    }

    /// The fruit of a shard: the sets of its segments, united.
    pub open spec fn local_fruit(&self, query: IndexQueryView, searcher: &Searcher) -> Result<
        Map<u128, Set<u128>>,
        Error,
    > {
        match self.setup().shard_pairs(query, searcher, searcher.segments@.len()) {
            Err(e) => Err(e),
            Ok(pairs) => Ok(
                united_all(pairs.map_values(|p: Seq<(u128, u128)>| exact_groups(p))),
            ),
        }
    }

    /// Runs `query` on a shard and collects what it gives.
    pub fn search(&self, query: &IndexQuery, searcher: &Searcher) -> (r: Result<
        FxHashMap<u128, FxHashSet<u128>>,
        Error,
    >)
        requires
            searcher.segments@.len() <= u32::MAX,
        ensures
            match self.local_fruit(query@, searcher) {
                Ok(f) => r matches Ok(m) && value_sets(m@) == f,
                Err(e) => r matches Err(x) && x == e,
            },
    {
        let mut fruits: Vec<FxHashMap<u128, FxHashSet<u128>>> = Vec::new();
        let ghost mut pairs: Seq<Seq<(u128, u128)>> = Seq::empty();
        let mut i: usize = 0;
        proof {
            assert(set_views(fruits@) =~= pairs.map_values(|p: Seq<(u128, u128)>| exact_groups(p)));
        }
        while i < searcher.segments.len()
            invariant
                i <= searcher.segments@.len() <= u32::MAX,
                self.setup().shard_pairs(query@, searcher, i as nat) == Ok::<
                    Seq<Seq<(u128, u128)>>,
                    Error,
                >(pairs),
                set_views(fruits@) == pairs.map_values(|p: Seq<(u128, u128)>| exact_groups(p)),
            decreases searcher.segments.len() - i,
        {
            let segment_ord = i as u32;
            let segment = &searcher.segments[i];
            let mut child = match self.for_segment(segment_ord, segment) {
                Err(e) => {
                    proof {
                        self.setup().lemma_shard_pairs_fail(
                            query@,
                            searcher,
                            i as nat,
                            searcher.segments@.len(),
                        );
                    }
                    return Err(e);
                },
                Ok(child) => child,
            };
            let columns = match searcher.column_fields.segment(&segment.segment_id()) {
                None => {
                    proof {
                        self.setup().lemma_shard_pairs_fail(
                            query@,
                            searcher,
                            i as nat,
                            searcher.segments@.len(),
                        );
                    }
                    return Err(Error::SegmentNotWarmed);
                },
                Some(columns) => columns,
            };
            let docs = query.search_segment(columns, segment.max_doc());
            let ghost empty = child@;
            let mut k: usize = 0;
            proof {
                assert(docs@.take(0) =~= empty.docs);
            }
            while k < docs.len()
                invariant
                    k <= docs.len(),
                    child.wf(),
                    child@.columns == empty.columns,
                    child@.docs == docs@.take(k as int),
                decreases docs.len() - k,
            {
                child.collect(docs[k]);
                k += 1;
                proof {
                    assert(docs@.take(k as int) =~= docs@.take(k - 1).push(docs@[k - 1]));
                }
            }
            proof {
                assert(docs@.take(k as int) =~= docs@);
            }
            let ghost before = set_views(fruits@);
            let ghost p = empty.columns.pairs(docs@);
            let fruit = child.harvest();
            fruits.push(fruit);
            proof {
                assert(set_views(fruits@) =~= before.push(value_sets(fruit@)));
                assert(pairs.push(p).map_values(|p: Seq<(u128, u128)>| exact_groups(p)) =~= before.push(
                    exact_groups(p),
                ));
                pairs = pairs.push(p);
            }
            i += 1;
        }
        Ok(self.merge_fruits(fruits))
    }
}

/// Unites fruits into one: for each group that one of them has, all the
/// values that they hold for it.
pub fn unite_sets(fruits: Vec<FxHashMap<u128, FxHashSet<u128>>>) -> (r: FxHashMap<
    u128,
    FxHashSet<u128>,
>)
    ensures
        value_sets(r@) == united_all(set_views(fruits@)),
{
    let mut groups: FxHashMap<u128, FxHashSet<u128>> = map_new();
    let ghost views = set_views(fruits@);
    let mut i: usize = 0;
    proof {
        assert(value_sets(groups@) =~= Map::<u128, Set<u128>>::empty());
    }
    while i < fruits.len()
        invariant
            i <= fruits.len(),
            views == set_views(fruits@),
            value_sets(groups@) == united_all(views.take(i as int)),
        decreases fruits.len() - i,
    {
        proof {
            assert(views.take(i + 1).drop_last() =~= views.take(i as int));
        }
        unite_into(&mut groups, &fruits[i]);
        i += 1;
    }
    proof {
        assert(views.take(i as int) =~= views);
    }
    groups
}

/// A copy of a fruit.
pub fn copy_sets(fruit: &FxHashMap<u128, FxHashSet<u128>>) -> (r: FxHashMap<u128, FxHashSet<u128>>)
    ensures
        value_sets(r@) == value_sets(fruit@),
{
    let entries = map_entries(fruit);
    let mut copy: FxHashMap<u128, FxHashSet<u128>> = map_new();
    let ghost given = value_sets(fruit@);
    let ghost mut done: Set<u128> = Set::empty();
    let mut j: usize = 0;
    proof {
        assert(value_sets(copy@) =~= given.restrict(done));
    }
    while j < entries.len()
        invariant
            j <= entries.len(),
            entries_of(entries@, fruit@),
            given == value_sets(fruit@),
            forall|k: int| 0 <= k < j ==> done.contains((#[trigger] entries@[k]).0),
            value_sets(copy@) == given.restrict(done),
        decreases entries.len() - j,
    {
        let group = entries[j].0;
        let mut values = set_new();
        insert_all(&mut values, entries[j].1);
        let ghost before = copy@;
        let ghost copied = values;
        map_insert(&mut copy, group, values);
        proof {
            assert(fruit@.contains_key(group) && fruit@[group] == *entries@[j as int].1);
            assert(copied@ =~= fruit@[group]@);
            assert(value_sets(copy@) =~= value_sets(before).insert(group, copied@));
            assert(value_sets(before).insert(group, copied@) =~= given.restrict(done.insert(group)));
            done = done.insert(group);
        }
        j += 1;
    }
    proof {
        assert forall|g: u128| given.contains_key(g) implies done.contains(g) by {
            let k = choose|k: int| 0 <= k < entries@.len() && (#[trigger] entries@[k]).0 == g;
            assert(done.contains(entries@[k].0));
        }
        assert(given.restrict(done) =~= given);
    }
    copy
}

} // verus!
