//! For the links of a host, the values of one field grouped by another:
//! as sketches that estimate how many distinct values a group has, or as the
//! sets of the values themselves.

use crate::collector::group::GroupSetup;
use crate::collector::group_exact::{
    copy_sets, exact_groups, set_views, unite_sets, united_all, value_sets, GroupExactCollector,
};
use crate::collector::group_sketch::{
    copy_sketches, grouped, merge_sketches, merged_all, sketch_views, sketches,
    GroupSketchCollector,
};
use crate::column::FieldEnum;
use crate::doc_address::ShardId;
use crate::edge::RelFlags;
use crate::error::Error;
use crate::filter::{column_clauses, index_clauses, AndFilter, Filter, FilterEnum};
use crate::hyperloglog::HyperLogLog;
use crate::index_query::{IndexQuery, IndexQueryView, LinksQuery};
use crate::node::NodeID;
use crate::query::Query;
use crate::schema::Field;
use crate::searcher::{share_columns, Searcher};
use rustc_hash::{FxHashMap, FxHashSet};
use vstd::prelude::*;

verus! {

/// The end of a link that is given, with the host at that end.
#[derive(Clone, Copy, Debug, PartialEq, Eq)]
pub enum LinksDirection {
    /// The links that start from the host.
    From(NodeID),
    /// The links that point to the host.
    To(NodeID),
}

/// The links of a host that a group query scans the index for. Of the links
/// between two hosts the first is given, where that is asked for.
pub open spec fn links_of(node: LinksDirection, skip_self_links: bool, deduplicate: bool) -> LinksQuery {
    match node {
        LinksDirection::From(node) => LinksQuery {
            node,
            field: FieldEnum::FromHostId,
            skip_self_links,
            deduplication_field: if deduplicate {
                Some(FieldEnum::ToHostId)
            } else {
                None
            },
        },
        LinksDirection::To(node) => LinksQuery {
            node,
            field: FieldEnum::ToHostId,
            skip_self_links,
            deduplication_field: if deduplicate {
                Some(FieldEnum::FromHostId)
            } else {
                None
            },
        },
    }
}

/// The flags that the filters exclude, where one of them excludes flags.
pub open spec fn excluded_of(filters: Seq<FilterEnum>) -> Option<Seq<RelFlags>> {
    if column_clauses(filters).len() > 0 {
        Some(column_clauses(filters))
    } else {
        None
    }
}

/// Estimates, for each group, how many distinct values occur with it among the links of a host.
#[derive(Debug)]
pub struct HostGroupSketchQuery {
    pub node: LinksDirection,
    pub group: FieldEnum,
    pub value: FieldEnum,
    pub filters: Vec<FilterEnum>,
    pub skip_self_links: bool,
    pub deduplicate: bool,
}

impl HostGroupSketchQuery {
    /// The query for the links of `node`, which groups the values of
    /// `value` by `group`. Links that stay on one host are left out, and of
    /// the links between two hosts one is counted.
    pub fn new<Group: Field, Value: Field>(node: LinksDirection, group: Group, value: Value) -> (r:
        Self)
        ensures
            r.node == node,
            r.group == group.field_enum(),
            r.value == value.field_enum(),
            r.filters@ == Seq::<FilterEnum>::empty(),
            r.skip_self_links,
            r.deduplicate,
    {
        Self {
            node,
            group: group.as_enum(),
            value: value.as_enum(),
            filters: Vec::new(),
            skip_self_links: true,
            deduplicate: true,
        }
    }

    /// The query for the links that point to the host `node`.
    pub fn backlinks<Group: Field, Value: Field>(node: NodeID, group: Group, value: Value) -> (r:
        Self)
        ensures
            r.node == LinksDirection::To(node),
            r.group == group.field_enum(),
            r.value == value.field_enum(),
            r.filters@ == Seq::<FilterEnum>::empty(),
            r.skip_self_links,
            r.deduplicate,
    {
        Self::new(LinksDirection::To(node), group, value)
    }

    /// The query for the links that start from the host `node`.
    pub fn forwardlinks<Group: Field, Value: Field>(node: NodeID, group: Group, value: Value) -> (r:
        Self)
        ensures
            r.node == LinksDirection::From(node),
            r.group == group.field_enum(),
            r.value == value.field_enum(),
            r.filters@ == Seq::<FilterEnum>::empty(),
            r.skip_self_links,
            r.deduplicate,
    {
        Self::new(LinksDirection::From(node), group, value)
    }

    /// The query with one more filter, which every counted link must pass.
    #[must_use]
    pub fn filter<F: Filter>(self, filter: F) -> (r: Self)
        ensures
            r.filters@ == self.filters@.push(filter.filter_enum()),
            r.node == self.node,
            r.group == self.group,
            r.value == self.value,
            r.skip_self_links == self.skip_self_links,
            r.deduplicate == self.deduplicate,
    {
        let mut query = self;
        query.filters.push(filter.into_enum());
        query
    }

    /// The conjunction of the query's filters, if it has any.
    pub fn filter_as_and(&self) -> (r: Option<AndFilter>)
        ensures
            match r {
                Some(f) => f.filters@ == self.filters@ && self.filters@.len() > 0,
                None => self.filters@.len() == 0,
            },
    {
        if self.filters.len() == 0 {
            None
        } else {
            let mut filter = AndFilter::new();
            let mut i: usize = 0;
            while i < self.filters.len()
                invariant
                    i <= self.filters.len(),
                    filter.filters@ == self.filters@.take(i as int),
                decreases self.filters.len() - i,
            {
                filter = filter.and(self.filters[i]);
                i += 1;
                proof {
                    assert(filter.filters@ =~= self.filters@.take(i as int));
                }
            }
            proof {
                assert(self.filters@.take(i as int) =~= self.filters@);
            }
            Some(filter)
        }
    }

    /// Says whether the links that stay on one host are left out.
    #[must_use]
    pub fn skip_self_links(self, skip_self_links: bool) -> (r: Self)
        ensures
            r.skip_self_links == skip_self_links,
            r.filters@ == self.filters@,
            r.node == self.node,
            r.group == self.group,
            r.value == self.value,
            r.deduplicate == self.deduplicate,
    {
        let mut query = self;
        query.skip_self_links = skip_self_links;
        query
    }

    /// Says whether of the links between two hosts only one is counted.
    #[must_use]
    pub fn deduplicate(self, deduplicate: bool) -> (r: Self)
        ensures
            r.deduplicate == deduplicate,
            r.filters@ == self.filters@,
            r.node == self.node,
            r.group == self.group,
            r.value == self.value,
            r.skip_self_links == self.skip_self_links,
    {
        let mut query = self;
        query.deduplicate = deduplicate;
        query
    }

    /// The links that the index is scanned for.
    pub open spec fn links(&self) -> LinksQuery {
        links_of(self.node, self.skip_self_links, self.deduplicate)
    }

    /// How the collector that runs on a shard is set up.
    pub open spec fn local_setup(&self, searcher: &Searcher) -> GroupSetup {
        GroupSetup {
            column_fields: Some(searcher.column_fields),
            group_field: self.group,
            value_field: self.value,
            excluded: excluded_of(self.filters@),
        }
    }

    /// Builds the collector that runs on a shard.
    pub fn collector(&self, searcher: &Searcher) -> (c: GroupSketchCollector)
        ensures
            c.setup() == self.local_setup(searcher),
    {
        let collector = GroupSketchCollector::new(self.group, self.value).with_column_fields(
            share_columns(searcher.warmed_column_fields()),
        );
        let filter = match self.filter_as_and() {
            Some(f) => f.column_field_filter(),
            None => None,
        };
        match filter {
            Some(filter) => collector.with_filter(filter),
            None => collector,
        }
    }

    /// Builds the collector that merges the fruits of the shards.
    pub fn coordinator_collector(&self) -> (c: GroupSketchCollector)
        ensures
            c.group_field == self.group,
            c.value_field == self.value,
            c.warmed_column_fields is None,
            c.filter is None,
    {
        GroupSketchCollector::new(self.group, self.value)
    }
}

impl Query for HostGroupSketchQuery {
    type Fruit = FxHashMap<u128, HyperLogLog>;

    type FruitView = Map<u128, Seq<u8>>;

    type IntermediateOutput = FxHashMap<u128, HyperLogLog>;

    type IntermediateView = Map<u128, Seq<u8>>;

    type Output = FxHashMap<u128, HyperLogLog>;

    type OutputView = Map<u128, Seq<u8>>;

    open spec fn fruit_view(fruit: &FxHashMap<u128, HyperLogLog>) -> Map<u128, Seq<u8>> {
        sketches(fruit@)
    }

    open spec fn intermediate_view(output: &FxHashMap<u128, HyperLogLog>) -> Map<u128, Seq<u8>> {
        sketches(output@)
    }

    open spec fn output_view(output: &FxHashMap<u128, HyperLogLog>) -> Map<u128, Seq<u8>> {
        sketches(output@)
    }

    open spec fn scan(&self) -> IndexQueryView {
        IndexQueryView { links: self.links(), must: index_clauses(self.filters@), max_docs: None }
    }

    /// The sketches of the shard's segments, merged.
    open spec fn local_fruit(&self, searcher: &Searcher) -> Result<Map<u128, Seq<u8>>, Error> {
        match self.local_setup(searcher).shard_pairs(
            self.scan(),
            searcher,
            searcher.segments@.len(),
        ) {
            Err(e) => Err(e),
            Ok(pairs) => Ok(merged_all(pairs.map_values(|p: Seq<(u128, u128)>| grouped(p)))),
        }
    }

    open spec fn merged_fruit(&self, fruits: Seq<Map<u128, Seq<u8>>>) -> Map<u128, Seq<u8>> {
        merged_all(fruits)
    }

    /// The merged fruit is the answer for every shard.
    open spec fn shard_fruit(&self, shard_id: ShardId, fruit: Map<u128, Seq<u8>>) -> Map<
        u128,
        Seq<u8>,
    > {
        fruit
    }

    /// Nothing is left to retrieve.
    open spec fn retrieved(&self, searcher: &Searcher, fruit: Map<u128, Seq<u8>>) -> Result<
        Map<u128, Seq<u8>>,
        Error,
    > {
        Ok(fruit)
    }

    /// The sketches of all results, merged: the order of the results does
    /// not matter.
    open spec fn merged_results(results: Seq<Map<u128, Seq<u8>>>) -> Map<u128, Seq<u8>> {
        merged_all(results)
    }

    fn index_query(&self, searcher: &Searcher) -> (q: IndexQuery) {
        let raw = match self.node {
            LinksDirection::From(node) => {
                let q = LinksQuery::new(node, FieldEnum::FromHostId).skip_self_links(
                    self.skip_self_links,
                );
                if self.deduplicate {
                    q.with_deduplication_field(FieldEnum::ToHostId)
                } else {
                    q
                }
            },
            LinksDirection::To(node) => {
                let q = LinksQuery::new(node, FieldEnum::ToHostId).skip_self_links(
                    self.skip_self_links,
                );
                if self.deduplicate {
                    q.with_deduplication_field(FieldEnum::FromHostId)
                } else {
                    q
                }
            },
        };
        let raw = IndexQuery::new(raw);
        let filter = match self.filter_as_and() {
            Some(f) => f.inverted_index_filter(),
            None => None,
        };
        match filter {
            Some(filter) => {
                let query = raw.with_clauses(filter.query());
                proof {
                    assert(query@.must =~= index_clauses(self.filters@));
                }
                query
            },
            None => {
                proof {
                    assert(raw@.must =~= index_clauses(self.filters@));
                }
                raw
            },
        }
    }

    fn search_shard(&self, searcher: &Searcher) -> (r: Result<FxHashMap<u128, HyperLogLog>, Error>) {
        let query = self.index_query(searcher);
        self.collector(searcher).search(&query, searcher)
    }

    fn merge_fruits(&self, fruits: Vec<FxHashMap<u128, HyperLogLog>>) -> (r: FxHashMap<
        u128,
        HyperLogLog,
    >) {
        proof {
            assert(fruits@.map_values(|f: FxHashMap<u128, HyperLogLog>| Self::fruit_view(&f))
                =~= sketch_views(fruits@));
        }
        self.coordinator_collector().merge_fruits(fruits)
    }

    fn copy_fruit(fruit: &FxHashMap<u128, HyperLogLog>) -> (r: FxHashMap<u128, HyperLogLog>) {
        copy_sketches(fruit)
    }

    fn filter_fruit_shards(&self, shard_id: ShardId, fruit: FxHashMap<u128, HyperLogLog>) -> (r:
        FxHashMap<u128, HyperLogLog>) {
        fruit
    }

    fn retrieve(&self, searcher: &Searcher, fruit: FxHashMap<u128, HyperLogLog>) -> (r: Result<
        FxHashMap<u128, HyperLogLog>,
        Error,
    >) {
        Ok(fruit)
    }

    fn merge_results(results: Vec<FxHashMap<u128, HyperLogLog>>) -> (r: FxHashMap<u128, HyperLogLog>) {
        proof {
            assert(results@.map_values(
                |o: FxHashMap<u128, HyperLogLog>| Self::intermediate_view(&o),
            ) =~= sketch_views(results@));
        }
        merge_sketches(results)
    }
}

/// Gives, for each group, the distinct values that occur with it among the links of a host.
#[derive(Debug)]
pub struct HostGroupQuery {
    pub node: LinksDirection,
    pub group: FieldEnum,
    pub value: FieldEnum,
    pub filters: Vec<FilterEnum>,
    pub skip_self_links: bool,
    pub deduplicate: bool,
}

impl HostGroupQuery {
    /// The query for the links of `node`, which groups the values of
    /// `value` by `group`. Links that stay on one host are left out, and of
    /// the links between two hosts one is counted.
    pub fn new<Group: Field, Value: Field>(node: LinksDirection, group: Group, value: Value) -> (r:
        Self)
        ensures
            r.node == node,
            r.group == group.field_enum(),
            r.value == value.field_enum(),
            r.filters@ == Seq::<FilterEnum>::empty(),
            r.skip_self_links,
            r.deduplicate,
    {
        Self {
            node,
            group: group.as_enum(),
            value: value.as_enum(),
            filters: Vec::new(),
            skip_self_links: true,
            deduplicate: true,
        }
    }

    /// The query for the links that point to the host `node`.
    pub fn backlinks<Group: Field, Value: Field>(node: NodeID, group: Group, value: Value) -> (r:
        Self)
        ensures
            r.node == LinksDirection::To(node),
            r.group == group.field_enum(),
            r.value == value.field_enum(),
            r.filters@ == Seq::<FilterEnum>::empty(),
            r.skip_self_links,
            r.deduplicate,
    {
        Self::new(LinksDirection::To(node), group, value)
    }

    /// The query for the links that start from the host `node`.
    pub fn forwardlinks<Group: Field, Value: Field>(node: NodeID, group: Group, value: Value) -> (r:
        Self)
        ensures
            r.node == LinksDirection::From(node),
            r.group == group.field_enum(),
            r.value == value.field_enum(),
            r.filters@ == Seq::<FilterEnum>::empty(),
            r.skip_self_links,
            r.deduplicate,
    {
        Self::new(LinksDirection::From(node), group, value)
    }

    /// The query with one more filter, which every counted link must pass.
    #[must_use]
    pub fn filter<F: Filter>(self, filter: F) -> (r: Self)
        ensures
            r.filters@ == self.filters@.push(filter.filter_enum()),
            r.node == self.node,
            r.group == self.group,
            r.value == self.value,
            r.skip_self_links == self.skip_self_links,
            r.deduplicate == self.deduplicate,
    {
        let mut query = self;
        query.filters.push(filter.into_enum());
        query
    }

    /// The conjunction of the query's filters, if it has any.
    pub fn filter_as_and(&self) -> (r: Option<AndFilter>)
        ensures
            match r {
                Some(f) => f.filters@ == self.filters@ && self.filters@.len() > 0,
                None => self.filters@.len() == 0,
            },
    {
        if self.filters.len() == 0 {
            None
        } else {
            let mut filter = AndFilter::new();
            let mut i: usize = 0;
            while i < self.filters.len()
                invariant
                    i <= self.filters.len(),
                    filter.filters@ == self.filters@.take(i as int),
                decreases self.filters.len() - i,
            {
                filter = filter.and(self.filters[i]);
                i += 1;
                proof {
                    assert(filter.filters@ =~= self.filters@.take(i as int));
                }
            }
            proof {
                assert(self.filters@.take(i as int) =~= self.filters@);
            }
            Some(filter)
        }
    }

    /// Says whether the links that stay on one host are left out.
    #[must_use]
    pub fn skip_self_links(self, skip_self_links: bool) -> (r: Self)
        ensures
            r.skip_self_links == skip_self_links,
            r.filters@ == self.filters@,
            r.node == self.node,
            r.group == self.group,
            r.value == self.value,
            r.deduplicate == self.deduplicate,
    {
        let mut query = self;
        query.skip_self_links = skip_self_links;
        query
    }

    /// Says whether of the links between two hosts only one is counted.
    #[must_use]
    pub fn deduplicate(self, deduplicate: bool) -> (r: Self)
        ensures
            r.deduplicate == deduplicate,
            r.filters@ == self.filters@,
            r.node == self.node,
            r.group == self.group,
            r.value == self.value,
            r.skip_self_links == self.skip_self_links,
    {
        let mut query = self;
        query.deduplicate = deduplicate;
        query
    }

    /// The links that the index is scanned for.
    pub open spec fn links(&self) -> LinksQuery {
        links_of(self.node, self.skip_self_links, self.deduplicate)
    }

    /// How the collector that runs on a shard is set up.
    pub open spec fn local_setup(&self, searcher: &Searcher) -> GroupSetup {
        GroupSetup {
            column_fields: Some(searcher.column_fields),
            group_field: self.group,
            value_field: self.value,
            excluded: excluded_of(self.filters@),
        }
    }

    /// Builds the collector that runs on a shard.
    pub fn collector(&self, searcher: &Searcher) -> (c: GroupExactCollector)
        ensures
            c.setup() == self.local_setup(searcher),
    {
        let collector = GroupExactCollector::new(self.group, self.value).with_column_fields(
            share_columns(searcher.warmed_column_fields()),
        );
        let filter = match self.filter_as_and() {
            Some(f) => f.column_field_filter(),
            None => None,
        };
        match filter {
            Some(filter) => collector.with_filter(filter),
            None => collector,
        }
    }

    /// Builds the collector that merges the fruits of the shards.
    pub fn coordinator_collector(&self) -> (c: GroupExactCollector)
        ensures
            c.group_field == self.group,
            c.value_field == self.value,
            c.warmed_column_fields is None,
            c.filter is None,
    {
        GroupExactCollector::new(self.group, self.value)
    }
}

impl Query for HostGroupQuery {
    type Fruit = FxHashMap<u128, FxHashSet<u128>>;

    type FruitView = Map<u128, Set<u128>>;

    type IntermediateOutput = FxHashMap<u128, FxHashSet<u128>>;

    type IntermediateView = Map<u128, Set<u128>>;

    type Output = FxHashMap<u128, FxHashSet<u128>>;

    type OutputView = Map<u128, Set<u128>>;

    open spec fn fruit_view(fruit: &FxHashMap<u128, FxHashSet<u128>>) -> Map<u128, Set<u128>> {
        value_sets(fruit@)
    }

    open spec fn intermediate_view(output: &FxHashMap<u128, FxHashSet<u128>>) -> Map<u128, Set<u128>> {
        value_sets(output@)
    }

    open spec fn output_view(output: &FxHashMap<u128, FxHashSet<u128>>) -> Map<u128, Set<u128>> {
        value_sets(output@)
    }

    open spec fn scan(&self) -> IndexQueryView {
        IndexQueryView { links: self.links(), must: index_clauses(self.filters@), max_docs: None }
    }

    /// The sets of the shard's segments, united.
    open spec fn local_fruit(&self, searcher: &Searcher) -> Result<Map<u128, Set<u128>>, Error> {
        match self.local_setup(searcher).shard_pairs(
            self.scan(),
            searcher,
            searcher.segments@.len(),
        ) {
            Err(e) => Err(e),
            Ok(pairs) => Ok(united_all(pairs.map_values(|p: Seq<(u128, u128)>| exact_groups(p)))),
        }
    }

    open spec fn merged_fruit(&self, fruits: Seq<Map<u128, Set<u128>>>) -> Map<u128, Set<u128>> {
        united_all(fruits)
    }

    /// The merged fruit is the answer for every shard.
    open spec fn shard_fruit(&self, shard_id: ShardId, fruit: Map<u128, Set<u128>>) -> Map<
        u128,
        Set<u128>,
    > {
        fruit
    }

    /// Nothing is left to retrieve.
    open spec fn retrieved(&self, searcher: &Searcher, fruit: Map<u128, Set<u128>>) -> Result<
        Map<u128, Set<u128>>,
        Error,
    > {
        Ok(fruit)
    }

    /// The values of all results, united: the order of the results does not
    /// matter.
    open spec fn merged_results(results: Seq<Map<u128, Set<u128>>>) -> Map<u128, Set<u128>> {
        united_all(results)
    }

    fn index_query(&self, searcher: &Searcher) -> (q: IndexQuery) {
        let raw = match self.node {
            LinksDirection::From(node) => {
                let q = LinksQuery::new(node, FieldEnum::FromHostId).skip_self_links(
                    self.skip_self_links,
                );
                if self.deduplicate {
                    q.with_deduplication_field(FieldEnum::ToHostId)
                } else {
                    q
                }
            },
            LinksDirection::To(node) => {
                let q = LinksQuery::new(node, FieldEnum::ToHostId).skip_self_links(
                    self.skip_self_links,
                );
                if self.deduplicate {
                    q.with_deduplication_field(FieldEnum::FromHostId)
                } else {
                    q
                }
            },
        };
        let raw = IndexQuery::new(raw);
        let filter = match self.filter_as_and() {
            Some(f) => f.inverted_index_filter(),
            None => None,
        };
        match filter {
            Some(filter) => {
                let query = raw.with_clauses(filter.query());
                proof {
                    assert(query@.must =~= index_clauses(self.filters@));
                }
                query
            },
            None => {
                proof {
                    assert(raw@.must =~= index_clauses(self.filters@));
                }
                raw
            },
        }
    }

    fn search_shard(&self, searcher: &Searcher) -> (r: Result<FxHashMap<u128, FxHashSet<u128>>, Error>) {
        let query = self.index_query(searcher);
        self.collector(searcher).search(&query, searcher)
    }

    fn merge_fruits(&self, fruits: Vec<FxHashMap<u128, FxHashSet<u128>>>) -> (r: FxHashMap<
        u128,
        FxHashSet<u128>,
    >) {
        proof {
            assert(fruits@.map_values(|f: FxHashMap<u128, FxHashSet<u128>>| Self::fruit_view(&f))
                =~= set_views(fruits@));
        }
        self.coordinator_collector().merge_fruits(fruits)
    }

    fn copy_fruit(fruit: &FxHashMap<u128, FxHashSet<u128>>) -> (r: FxHashMap<u128, FxHashSet<u128>>) {
        copy_sets(fruit)
    }

    fn filter_fruit_shards(&self, shard_id: ShardId, fruit: FxHashMap<u128, FxHashSet<u128>>) -> (r:
        FxHashMap<u128, FxHashSet<u128>>) {
        fruit
    }

    fn retrieve(&self, searcher: &Searcher, fruit: FxHashMap<u128, FxHashSet<u128>>) -> (r: Result<
        FxHashMap<u128, FxHashSet<u128>>,
        Error,
    >) {
        Ok(fruit)
    }

    fn merge_results(results: Vec<FxHashMap<u128, FxHashSet<u128>>>) -> (r: FxHashMap<u128, FxHashSet<u128>>) {
        proof {
            assert(results@.map_values(
                |o: FxHashMap<u128, FxHashSet<u128>>| Self::intermediate_view(&o),
            ) =~= set_views(results@));
        }
        unite_sets(results)
    }
}

} // verus!
