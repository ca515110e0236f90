//! The links that start from a node.

use crate::collector::top_docs::{ScoredDoc, TopDocsCollector};
use crate::column::FieldEnum;
use crate::doc_address::ShardId;
use crate::edge::{Edge, EdgeLimit, EdgeView, SmallEdge};
use crate::error::Error;
use crate::index_query::{IndexQuery, IndexQueryView, LinksQuery};
use crate::node::{host_of, name_hash, Node, NodeID};
use crate::query::backlink::{fetch_edges, fetch_small_edges, small_edges, stored_edges};
use crate::query::links::{
    addresses, addresses_of, between_hosts, collector_for, copy_docs, edge_views, filter_shard,
    host_edges, kept, limited, limited_query, local_collector, merge_edges, merge_scored,
    merged_edges, merged_scored, merging_collector, outgoing, outgoing_edges, remote_collector_for,
};
use crate::query::Query;
use crate::ranking::{concat_all, ranked, views_of};
use crate::searcher::Searcher;
use vstd::prelude::*;

verus! {

/// The links that start from a page.
#[derive(Clone, Copy, Debug)]
pub struct ForwardlinksQuery {
    pub node: NodeID,
    pub limit: EdgeLimit,
}

impl ForwardlinksQuery {
    /// The query for all such links of `node`.
    pub fn new(node: NodeID) -> (r: Self)
        ensures
            r.node == node,
            r.limit == EdgeLimit::Unlimited,
    {
        Self { node, limit: EdgeLimit::Unlimited }
    }

    /// The query with this limit.
    pub fn with_limit(self, limit: EdgeLimit) -> (r: Self)
        ensures
            r.node == self.node,
            r.limit == limit,
    {
        Self { node: self.node, limit }
    }

    /// The links that the index is scanned for.
    pub open spec fn links(&self) -> LinksQuery {
        LinksQuery {
            node: self.node,
            field: FieldEnum::FromId,
            skip_self_links: true,
            deduplication_field: None,
        }
    }

    /// The collector that runs on a shard.
    pub open spec fn local_collector(&self, searcher: &Searcher) -> TopDocsCollector {
        local_collector(self.limit, searcher, None)
    }

    /// The collector that merges the fruits of shards or replicas.
    pub open spec fn merging_collector(&self) -> TopDocsCollector {
        merging_collector(self.limit, false)
    }

    /// Builds the collector that runs on a shard: it starts at the best
    /// document, whatever the offset.
    pub fn collector(&self, searcher: &Searcher) -> (c: TopDocsCollector)
        ensures
            c == self.local_collector(searcher),
    {
        collector_for(self.limit, searcher, None)
    }

    /// Builds the collector that merges the fruits of shards or replicas:
    /// it performs the offset.
    pub fn remote_collector(&self) -> (c: TopDocsCollector)
        ensures
            c == self.merging_collector(),
    {
        remote_collector_for(self.limit, false)
    }
}

impl Query for ForwardlinksQuery {
    type Fruit = Vec<ScoredDoc>;

    type FruitView = Seq<ScoredDoc>;

    type IntermediateOutput = Vec<(u64, SmallEdge)>;

    type IntermediateView = Seq<(u64, SmallEdge)>;

    type Output = Vec<SmallEdge>;

    type OutputView = Seq<SmallEdge>;

    open spec fn fruit_view(fruit: &Vec<ScoredDoc>) -> Seq<ScoredDoc> {
        fruit@
    }

    open spec fn intermediate_view(output: &Vec<(u64, SmallEdge)>) -> Seq<(u64, SmallEdge)> {
        output@
    }

    open spec fn output_view(output: &Vec<SmallEdge>) -> Seq<SmallEdge> {
        output@
    }

    open spec fn scan(&self) -> IndexQueryView {
        limited(self.links(), self.limit)
    }

    open spec fn local_fruit(&self, searcher: &Searcher) -> Result<Seq<ScoredDoc>, Error> {
        self.local_collector(searcher).local_fruit(self.scan(), searcher)
    }

    open spec fn merged_fruit(&self, fruits: Seq<Seq<ScoredDoc>>) -> Seq<ScoredDoc> {
        self.merging_collector().reduction().reduce(concat_all(fruits))
    }

    open spec fn shard_fruit(&self, shard_id: ShardId, fruit: Seq<ScoredDoc>) -> Seq<ScoredDoc> {
        kept(fruit, shard_id)
    }

    /// The links between `node` and the nodes that the columns give for the
    /// fruit's addresses, taken segment by segment.
    open spec fn retrieved(&self, searcher: &Searcher, fruit: Seq<ScoredDoc>) -> Result<
        Seq<(u64, SmallEdge)>,
        Error,
    > {
        Ok(outgoing(self.node, small_edges(searcher, FieldEnum::ToId, ranked(addresses_of(fruit)))))
    }

    open spec fn merged_results(results: Seq<Seq<(u64, SmallEdge)>>) -> Seq<SmallEdge> {
        merged_scored(results)
    }

    fn index_query(&self, searcher: &Searcher) -> (q: IndexQuery) {
        limited_query(LinksQuery::new(self.node, FieldEnum::FromId), self.limit)
    }

    fn search_shard(&self, searcher: &Searcher) -> (r: Result<Vec<ScoredDoc>, Error>) {
        let query = self.index_query(searcher);
        self.collector(searcher).search(&query, searcher)
    }

    fn merge_fruits(&self, fruits: Vec<Vec<ScoredDoc>>) -> (r: Vec<ScoredDoc>) {
        proof {
            assert(fruits@.map_values(|f: Vec<ScoredDoc>| Self::fruit_view(&f)) =~= views_of(fruits@));
        }
        self.remote_collector().merge_fruits(fruits)
    }

    fn copy_fruit(fruit: &Vec<ScoredDoc>) -> (r: Vec<ScoredDoc>) {
        copy_docs(fruit)
    }

    fn filter_fruit_shards(&self, shard_id: ShardId, fruit: Vec<ScoredDoc>) -> (r: Vec<ScoredDoc>) {
        filter_shard(shard_id, fruit)
    }

    fn retrieve(&self, searcher: &Searcher, fruit: Vec<ScoredDoc>) -> (r: Result<
        Vec<(u64, SmallEdge)>,
        Error,
    >) {
        let docs = addresses(&fruit);
        match fetch_small_edges(searcher, docs, FieldEnum::ToId) {
            Ok(nodes) => Ok(outgoing_edges(self.node, nodes)),
            Err(e) => Err(e),
        }
    }

    fn merge_results(results: Vec<Vec<(u64, SmallEdge)>>) -> (r: Vec<SmallEdge>) {
        proof {
            assert(results@.map_values(|o: Vec<(u64, SmallEdge)>| Self::intermediate_view(&o))
                =~= views_of(results@));
        }
        merge_scored(results)
    }
}

/// The links that start from a host, one for each host that they point to.
#[derive(Clone, Copy, Debug)]
pub struct HostForwardlinksQuery {
    pub node: NodeID,
    pub limit: EdgeLimit,
}

impl HostForwardlinksQuery {
    /// The query for all such links of `node`.
    pub fn new(node: NodeID) -> (r: Self)
        ensures
            r.node == node,
            r.limit == EdgeLimit::Unlimited,
    {
        Self { node, limit: EdgeLimit::Unlimited }
    }

    /// The query with this limit.
    pub fn with_limit(self, limit: EdgeLimit) -> (r: Self)
        ensures
            r.node == self.node,
            r.limit == limit,
    {
        Self { node: self.node, limit }
    }

    /// The links that the index is scanned for.
    pub open spec fn links(&self) -> LinksQuery {
        LinksQuery {
            node: self.node,
            field: FieldEnum::FromHostId,
            skip_self_links: true,
            deduplication_field: Some(FieldEnum::ToHostId),
        }
    }

    /// The collector that runs on a shard.
    pub open spec fn local_collector(&self, searcher: &Searcher) -> TopDocsCollector {
        local_collector(self.limit, searcher, Some(FieldEnum::ToHostId))
    }

    /// The collector that merges the fruits of shards or replicas.
    pub open spec fn merging_collector(&self) -> TopDocsCollector {
        merging_collector(self.limit, true)
    }

    /// Builds the collector that runs on a shard: it starts at the best
    /// document, whatever the offset.
    pub fn collector(&self, searcher: &Searcher) -> (c: TopDocsCollector)
        ensures
            c == self.local_collector(searcher),
    {
        collector_for(self.limit, searcher, Some(FieldEnum::ToHostId))
    }

    /// Builds the collector that merges the fruits of shards or replicas:
    /// it performs the offset.
    pub fn remote_collector(&self) -> (c: TopDocsCollector)
        ensures
            c == self.merging_collector(),
    {
        remote_collector_for(self.limit, true)
    }
}

impl Query for HostForwardlinksQuery {
    type Fruit = Vec<ScoredDoc>;

    type FruitView = Seq<ScoredDoc>;

    type IntermediateOutput = Vec<(u64, SmallEdge)>;

    type IntermediateView = Seq<(u64, SmallEdge)>;

    type Output = Vec<SmallEdge>;

    type OutputView = Seq<SmallEdge>;

    open spec fn fruit_view(fruit: &Vec<ScoredDoc>) -> Seq<ScoredDoc> {
        fruit@
    }

    open spec fn intermediate_view(output: &Vec<(u64, SmallEdge)>) -> Seq<(u64, SmallEdge)> {
        output@
    }

    open spec fn output_view(output: &Vec<SmallEdge>) -> Seq<SmallEdge> {
        output@
    }

    open spec fn scan(&self) -> IndexQueryView {
        limited(self.links(), self.limit)
    }

    open spec fn local_fruit(&self, searcher: &Searcher) -> Result<Seq<ScoredDoc>, Error> {
        self.local_collector(searcher).local_fruit(self.scan(), searcher)
    }

    open spec fn merged_fruit(&self, fruits: Seq<Seq<ScoredDoc>>) -> Seq<ScoredDoc> {
        self.merging_collector().reduction().reduce(concat_all(fruits))
    }

    open spec fn shard_fruit(&self, shard_id: ShardId, fruit: Seq<ScoredDoc>) -> Seq<ScoredDoc> {
        kept(fruit, shard_id)
    }

    /// The links between `node` and the nodes that the columns give for the
    /// fruit's addresses, taken segment by segment.
    open spec fn retrieved(&self, searcher: &Searcher, fruit: Seq<ScoredDoc>) -> Result<
        Seq<(u64, SmallEdge)>,
        Error,
    > {
        Ok(outgoing(self.node, small_edges(searcher, FieldEnum::ToHostId, ranked(addresses_of(fruit)))))
    }

    open spec fn merged_results(results: Seq<Seq<(u64, SmallEdge)>>) -> Seq<SmallEdge> {
        merged_scored(results)
    }

    fn index_query(&self, searcher: &Searcher) -> (q: IndexQuery) {
        limited_query(LinksQuery::between_hosts(self.node, FieldEnum::FromHostId, FieldEnum::ToHostId), self.limit)
    }

    fn search_shard(&self, searcher: &Searcher) -> (r: Result<Vec<ScoredDoc>, Error>) {
        let query = self.index_query(searcher);
        self.collector(searcher).search(&query, searcher)
    }

    fn merge_fruits(&self, fruits: Vec<Vec<ScoredDoc>>) -> (r: Vec<ScoredDoc>) {
        proof {
            assert(fruits@.map_values(|f: Vec<ScoredDoc>| Self::fruit_view(&f)) =~= views_of(fruits@));
        }
        self.remote_collector().merge_fruits(fruits)
    }

    fn copy_fruit(fruit: &Vec<ScoredDoc>) -> (r: Vec<ScoredDoc>) {
        copy_docs(fruit)
    }

    fn filter_fruit_shards(&self, shard_id: ShardId, fruit: Vec<ScoredDoc>) -> (r: Vec<ScoredDoc>) {
        filter_shard(shard_id, fruit)
    }

    fn retrieve(&self, searcher: &Searcher, fruit: Vec<ScoredDoc>) -> (r: Result<
        Vec<(u64, SmallEdge)>,
        Error,
    >) {
        let docs = addresses(&fruit);
        match fetch_small_edges(searcher, docs, FieldEnum::ToHostId) {
            Ok(nodes) => Ok(outgoing_edges(self.node, nodes)),
            Err(e) => Err(e),
        }
    }

    fn merge_results(results: Vec<Vec<(u64, SmallEdge)>>) -> (r: Vec<SmallEdge>) {
        proof {
            assert(results@.map_values(|o: Vec<(u64, SmallEdge)>| Self::intermediate_view(&o))
                =~= views_of(results@));
        }
        merge_scored(results)
    }
}

/// The stored edges that start from a page.
#[derive(Debug)]
pub struct FullForwardlinksQuery {
    pub node: Node,
    pub limit: EdgeLimit,
}

impl FullForwardlinksQuery {
    /// The query for all such links of `node`.
    pub fn new(node: Node) -> (r: Self)
        ensures
            r.node@ == node@,
            r.limit == EdgeLimit::Unlimited,
    {
        Self { node, limit: EdgeLimit::Unlimited }
    }

    /// The query with this limit.
    pub fn with_limit(self, limit: EdgeLimit) -> (r: Self)
        ensures
            r.node@ == self.node@,
            r.limit == limit,
    {
        Self { node: self.node, limit }
    }

    /// The identity that the index is scanned for: that of `node`.
    pub open spec fn target(&self) -> NodeID {
        NodeID(name_hash(self.node@))
    }

    /// The links that the index is scanned for.
    pub open spec fn links(&self) -> LinksQuery {
        LinksQuery {
            node: self.target(),
            field: FieldEnum::FromId,
            skip_self_links: true,
            deduplication_field: None,
        }
    }

    /// The collector that runs on a shard.
    pub open spec fn local_collector(&self, searcher: &Searcher) -> TopDocsCollector {
        local_collector(self.limit, searcher, None)
    }

    /// The collector that merges the fruits of shards or replicas.
    pub open spec fn merging_collector(&self) -> TopDocsCollector {
        merging_collector(self.limit, false)
    }

    /// Builds the collector that runs on a shard: it starts at the best
    /// document, whatever the offset.
    pub fn collector(&self, searcher: &Searcher) -> (c: TopDocsCollector)
        ensures
            c == self.local_collector(searcher),
    {
        collector_for(self.limit, searcher, None)
    }

    /// Builds the collector that merges the fruits of shards or replicas:
    /// it performs the offset.
    pub fn remote_collector(&self) -> (c: TopDocsCollector)
        ensures
            c == self.merging_collector(),
    {
        remote_collector_for(self.limit, false)
    }

    fn target_id(&self) -> (r: NodeID)
        ensures
            r == self.target(),
    {
        self.node.id()
    }
}

impl Query for FullForwardlinksQuery {
    type Fruit = Vec<ScoredDoc>;

    type FruitView = Seq<ScoredDoc>;

    type IntermediateOutput = Vec<Edge>;

    type IntermediateView = Seq<EdgeView>;

    type Output = Vec<Edge>;

    type OutputView = Seq<EdgeView>;

    open spec fn fruit_view(fruit: &Vec<ScoredDoc>) -> Seq<ScoredDoc> {
        fruit@
    }

    open spec fn intermediate_view(output: &Vec<Edge>) -> Seq<EdgeView> {
        edge_views(output@)
    }

    open spec fn output_view(output: &Vec<Edge>) -> Seq<EdgeView> {
        edge_views(output@)
    }

    open spec fn scan(&self) -> IndexQueryView {
        limited(self.links(), self.limit)
    }

    open spec fn local_fruit(&self, searcher: &Searcher) -> Result<Seq<ScoredDoc>, Error> {
        self.local_collector(searcher).local_fruit(self.scan(), searcher)
    }

    open spec fn merged_fruit(&self, fruits: Seq<Seq<ScoredDoc>>) -> Seq<ScoredDoc> {
        self.merging_collector().reduction().reduce(concat_all(fruits))
    }

    open spec fn shard_fruit(&self, shard_id: ShardId, fruit: Seq<ScoredDoc>) -> Seq<ScoredDoc> {
        kept(fruit, shard_id)
    }

    /// The stored edges at the fruit's addresses, taken segment by
    /// segment.
    open spec fn retrieved(&self, searcher: &Searcher, fruit: Seq<ScoredDoc>) -> Result<
        Seq<EdgeView>,
        Error,
    > {
        match stored_edges(searcher, ranked(addresses_of(fruit))) {
            Ok(edges) => Ok(edges),
            Err(e) => Err(e),
        }
    }

    open spec fn merged_results(results: Seq<Seq<EdgeView>>) -> Seq<EdgeView> {
        merged_edges(results)
    }

    fn index_query(&self, searcher: &Searcher) -> (q: IndexQuery) {
        limited_query(LinksQuery::new(self.target_id(), FieldEnum::FromId), self.limit)
    }

    fn search_shard(&self, searcher: &Searcher) -> (r: Result<Vec<ScoredDoc>, Error>) {
        let query = self.index_query(searcher);
        self.collector(searcher).search(&query, searcher)
    }

    fn merge_fruits(&self, fruits: Vec<Vec<ScoredDoc>>) -> (r: Vec<ScoredDoc>) {
        proof {
            assert(fruits@.map_values(|f: Vec<ScoredDoc>| Self::fruit_view(&f)) =~= views_of(fruits@));
        }
        self.remote_collector().merge_fruits(fruits)
    }

    fn copy_fruit(fruit: &Vec<ScoredDoc>) -> (r: Vec<ScoredDoc>) {
        copy_docs(fruit)
    }

    fn filter_fruit_shards(&self, shard_id: ShardId, fruit: Vec<ScoredDoc>) -> (r: Vec<ScoredDoc>) {
        filter_shard(shard_id, fruit)
    }

    fn retrieve(&self, searcher: &Searcher, fruit: Vec<ScoredDoc>) -> (r: Result<Vec<Edge>, Error>) {
        let docs = addresses(&fruit);
        match fetch_edges(searcher, docs) {
            Ok(edges) => Ok(edges),
            Err(e) => Err(e),
        }
    }

    fn merge_results(results: Vec<Vec<Edge>>) -> (r: Vec<Edge>) {
        proof {
            assert(results@.map_values(|o: Vec<Edge>| Self::intermediate_view(&o))
                =~= results@.map_values(|o: Vec<Edge>| edge_views(o@)));
        }
        merge_edges(results)
    }
}

/// The stored edges that start from a host, one for each host that they point to.
#[derive(Debug)]
pub struct FullHostForwardlinksQuery {
    pub node: Node,
    pub limit: EdgeLimit,
}

impl FullHostForwardlinksQuery {
    /// The query for all such links of `node`.
    pub fn new(node: Node) -> (r: Self)
        ensures
            r.node@ == node@,
            r.limit == EdgeLimit::Unlimited,
    {
        Self { node, limit: EdgeLimit::Unlimited }
    }

    /// The query with this limit.
    pub fn with_limit(self, limit: EdgeLimit) -> (r: Self)
        ensures
            r.node@ == self.node@,
            r.limit == limit,
    {
        Self { node: self.node, limit }
    }

    /// The identity that the index is scanned for: that of the host of `node`.
    pub open spec fn target(&self) -> NodeID {
        NodeID(name_hash(host_of(self.node@)))
    }

    /// The links that the index is scanned for.
    pub open spec fn links(&self) -> LinksQuery {
        LinksQuery {
            node: self.target(),
            field: FieldEnum::FromHostId,
            skip_self_links: true,
            deduplication_field: Some(FieldEnum::ToHostId),
        }
    }

    /// The collector that runs on a shard.
    pub open spec fn local_collector(&self, searcher: &Searcher) -> TopDocsCollector {
        local_collector(self.limit, searcher, Some(FieldEnum::ToHostId))
    }

    /// The collector that merges the fruits of shards or replicas.
    pub open spec fn merging_collector(&self) -> TopDocsCollector {
        merging_collector(self.limit, true)
    }

    /// Builds the collector that runs on a shard: it starts at the best
    /// document, whatever the offset.
    pub fn collector(&self, searcher: &Searcher) -> (c: TopDocsCollector)
        ensures
            c == self.local_collector(searcher),
    {
        collector_for(self.limit, searcher, Some(FieldEnum::ToHostId))
    }

    /// Builds the collector that merges the fruits of shards or replicas:
    /// it performs the offset.
    pub fn remote_collector(&self) -> (c: TopDocsCollector)
        ensures
            c == self.merging_collector(),
    {
        remote_collector_for(self.limit, true)
    }

    fn target_id(&self) -> (r: NodeID)
        ensures
            r == self.target(),
    {
        self.node.clone().into_host().id()
    }
}

impl Query for FullHostForwardlinksQuery {
    type Fruit = Vec<ScoredDoc>;

    type FruitView = Seq<ScoredDoc>;

    type IntermediateOutput = Vec<Edge>;

    type IntermediateView = Seq<EdgeView>;

    type Output = Vec<Edge>;

    type OutputView = Seq<EdgeView>;

    open spec fn fruit_view(fruit: &Vec<ScoredDoc>) -> Seq<ScoredDoc> {
        fruit@
    }

    open spec fn intermediate_view(output: &Vec<Edge>) -> Seq<EdgeView> {
        edge_views(output@)
    }

    open spec fn output_view(output: &Vec<Edge>) -> Seq<EdgeView> {
        edge_views(output@)
    }

    open spec fn scan(&self) -> IndexQueryView {
        limited(self.links(), self.limit)
    }

    open spec fn local_fruit(&self, searcher: &Searcher) -> Result<Seq<ScoredDoc>, Error> {
        self.local_collector(searcher).local_fruit(self.scan(), searcher)
    }

    open spec fn merged_fruit(&self, fruits: Seq<Seq<ScoredDoc>>) -> Seq<ScoredDoc> {
        self.merging_collector().reduction().reduce(concat_all(fruits))
    }

    open spec fn shard_fruit(&self, shard_id: ShardId, fruit: Seq<ScoredDoc>) -> Seq<ScoredDoc> {
        kept(fruit, shard_id)
    }

    /// The stored edges at the fruit's addresses, taken segment by
    /// segment, each between the hosts of its two ends.
    open spec fn retrieved(&self, searcher: &Searcher, fruit: Seq<ScoredDoc>) -> Result<
        Seq<EdgeView>,
        Error,
    > {
        match stored_edges(searcher, ranked(addresses_of(fruit))) {
            Ok(edges) => Ok(edges.map_values(|e: EdgeView| between_hosts(e))),
            Err(e) => Err(e),
        }
    }

    open spec fn merged_results(results: Seq<Seq<EdgeView>>) -> Seq<EdgeView> {
        merged_edges(results)
    }

    fn index_query(&self, searcher: &Searcher) -> (q: IndexQuery) {
        limited_query(LinksQuery::between_hosts(self.target_id(), FieldEnum::FromHostId, FieldEnum::ToHostId), self.limit)
    }

    fn search_shard(&self, searcher: &Searcher) -> (r: Result<Vec<ScoredDoc>, Error>) {
        let query = self.index_query(searcher);
        self.collector(searcher).search(&query, searcher)
    }

    fn merge_fruits(&self, fruits: Vec<Vec<ScoredDoc>>) -> (r: Vec<ScoredDoc>) {
        proof {
            assert(fruits@.map_values(|f: Vec<ScoredDoc>| Self::fruit_view(&f)) =~= views_of(fruits@));
        }
        self.remote_collector().merge_fruits(fruits)
    }

    fn copy_fruit(fruit: &Vec<ScoredDoc>) -> (r: Vec<ScoredDoc>) {
        copy_docs(fruit)
    }

    fn filter_fruit_shards(&self, shard_id: ShardId, fruit: Vec<ScoredDoc>) -> (r: Vec<ScoredDoc>) {
        filter_shard(shard_id, fruit)
    }

    fn retrieve(&self, searcher: &Searcher, fruit: Vec<ScoredDoc>) -> (r: Result<Vec<Edge>, Error>) {
        let docs = addresses(&fruit);
        match fetch_edges(searcher, docs) {
            Ok(edges) => Ok(host_edges(edges)),
            Err(e) => Err(e),
        }
    }

    fn merge_results(results: Vec<Vec<Edge>>) -> (r: Vec<Edge>) {
        proof {
            assert(results@.map_values(|o: Vec<Edge>| Self::intermediate_view(&o))
                =~= results@.map_values(|o: Vec<Edge>| edge_views(o@)));
        }
        merge_edges(results)
    }
}

} // verus!
