//! The links that point to a node.

use crate::collector::top_docs::{ScoredDoc, TopDocsCollector};
use crate::column::{FieldEnum, SegmentColumnFields};
use crate::doc_address::{DocAddress, ShardId};
use crate::edge::{Edge, EdgeLimit, EdgeView, LabelledEdgeView, RelFlags, SmallEdge, SmallEdgeWithLabel};
use crate::error::Error;
use crate::index_query::{IndexQuery, IndexQueryView, LinksQuery};
use crate::node::{host_of, name_hash, Node, NodeID};
use crate::query::links::{
    addresses, addresses_of, between_hosts, collector_for, copy_docs, edge_views, filter_shard,
    host_edges, incoming, incoming_edges, kept, labelled, labelled_edges, labelled_views, limited,
    limited_query, local_collector, merge_edges, merge_labelled, merge_scored, merged_edges,
    merged_scored, merging_collector, remote_collector_for,
};
use crate::query::Query;
use crate::ranking::{concat_all, ranked, sort_ranked, views_of};
use crate::schema::Field;
use crate::searcher::Searcher;
use vstd::prelude::*;

verus! {

/// The opened columns of the segment of ordinal `segment_ord`, if the shard
/// has such a segment and its columns were opened.
pub open spec fn segment_columns(searcher: &Searcher, segment_ord: u32) -> Option<
    &SegmentColumnFields,
> {
    if segment_ord < searcher.segments@.len() {
        match searcher.column_fields.position(searcher.segments@[segment_ord as int].segment_id) {
            Some(i) => Some(&searcher.column_fields.segments@[i]),
            None => None,
        }
    } else {
        None
    }
}

/// What the columns give for an address: the node in `field`, the flags and
/// the score of the link. Nothing where the segment has no opened columns,
/// or the document lacks one of the three values.
pub open spec fn small_edge(searcher: &Searcher, field: FieldEnum, doc: DocAddress) -> Option<
    (NodeID, RelFlags, u64),
> {
    match segment_columns(searcher, doc.segment_ord) {
        None => None,
        Some(columns) => match (
            columns.id_value(field, doc.doc_id),
            columns.flags_value(doc.doc_id),
            columns.score_value(doc.doc_id),
        ) {
            (Some(id), Some(flags), Some(score)) => Some((NodeID(id), RelFlags(flags), score)),
            _ => None,
        },
    }
}

/// What the columns give for addresses, in their order; an address for
/// which they give nothing is passed over.
pub open spec fn small_edges(searcher: &Searcher, field: FieldEnum, docs: Seq<DocAddress>) -> Seq<
    (NodeID, RelFlags, u64),
>
    decreases docs.len(),
{
    if docs.len() == 0 {
        Seq::empty()
    } else {
        match small_edge(searcher, field, docs.last()) {
            Some(e) => small_edges(searcher, field, docs.drop_last()).push(e),
            None => small_edges(searcher, field, docs.drop_last()),
        }
    }
}

fn columns_of(searcher: &Searcher, segment_ord: u32) -> (r: Option<&SegmentColumnFields>)
    ensures
        r == segment_columns(searcher, segment_ord),
{
    if (segment_ord as usize) < searcher.num_segments() {
        searcher.warmed_column_fields().segment(&searcher.segment_reader(segment_ord).segment_id())
    } else {
        None
    }
}

/// Reads, for each address, the node in `node_id_field`, the flags and the
/// score of the link. The addresses are taken segment by segment, so that
/// the columns of a segment are looked up once; within a segment they keep
/// their order.
pub fn fetch_small_edges<F: Field>(
    searcher: &Searcher,
    doc_ids: Vec<DocAddress>,
    node_id_field: F,
) -> (r: Result<Vec<(NodeID, RelFlags, u64)>, Error>)
    ensures
        r matches Ok(edges) && edges@ == small_edges(
            searcher,
            node_id_field.field_enum(),
            ranked(doc_ids@),
        ),
{
    let field = node_id_field.as_enum();
    let doc_ids = sort_ranked(doc_ids);
    let mut prev_segment_id: Option<u32> = None;
    let mut columns: Option<&SegmentColumnFields> = None;
    let mut edges: Vec<(NodeID, RelFlags, u64)> = Vec::new();
    let mut i: usize = 0;
    while i < doc_ids.len()
        invariant
            i <= doc_ids.len(),
            field == node_id_field.field_enum(),
            prev_segment_id matches Some(p) ==> columns == segment_columns(searcher, p),
            edges@ == small_edges(searcher, field, doc_ids@.take(i as int)),
        decreases doc_ids.len() - i,
    {
        let doc = doc_ids[i];
        proof {
            assert(doc_ids@.take(i + 1).drop_last() =~= doc_ids@.take(i as int));
        }
        i += 1;
        if Some(doc.segment_ord) != prev_segment_id {
            prev_segment_id = Some(doc.segment_ord);
            columns = columns_of(searcher, doc.segment_ord);
        }
        let segment = match columns {
            None => {
                continue ;
            },
            Some(segment) => segment,
        };
        let id = match segment.u128(field) {
            None => {
                continue ;
            },
            Some(column) => match column.first(doc.doc_id) {
                None => {
                    continue ;
                },
                Some(id) => id,
            },
        };
        let rel_flags = match segment.u64(FieldEnum::RelFlags) {
            None => {
                continue ;
            },
            Some(column) => match column.first(doc.doc_id) {
                None => {
                    continue ;
                },
                Some(rel_flags) => rel_flags,
            },
        };
        let sort_score = match segment.score(FieldEnum::SortScore) {
            None => {
                continue ;
            },
            Some(column) => match column.first(doc.doc_id) {
                None => {
                    continue ;
                },
                Some(sort_score) => sort_score,
            },
        };
        edges.push((NodeID::from(id), RelFlags::from(rel_flags), sort_score));
    }
    proof {
        assert(doc_ids@.take(i as int) =~= doc_ids@);
    }
    Ok(edges)
}

/// The stored edges at addresses, in their order, or the first reason why
/// one of them cannot be had.
pub open spec fn stored_edges(searcher: &Searcher, docs: Seq<DocAddress>) -> Result<
    Seq<EdgeView>,
    Error,
>
    decreases docs.len(),
{
    if docs.len() == 0 {
        Ok(Seq::empty())
    } else {
        match stored_edges(searcher, docs.drop_last()) {
            Err(e) => Err(e),
            Ok(edges) => match searcher.stored(docs.last()) {
                Err(e) => Err(e),
                Ok(edge) => Ok(edges.push(edge@)),
            },
        }
    }
}

proof fn lemma_stored_edges_fail(searcher: &Searcher, docs: Seq<DocAddress>, i: int, n: int)
    requires
        0 <= i < n <= docs.len(),
        stored_edges(searcher, docs.take(i)) is Ok,
        searcher.stored(docs[i]) is Err,
    ensures
        stored_edges(searcher, docs.take(n)) is Err,
        stored_edges(searcher, docs.take(n))->Err_0 == searcher.stored(docs[i])->Err_0,
    decreases n,
{
    assert(docs.take(n).drop_last() =~= docs.take(n - 1));
    if n > i + 1 {
        lemma_stored_edges_fail(searcher, docs, i, n - 1);
    }
}

/// Fetches the stored edges at the addresses, segment by segment. Fails
/// where one of them cannot be had.
pub fn fetch_edges(searcher: &Searcher, doc_ids: Vec<DocAddress>) -> (r: Result<Vec<Edge>, Error>)
    ensures
        match stored_edges(searcher, ranked(doc_ids@)) {
            Ok(edges) => r matches Ok(x) && edge_views(x@) == edges,
            Err(e) => r matches Err(x) && x == e,
        },
{
    let sorted = sort_ranked(doc_ids);
    let mut edges: Vec<Edge> = Vec::new();
    let mut i: usize = 0;
    proof {
        assert(edge_views(edges@) =~= Seq::<EdgeView>::empty());
    }
    while i < sorted.len()
        invariant
            i <= sorted.len(),
            sorted@ == ranked(doc_ids@),
            stored_edges(searcher, sorted@.take(i as int)) == Ok::<Seq<EdgeView>, Error>(
                edge_views(edges@),
            ),
        decreases sorted.len() - i,
    {
        proof {
            assert(sorted@.take(i + 1).drop_last() =~= sorted@.take(i as int));
        }
        let ghost before = edge_views(edges@);
        match searcher.doc(sorted[i]) {
            Err(e) => {
                proof {
                    lemma_stored_edges_fail(searcher, sorted@, i as int, sorted@.len() as int);
                    assert(sorted@.take(sorted@.len() as int) =~= sorted@);
                }
                return Err(e);
            },
            Ok(edge) => {
                edges.push(edge);
                proof {
                    assert(edge_views(edges@) =~= before.push(edge@));
                }
            },
        }
        i += 1;
    }
    proof {
        assert(sorted@.take(i as int) =~= sorted@);
    }
    Ok(edges)
}

/// The links that point to a page.
#[derive(Clone, Copy, Debug)]
pub struct BacklinksQuery {
    pub node: NodeID,
    pub limit: EdgeLimit,
}

impl BacklinksQuery {
    /// The query for all such links of `node`.
    pub fn new(node: NodeID) -> (r: Self)
        ensures
            r.node == node,
            r.limit == EdgeLimit::Unlimited,
    {
        Self { node, limit: EdgeLimit::Unlimited }
    }

    /// The query with this limit.
    pub fn with_limit(self, limit: EdgeLimit) -> (r: Self)
        ensures
            r.node == self.node,
            r.limit == limit,
    {
        Self { node: self.node, limit }
    }

    /// The links that the index is scanned for.
    pub open spec fn links(&self) -> LinksQuery {
        LinksQuery {
            node: self.node,
            field: FieldEnum::ToId,
            skip_self_links: true,
            deduplication_field: None,
        }
    }

    /// The collector that runs on a shard.
    pub open spec fn local_collector(&self, searcher: &Searcher) -> TopDocsCollector {
        local_collector(self.limit, searcher, None)
    }

    /// The collector that merges the fruits of shards or replicas.
    pub open spec fn merging_collector(&self) -> TopDocsCollector {
        merging_collector(self.limit, false)
    }

    /// Builds the collector that runs on a shard: it starts at the best
    /// document, whatever the offset.
    pub fn collector(&self, searcher: &Searcher) -> (c: TopDocsCollector)
        ensures
            c == self.local_collector(searcher),
    {
        collector_for(self.limit, searcher, None)
    }

    /// Builds the collector that merges the fruits of shards or replicas:
    /// it performs the offset.
    pub fn remote_collector(&self) -> (c: TopDocsCollector)
        ensures
            c == self.merging_collector(),
    {
        remote_collector_for(self.limit, false)
    }
}

impl Query for BacklinksQuery {
    type Fruit = Vec<ScoredDoc>;

    type FruitView = Seq<ScoredDoc>;

    type IntermediateOutput = Vec<(u64, SmallEdge)>;

    type IntermediateView = Seq<(u64, SmallEdge)>;

    type Output = Vec<SmallEdge>;

    type OutputView = Seq<SmallEdge>;

    open spec fn fruit_view(fruit: &Vec<ScoredDoc>) -> Seq<ScoredDoc> {
        fruit@
    }

    open spec fn intermediate_view(output: &Vec<(u64, SmallEdge)>) -> Seq<(u64, SmallEdge)> {
        output@
    }

    open spec fn output_view(output: &Vec<SmallEdge>) -> Seq<SmallEdge> {
        output@
    }

    open spec fn scan(&self) -> IndexQueryView {
        limited(self.links(), self.limit)
    }

    open spec fn local_fruit(&self, searcher: &Searcher) -> Result<Seq<ScoredDoc>, Error> {
        self.local_collector(searcher).local_fruit(self.scan(), searcher)
    }

    open spec fn merged_fruit(&self, fruits: Seq<Seq<ScoredDoc>>) -> Seq<ScoredDoc> {
        self.merging_collector().reduction().reduce(concat_all(fruits))
    }

    open spec fn shard_fruit(&self, shard_id: ShardId, fruit: Seq<ScoredDoc>) -> Seq<ScoredDoc> {
        kept(fruit, shard_id)
    }

    /// The links between `node` and the nodes that the columns give for the
    /// fruit's addresses, taken segment by segment.
    open spec fn retrieved(&self, searcher: &Searcher, fruit: Seq<ScoredDoc>) -> Result<
        Seq<(u64, SmallEdge)>,
        Error,
    > {
        Ok(incoming(self.node, small_edges(searcher, FieldEnum::FromId, ranked(addresses_of(fruit)))))
    }

    open spec fn merged_results(results: Seq<Seq<(u64, SmallEdge)>>) -> Seq<SmallEdge> {
        merged_scored(results)
    }

    fn index_query(&self, searcher: &Searcher) -> (q: IndexQuery) {
        limited_query(LinksQuery::new(self.node, FieldEnum::ToId), self.limit)
    }

    fn search_shard(&self, searcher: &Searcher) -> (r: Result<Vec<ScoredDoc>, Error>) {
        let query = self.index_query(searcher);
        self.collector(searcher).search(&query, searcher)
    }

    fn merge_fruits(&self, fruits: Vec<Vec<ScoredDoc>>) -> (r: Vec<ScoredDoc>) {
        proof {
            assert(fruits@.map_values(|f: Vec<ScoredDoc>| Self::fruit_view(&f)) =~= views_of(fruits@));
        }
        self.remote_collector().merge_fruits(fruits)
    }

    fn copy_fruit(fruit: &Vec<ScoredDoc>) -> (r: Vec<ScoredDoc>) {
        copy_docs(fruit)
    }

    fn filter_fruit_shards(&self, shard_id: ShardId, fruit: Vec<ScoredDoc>) -> (r: Vec<ScoredDoc>) {
        filter_shard(shard_id, fruit)
    }

    fn retrieve(&self, searcher: &Searcher, fruit: Vec<ScoredDoc>) -> (r: Result<
        Vec<(u64, SmallEdge)>,
        Error,
    >) {
        let docs = addresses(&fruit);
        match fetch_small_edges(searcher, docs, FieldEnum::FromId) {
            Ok(nodes) => Ok(incoming_edges(self.node, nodes)),
            Err(e) => Err(e),
        }
    }

    fn merge_results(results: Vec<Vec<(u64, SmallEdge)>>) -> (r: Vec<SmallEdge>) {
        proof {
            assert(results@.map_values(|o: Vec<(u64, SmallEdge)>| Self::intermediate_view(&o))
                =~= views_of(results@));
        }
        merge_scored(results)
    }
}

/// The links that point to a host, one for each host that they start from.
#[derive(Clone, Copy, Debug)]
pub struct HostBacklinksQuery {
    pub node: NodeID,
    pub limit: EdgeLimit,
}

impl HostBacklinksQuery {
    /// The query for all such links of `node`.
    pub fn new(node: NodeID) -> (r: Self)
        ensures
            r.node == node,
            r.limit == EdgeLimit::Unlimited,
    {
        Self { node, limit: EdgeLimit::Unlimited }
    }

    /// The query with this limit.
    pub fn with_limit(self, limit: EdgeLimit) -> (r: Self)
        ensures
            r.node == self.node,
            r.limit == limit,
    {
        Self { node: self.node, limit }
    }

    /// The links that the index is scanned for.
    pub open spec fn links(&self) -> LinksQuery {
        LinksQuery {
            node: self.node,
            field: FieldEnum::ToHostId,
            skip_self_links: true,
            deduplication_field: Some(FieldEnum::FromHostId),
        }
    }

    /// The collector that runs on a shard.
    pub open spec fn local_collector(&self, searcher: &Searcher) -> TopDocsCollector {
        local_collector(self.limit, searcher, Some(FieldEnum::FromHostId))
    }

    /// The collector that merges the fruits of shards or replicas.
    pub open spec fn merging_collector(&self) -> TopDocsCollector {
        merging_collector(self.limit, true)
    }

    /// Builds the collector that runs on a shard: it starts at the best
    /// document, whatever the offset.
    pub fn collector(&self, searcher: &Searcher) -> (c: TopDocsCollector)
        ensures
            c == self.local_collector(searcher),
    {
        collector_for(self.limit, searcher, Some(FieldEnum::FromHostId))
    }

    /// Builds the collector that merges the fruits of shards or replicas:
    /// it performs the offset.
    pub fn remote_collector(&self) -> (c: TopDocsCollector)
        ensures
            c == self.merging_collector(),
    {
        remote_collector_for(self.limit, true)
    }
}

impl Query for HostBacklinksQuery {
    type Fruit = Vec<ScoredDoc>;

    type FruitView = Seq<ScoredDoc>;

    type IntermediateOutput = Vec<(u64, SmallEdge)>;

    type IntermediateView = Seq<(u64, SmallEdge)>;

    type Output = Vec<SmallEdge>;

    type OutputView = Seq<SmallEdge>;

    open spec fn fruit_view(fruit: &Vec<ScoredDoc>) -> Seq<ScoredDoc> {
        fruit@
    }

    open spec fn intermediate_view(output: &Vec<(u64, SmallEdge)>) -> Seq<(u64, SmallEdge)> {
        output@
    }

    open spec fn output_view(output: &Vec<SmallEdge>) -> Seq<SmallEdge> {
        output@
    }

    open spec fn scan(&self) -> IndexQueryView {
        limited(self.links(), self.limit)
    }

    open spec fn local_fruit(&self, searcher: &Searcher) -> Result<Seq<ScoredDoc>, Error> {
        self.local_collector(searcher).local_fruit(self.scan(), searcher)
    }

    open spec fn merged_fruit(&self, fruits: Seq<Seq<ScoredDoc>>) -> Seq<ScoredDoc> {
        self.merging_collector().reduction().reduce(concat_all(fruits))
    }

    open spec fn shard_fruit(&self, shard_id: ShardId, fruit: Seq<ScoredDoc>) -> Seq<ScoredDoc> {
        kept(fruit, shard_id)
    }

    /// The links between `node` and the nodes that the columns give for the
    /// fruit's addresses, taken segment by segment.
    open spec fn retrieved(&self, searcher: &Searcher, fruit: Seq<ScoredDoc>) -> Result<
        Seq<(u64, SmallEdge)>,
        Error,
    > {
        Ok(incoming(self.node, small_edges(searcher, FieldEnum::FromHostId, ranked(addresses_of(fruit)))))
    }

    open spec fn merged_results(results: Seq<Seq<(u64, SmallEdge)>>) -> Seq<SmallEdge> {
        merged_scored(results)
    }

    fn index_query(&self, searcher: &Searcher) -> (q: IndexQuery) {
        limited_query(LinksQuery::between_hosts(self.node, FieldEnum::ToHostId, FieldEnum::FromHostId), self.limit)
    }

    fn search_shard(&self, searcher: &Searcher) -> (r: Result<Vec<ScoredDoc>, Error>) {
        let query = self.index_query(searcher);
        self.collector(searcher).search(&query, searcher)
    }

    fn merge_fruits(&self, fruits: Vec<Vec<ScoredDoc>>) -> (r: Vec<ScoredDoc>) {
        proof {
            assert(fruits@.map_values(|f: Vec<ScoredDoc>| Self::fruit_view(&f)) =~= views_of(fruits@));
        }
        self.remote_collector().merge_fruits(fruits)
    }

    fn copy_fruit(fruit: &Vec<ScoredDoc>) -> (r: Vec<ScoredDoc>) {
        copy_docs(fruit)
    }

    fn filter_fruit_shards(&self, shard_id: ShardId, fruit: Vec<ScoredDoc>) -> (r: Vec<ScoredDoc>) {
        filter_shard(shard_id, fruit)
    }

    fn retrieve(&self, searcher: &Searcher, fruit: Vec<ScoredDoc>) -> (r: Result<
        Vec<(u64, SmallEdge)>,
        Error,
    >) {
        let docs = addresses(&fruit);
        match fetch_small_edges(searcher, docs, FieldEnum::FromHostId) {
            Ok(nodes) => Ok(incoming_edges(self.node, nodes)),
            Err(e) => Err(e),
        }
    }

    fn merge_results(results: Vec<Vec<(u64, SmallEdge)>>) -> (r: Vec<SmallEdge>) {
        proof {
            assert(results@.map_values(|o: Vec<(u64, SmallEdge)>| Self::intermediate_view(&o))
                =~= views_of(results@));
        }
        merge_scored(results)
    }
}

/// The stored edges that point to a page.
#[derive(Debug)]
pub struct FullBacklinksQuery {
    pub node: Node,
    pub limit: EdgeLimit,
}

impl FullBacklinksQuery {
    /// The query for all such links of `node`.
    pub fn new(node: Node) -> (r: Self)
        ensures
            r.node@ == node@,
            r.limit == EdgeLimit::Unlimited,
    {
        Self { node, limit: EdgeLimit::Unlimited }
    }

    /// The query with this limit.
    pub fn with_limit(self, limit: EdgeLimit) -> (r: Self)
        ensures
            r.node@ == self.node@,
            r.limit == limit,
    {
        Self { node: self.node, limit }
    }

    /// The identity that the index is scanned for: that of `node`.
    pub open spec fn target(&self) -> NodeID {
        NodeID(name_hash(self.node@))
    }

    /// The links that the index is scanned for.
    pub open spec fn links(&self) -> LinksQuery {
        LinksQuery {
            node: self.target(),
            field: FieldEnum::ToId,
            skip_self_links: true,
            deduplication_field: None,
        }
    }

    /// The collector that runs on a shard.
    pub open spec fn local_collector(&self, searcher: &Searcher) -> TopDocsCollector {
        local_collector(self.limit, searcher, None)
    }

    /// The collector that merges the fruits of shards or replicas.
    pub open spec fn merging_collector(&self) -> TopDocsCollector {
        merging_collector(self.limit, false)
    }

    /// Builds the collector that runs on a shard: it starts at the best
    /// document, whatever the offset.
    pub fn collector(&self, searcher: &Searcher) -> (c: TopDocsCollector)
        ensures
            c == self.local_collector(searcher),
    {
        collector_for(self.limit, searcher, None)
    }

    /// Builds the collector that merges the fruits of shards or replicas:
    /// it performs the offset.
    pub fn remote_collector(&self) -> (c: TopDocsCollector)
        ensures
            c == self.merging_collector(),
    {
        remote_collector_for(self.limit, false)
    }

    fn target_id(&self) -> (r: NodeID)
        ensures
            r == self.target(),
    {
        self.node.id()
    }
}

impl Query for FullBacklinksQuery {
    type Fruit = Vec<ScoredDoc>;

    type FruitView = Seq<ScoredDoc>;

    type IntermediateOutput = Vec<Edge>;

    type IntermediateView = Seq<EdgeView>;

    type Output = Vec<Edge>;

    type OutputView = Seq<EdgeView>;

    open spec fn fruit_view(fruit: &Vec<ScoredDoc>) -> Seq<ScoredDoc> {
        fruit@
    }

    open spec fn intermediate_view(output: &Vec<Edge>) -> Seq<EdgeView> {
        edge_views(output@)
    }

    open spec fn output_view(output: &Vec<Edge>) -> Seq<EdgeView> {
        edge_views(output@)
    }

    open spec fn scan(&self) -> IndexQueryView {
        limited(self.links(), self.limit)
    }

    open spec fn local_fruit(&self, searcher: &Searcher) -> Result<Seq<ScoredDoc>, Error> {
        self.local_collector(searcher).local_fruit(self.scan(), searcher)
    }

    open spec fn merged_fruit(&self, fruits: Seq<Seq<ScoredDoc>>) -> Seq<ScoredDoc> {
        self.merging_collector().reduction().reduce(concat_all(fruits))
    }

    open spec fn shard_fruit(&self, shard_id: ShardId, fruit: Seq<ScoredDoc>) -> Seq<ScoredDoc> {
        kept(fruit, shard_id)
    }

    /// The stored edges at the fruit's addresses, taken segment by
    /// segment.
    open spec fn retrieved(&self, searcher: &Searcher, fruit: Seq<ScoredDoc>) -> Result<
        Seq<EdgeView>,
        Error,
    > {
        match stored_edges(searcher, ranked(addresses_of(fruit))) {
            Ok(edges) => Ok(edges),
            Err(e) => Err(e),
        }
    }

    open spec fn merged_results(results: Seq<Seq<EdgeView>>) -> Seq<EdgeView> {
        merged_edges(results)
    }

    fn index_query(&self, searcher: &Searcher) -> (q: IndexQuery) {
        limited_query(LinksQuery::new(self.target_id(), FieldEnum::ToId), self.limit)
    }

    fn search_shard(&self, searcher: &Searcher) -> (r: Result<Vec<ScoredDoc>, Error>) {
        let query = self.index_query(searcher);
        self.collector(searcher).search(&query, searcher)
    }

    fn merge_fruits(&self, fruits: Vec<Vec<ScoredDoc>>) -> (r: Vec<ScoredDoc>) {
        proof {
            assert(fruits@.map_values(|f: Vec<ScoredDoc>| Self::fruit_view(&f)) =~= views_of(fruits@));
        }
        self.remote_collector().merge_fruits(fruits)
    }

    fn copy_fruit(fruit: &Vec<ScoredDoc>) -> (r: Vec<ScoredDoc>) {
        copy_docs(fruit)
    }

    fn filter_fruit_shards(&self, shard_id: ShardId, fruit: Vec<ScoredDoc>) -> (r: Vec<ScoredDoc>) {
        filter_shard(shard_id, fruit)
    }

    fn retrieve(&self, searcher: &Searcher, fruit: Vec<ScoredDoc>) -> (r: Result<Vec<Edge>, Error>) {
        let docs = addresses(&fruit);
        match fetch_edges(searcher, docs) {
            Ok(edges) => Ok(edges),
            Err(e) => Err(e),
        }
    }

    fn merge_results(results: Vec<Vec<Edge>>) -> (r: Vec<Edge>) {
        proof {
            assert(results@.map_values(|o: Vec<Edge>| Self::intermediate_view(&o))
                =~= results@.map_values(|o: Vec<Edge>| edge_views(o@)));
        }
        merge_edges(results)
    }
}

/// The stored edges that point to a host, one for each host that they start from.
#[derive(Debug)]
pub struct FullHostBacklinksQuery {
    pub node: Node,
    pub limit: EdgeLimit,
}

impl FullHostBacklinksQuery {
    /// The query for all such links of `node`.
    pub fn new(node: Node) -> (r: Self)
        ensures
            r.node@ == node@,
            r.limit == EdgeLimit::Unlimited,
    {
        Self { node, limit: EdgeLimit::Unlimited }
    }

    /// The query with this limit.
    pub fn with_limit(self, limit: EdgeLimit) -> (r: Self)
        ensures
            r.node@ == self.node@,
            r.limit == limit,
    {
        Self { node: self.node, limit }
    }

    /// The identity that the index is scanned for: that of the host of `node`.
    pub open spec fn target(&self) -> NodeID {
        NodeID(name_hash(host_of(self.node@)))
    }

    /// The links that the index is scanned for.
    pub open spec fn links(&self) -> LinksQuery {
        LinksQuery {
            node: self.target(),
            field: FieldEnum::ToHostId,
            skip_self_links: true,
            deduplication_field: Some(FieldEnum::FromHostId),
        }
    }

    /// The collector that runs on a shard.
    pub open spec fn local_collector(&self, searcher: &Searcher) -> TopDocsCollector {
        local_collector(self.limit, searcher, Some(FieldEnum::FromHostId))
    }

    /// The collector that merges the fruits of shards or replicas.
    pub open spec fn merging_collector(&self) -> TopDocsCollector {
        merging_collector(self.limit, true)
    }

    /// Builds the collector that runs on a shard: it starts at the best
    /// document, whatever the offset.
    pub fn collector(&self, searcher: &Searcher) -> (c: TopDocsCollector)
        ensures
            c == self.local_collector(searcher),
    {
        collector_for(self.limit, searcher, Some(FieldEnum::FromHostId))
    }

    /// Builds the collector that merges the fruits of shards or replicas:
    /// it performs the offset.
    pub fn remote_collector(&self) -> (c: TopDocsCollector)
        ensures
            c == self.merging_collector(),
    {
        remote_collector_for(self.limit, true)
    }

    fn target_id(&self) -> (r: NodeID)
        ensures
            r == self.target(),
    {
        self.node.clone().into_host().id()
    }
}

impl Query for FullHostBacklinksQuery {
    type Fruit = Vec<ScoredDoc>;

    type FruitView = Seq<ScoredDoc>;

    type IntermediateOutput = Vec<Edge>;

    type IntermediateView = Seq<EdgeView>;

    type Output = Vec<Edge>;

    type OutputView = Seq<EdgeView>;

    open spec fn fruit_view(fruit: &Vec<ScoredDoc>) -> Seq<ScoredDoc> {
        fruit@
    }

    open spec fn intermediate_view(output: &Vec<Edge>) -> Seq<EdgeView> {
        edge_views(output@)
    }

    open spec fn output_view(output: &Vec<Edge>) -> Seq<EdgeView> {
        edge_views(output@)
    }

    open spec fn scan(&self) -> IndexQueryView {
        limited(self.links(), self.limit)
    }

    open spec fn local_fruit(&self, searcher: &Searcher) -> Result<Seq<ScoredDoc>, Error> {
        self.local_collector(searcher).local_fruit(self.scan(), searcher)
    }

    open spec fn merged_fruit(&self, fruits: Seq<Seq<ScoredDoc>>) -> Seq<ScoredDoc> {
        self.merging_collector().reduction().reduce(concat_all(fruits))
    }

    open spec fn shard_fruit(&self, shard_id: ShardId, fruit: Seq<ScoredDoc>) -> Seq<ScoredDoc> {
        kept(fruit, shard_id)
    }

    /// The stored edges at the fruit's addresses, taken segment by
    /// segment, each between the hosts of its two ends.
    open spec fn retrieved(&self, searcher: &Searcher, fruit: Seq<ScoredDoc>) -> Result<
        Seq<EdgeView>,
        Error,
    > {
        match stored_edges(searcher, ranked(addresses_of(fruit))) {
            Ok(edges) => Ok(edges.map_values(|e: EdgeView| between_hosts(e))),
            Err(e) => Err(e),
        }
    }

    open spec fn merged_results(results: Seq<Seq<EdgeView>>) -> Seq<EdgeView> {
        merged_edges(results)
    }

    fn index_query(&self, searcher: &Searcher) -> (q: IndexQuery) {
        limited_query(LinksQuery::between_hosts(self.target_id(), FieldEnum::ToHostId, FieldEnum::FromHostId), self.limit)
    }

    fn search_shard(&self, searcher: &Searcher) -> (r: Result<Vec<ScoredDoc>, Error>) {
        let query = self.index_query(searcher);
        self.collector(searcher).search(&query, searcher)
    }

    fn merge_fruits(&self, fruits: Vec<Vec<ScoredDoc>>) -> (r: Vec<ScoredDoc>) {
        proof {
            assert(fruits@.map_values(|f: Vec<ScoredDoc>| Self::fruit_view(&f)) =~= views_of(fruits@));
        }
        self.remote_collector().merge_fruits(fruits)
    }

    fn copy_fruit(fruit: &Vec<ScoredDoc>) -> (r: Vec<ScoredDoc>) {
        copy_docs(fruit)
    }

    fn filter_fruit_shards(&self, shard_id: ShardId, fruit: Vec<ScoredDoc>) -> (r: Vec<ScoredDoc>) {
        filter_shard(shard_id, fruit)
    }

    fn retrieve(&self, searcher: &Searcher, fruit: Vec<ScoredDoc>) -> (r: Result<Vec<Edge>, Error>) {
        let docs = addresses(&fruit);
        match fetch_edges(searcher, docs) {
            Ok(edges) => Ok(host_edges(edges)),
            Err(e) => Err(e),
        }
    }

    fn merge_results(results: Vec<Vec<Edge>>) -> (r: Vec<Edge>) {
        proof {
            assert(results@.map_values(|o: Vec<Edge>| Self::intermediate_view(&o))
                =~= results@.map_values(|o: Vec<Edge>| edge_views(o@)));
        }
        merge_edges(results)
    }
}

/// The links that point to a page, each with its text.
#[derive(Clone, Copy, Debug)]
pub struct BacklinksWithLabelsQuery {
    pub node: NodeID,
    pub limit: EdgeLimit,
}

impl BacklinksWithLabelsQuery {
    /// The query for all such links of `node`.
    pub fn new(node: NodeID) -> (r: Self)
        ensures
            r.node == node,
            r.limit == EdgeLimit::Unlimited,
    {
        Self { node, limit: EdgeLimit::Unlimited }
    }

    /// The query with this limit.
    pub fn with_limit(self, limit: EdgeLimit) -> (r: Self)
        ensures
            r.node == self.node,
            r.limit == limit,
    {
        Self { node: self.node, limit }
    }

    /// The links that the index is scanned for.
    pub open spec fn links(&self) -> LinksQuery {
        LinksQuery {
            node: self.node,
            field: FieldEnum::ToId,
            skip_self_links: true,
            deduplication_field: None,
        }
    }

    /// The collector that runs on a shard.
    pub open spec fn local_collector(&self, searcher: &Searcher) -> TopDocsCollector {
        local_collector(self.limit, searcher, None)
    }

    /// The collector that merges the fruits of shards or replicas.
    pub open spec fn merging_collector(&self) -> TopDocsCollector {
        merging_collector(self.limit, false)
    }

    /// Builds the collector that runs on a shard: it starts at the best
    /// document, whatever the offset.
    pub fn collector(&self, searcher: &Searcher) -> (c: TopDocsCollector)
        ensures
            c == self.local_collector(searcher),
    {
        collector_for(self.limit, searcher, None)
    }

    /// Builds the collector that merges the fruits of shards or replicas:
    /// it performs the offset.
    pub fn remote_collector(&self) -> (c: TopDocsCollector)
        ensures
            c == self.merging_collector(),
    {
        remote_collector_for(self.limit, false)
    }
}

impl Query for BacklinksWithLabelsQuery {
    type Fruit = Vec<ScoredDoc>;

    type FruitView = Seq<ScoredDoc>;

    type IntermediateOutput = Vec<(u64, SmallEdgeWithLabel)>;

    type IntermediateView = Seq<(u64, LabelledEdgeView)>;

    type Output = Vec<SmallEdgeWithLabel>;

    type OutputView = Seq<LabelledEdgeView>;

    open spec fn fruit_view(fruit: &Vec<ScoredDoc>) -> Seq<ScoredDoc> {
        fruit@
    }

    open spec fn intermediate_view(output: &Vec<(u64, SmallEdgeWithLabel)>) -> Seq<
        (u64, LabelledEdgeView),
    > {
        labelled_views(output@)
    }

    open spec fn output_view(output: &Vec<SmallEdgeWithLabel>) -> Seq<LabelledEdgeView> {
        output@.map_values(|e: SmallEdgeWithLabel| e@)
    }

    open spec fn scan(&self) -> IndexQueryView {
        limited(self.links(), self.limit)
    }

    open spec fn local_fruit(&self, searcher: &Searcher) -> Result<Seq<ScoredDoc>, Error> {
        self.local_collector(searcher).local_fruit(self.scan(), searcher)
    }

    open spec fn merged_fruit(&self, fruits: Seq<Seq<ScoredDoc>>) -> Seq<ScoredDoc> {
        self.merging_collector().reduction().reduce(concat_all(fruits))
    }

    open spec fn shard_fruit(&self, shard_id: ShardId, fruit: Seq<ScoredDoc>) -> Seq<ScoredDoc> {
        kept(fruit, shard_id)
    }

    /// What the stored edges at the fruit's addresses, taken segment by
    /// segment, give as links with text.
    open spec fn retrieved(&self, searcher: &Searcher, fruit: Seq<ScoredDoc>) -> Result<
        Seq<(u64, LabelledEdgeView)>,
        Error,
    > {
        match stored_edges(searcher, ranked(addresses_of(fruit))) {
            Ok(edges) => Ok(edges.map_values(|e: EdgeView| labelled(e))),
            Err(e) => Err(e),
        }
    }

    open spec fn merged_results(results: Seq<Seq<(u64, LabelledEdgeView)>>) -> Seq<
        LabelledEdgeView,
    > {
        merged_scored(results)
    }

    fn index_query(&self, searcher: &Searcher) -> (q: IndexQuery) {
        limited_query(LinksQuery::new(self.node, FieldEnum::ToId), self.limit)
    }

    fn search_shard(&self, searcher: &Searcher) -> (r: Result<Vec<ScoredDoc>, Error>) {
        let query = self.index_query(searcher);
        self.collector(searcher).search(&query, searcher)
    }

    fn merge_fruits(&self, fruits: Vec<Vec<ScoredDoc>>) -> (r: Vec<ScoredDoc>) {
        proof {
            assert(fruits@.map_values(|f: Vec<ScoredDoc>| Self::fruit_view(&f)) =~= views_of(fruits@));
        }
        self.remote_collector().merge_fruits(fruits)
    }

    fn copy_fruit(fruit: &Vec<ScoredDoc>) -> (r: Vec<ScoredDoc>) {
        copy_docs(fruit)
    }

    fn filter_fruit_shards(&self, shard_id: ShardId, fruit: Vec<ScoredDoc>) -> (r: Vec<ScoredDoc>) {
        filter_shard(shard_id, fruit)
    }

    fn retrieve(&self, searcher: &Searcher, fruit: Vec<ScoredDoc>) -> (r: Result<
        Vec<(u64, SmallEdgeWithLabel)>,
        Error,
    >) {
        let docs = addresses(&fruit);
        match fetch_edges(searcher, docs) {
            Ok(edges) => Ok(labelled_edges(edges)),
            Err(e) => Err(e),
        }
    }

    fn merge_results(results: Vec<Vec<(u64, SmallEdgeWithLabel)>>) -> (r: Vec<SmallEdgeWithLabel>) {
        proof {
            assert(results@.map_values(
                |o: Vec<(u64, SmallEdgeWithLabel)>| Self::intermediate_view(&o),
            ) =~= results@.map_values(|o: Vec<(u64, SmallEdgeWithLabel)>| labelled_views(o@)));
        }
        merge_labelled(results)
    }
}

} // verus!
