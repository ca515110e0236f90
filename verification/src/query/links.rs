//! What the link queries share.

use crate::collector::top_docs::{
    HostDeduplicator, ScoredDoc, TopDocsCollector, DEDUPLICATION_BUFFER,
};
use crate::column::FieldEnum;
use crate::doc_address::{DocAddress, ShardId};
use crate::edge::{Edge, EdgeLimit, EdgeView, LabelledEdgeView, RelFlags, SmallEdge, SmallEdgeWithLabel};
use crate::node::{host_of, name_hash, NodeID};
use crate::index_query::{IndexQuery, IndexQueryView, LinksQuery};
use crate::ranking::{
    concat_all, flatten, into_values, lemma_concat_all_map, lemma_ranked_map_scored,
    lemma_ranked_scores_descend, map_scored,
    ranked, reversed, sort_ranked, values, views_of,
};
use crate::searcher::{share_columns, Searcher};
use std::marker::PhantomData;
use vstd::prelude::*;

verus! {

/// The number of matches after which the scan of a segment stops: limit,
/// offset and `DEDUPLICATION_BUFFER` together, or the largest number where
/// that is too large. No stop without a limit.
pub open spec fn cutoff(limit: EdgeLimit) -> Option<u64> {
    match limit {
        EdgeLimit::Unlimited => None,
        EdgeLimit::Limit(limit) => Some(bounded_sum(limit as int + DEDUPLICATION_BUFFER as int)),
        EdgeLimit::LimitAndOffset { limit, offset } => Some(
            bounded_sum(limit as int + offset as int + DEDUPLICATION_BUFFER as int),
        ),
    }
}

/// `n`, or the largest number where `n` is too large.
pub open spec fn bounded_sum(n: int) -> u64 {
    if n > u64::MAX {
        u64::MAX
    } else {
        n as u64
    }
}

/// The index query of a link query: the links asked for, cut off where
/// there is a limit.
pub open spec fn limited(links: LinksQuery, limit: EdgeLimit) -> IndexQueryView {
    IndexQueryView { links, must: Seq::empty(), max_docs: cutoff(limit) }
}

/// Builds the index query of a link query.
pub fn limited_query(links: LinksQuery, limit: EdgeLimit) -> (q: IndexQuery)
    ensures
        q@ == limited(links, limit),
{
    match limit {
        EdgeLimit::Unlimited => IndexQuery::new(links),
        EdgeLimit::Limit(limit) => IndexQuery::new(links).short_circuit(
            (limit as u64).saturating_add(DEDUPLICATION_BUFFER as u64),
        ),
        EdgeLimit::LimitAndOffset { limit, offset } => IndexQuery::new(links).short_circuit(
            (limit as u64).saturating_add(offset as u64).saturating_add(DEDUPLICATION_BUFFER as u64),
        ),
    }
}

/// The collector that a link query runs on a shard: it knows the shard and
/// its columns, and does not perform the offset. With a host field it keeps
/// one document for each host.
pub open spec fn local_collector(
    limit: EdgeLimit,
    searcher: &Searcher,
    host_field: Option<FieldEnum>,
) -> TopDocsCollector {
    TopDocsCollector {
        shard_id: Some(searcher.shard),
        limit: limit.limit_spec(),
        offset: limit.offset_spec(),
        perform_offset: false,
        deduplicator: match host_field {
            Some(_) => Some(HostDeduplicator),
            None => None,
        },
        host_field,
        column_fields: Some(searcher.column_fields),
        scorer: PhantomData,
    }
}

/// The collector that merges the fruits of a link query: it performs the
/// offset.
pub open spec fn merging_collector(limit: EdgeLimit, deduplicate: bool) -> TopDocsCollector {
    TopDocsCollector {
        shard_id: None,
        limit: limit.limit_spec(),
        offset: limit.offset_spec(),
        perform_offset: true,
        deduplicator: if deduplicate {
            Some(HostDeduplicator)
        } else {
            None
        },
        host_field: None,
        column_fields: None,
        scorer: PhantomData,
    }
}

/// Builds the collector that a link query runs on a shard.
pub fn collector_for(limit: EdgeLimit, searcher: &Searcher, host_field: Option<FieldEnum>) -> (c:
    TopDocsCollector)
    ensures
        c == local_collector(limit, searcher, host_field),
{
    let collector = TopDocsCollector::from(limit).with_shard_id(searcher.shard()).disable_offset();
    match host_field {
        Some(field) => collector.with_deduplicator(HostDeduplicator).with_column_fields(
            share_columns(searcher.warmed_column_fields()),
        ).with_host_field(field),
        None => collector.with_column_fields(share_columns(searcher.warmed_column_fields())),
    }
}

/// Builds the collector that merges the fruits of a link query.
pub fn remote_collector_for(limit: EdgeLimit, deduplicate: bool) -> (c: TopDocsCollector)
    ensures
        c == merging_collector(limit, deduplicate),
{
    let collector = TopDocsCollector::from(limit).enable_offset();
    if deduplicate {
        collector.with_deduplicator(HostDeduplicator)
    } else {
        collector
    }
}

/// The addresses of documents.
pub open spec fn addresses_of(docs: Seq<ScoredDoc>) -> Seq<DocAddress> {
    docs.map_values(|d: ScoredDoc| d.address)
}

/// The addresses of the documents of a fruit.
pub fn addresses(fruit: &Vec<ScoredDoc>) -> (r: Vec<DocAddress>)
    ensures
        r@ == addresses_of(fruit@),
{
    let mut out: Vec<DocAddress> = Vec::new();
    let mut i: usize = 0;
    while i < fruit.len()
        invariant
            i <= fruit.len(),
            out@ == addresses_of(fruit@.take(i as int)),
        decreases fruit.len() - i,
    {
        out.push(fruit[i].address);
        i += 1;
        proof {
            assert(out@ =~= addresses_of(fruit@.take(i as int)));
        }
    }
    proof {
        assert(fruit@.take(i as int) =~= fruit@);
    }
    out
}

/// A copy of a fruit.
pub fn copy_docs(fruit: &Vec<ScoredDoc>) -> (r: Vec<ScoredDoc>)
    ensures
        r@ == fruit@,
{
    let mut out: Vec<ScoredDoc> = Vec::new();
    let mut i: usize = 0;
    while i < fruit.len()
        invariant
            i <= fruit.len(),
            out@ == fruit@.take(i as int),
        decreases fruit.len() - i,
    {
        out.push(fruit[i]);
        i += 1;
        proof {
            assert(out@ =~= fruit@.take(i as int));
        }
    }
    proof {
        assert(fruit@.take(i as int) =~= fruit@);
    }
    out
}

/// The documents of `fruit` that lie in the shard, in their order.
pub open spec fn kept(fruit: Seq<ScoredDoc>, shard_id: ShardId) -> Seq<ScoredDoc>
    decreases fruit.len(),
{
    if fruit.len() == 0 {
        Seq::empty()
    } else if fruit.last().address.shard_id == shard_id {
        kept(fruit.drop_last(), shard_id).push(fruit.last())
    } else {
        kept(fruit.drop_last(), shard_id)
    }
}

/// Drops from a fruit the documents that do not lie in the shard.
pub fn filter_shard(shard_id: ShardId, fruit: Vec<ScoredDoc>) -> (r: Vec<ScoredDoc>)
    ensures
        r@ == kept(fruit@, shard_id),
{
    let mut out: Vec<ScoredDoc> = Vec::new();
    let mut i: usize = 0;
    while i < fruit.len()
        invariant
            i <= fruit.len(),
            out@ == kept(fruit@.take(i as int), shard_id),
        decreases fruit.len() - i,
    {
        proof {
            assert(fruit@.take(i + 1).drop_last() =~= fruit@.take(i as int));
        }
        if fruit[i].address.shard_id == shard_id {
            out.push(fruit[i]);
        }
        i += 1;
    }
    proof {
        assert(fruit@.take(i as int) =~= fruit@);
    }
    out
}

/// The part of a shard holds every document of the fruit that lies in the
/// shard, as often as the fruit holds it, and no other document. So the
/// parts of all shards hold each document of the fruit once for each time
/// that the fruit holds it: nothing is lost and nothing is counted twice.
pub proof fn lemma_kept_partitions(fruit: Seq<ScoredDoc>, shard_id: ShardId, doc: ScoredDoc)
    ensures
        kept(fruit, shard_id).to_multiset().count(doc) == if doc.address.shard_id == shard_id {
            fruit.to_multiset().count(doc)
        } else {
            0
        },
    decreases fruit.len(),
{
    broadcast use vstd::seq_lib::group_to_multiset_ensures;

    if fruit.len() == 0 {
    } else {
        let t = fruit.drop_last();
        let x = fruit.last();
        lemma_kept_partitions(t, shard_id, doc);
        assert(fruit =~= t.push(x));
        assert(fruit.to_multiset() == t.to_multiset().insert(x));
    }
}

/// The part of a shard holds the documents in the order in which the fruit
/// holds them, and each lies in the shard.
pub proof fn lemma_kept_in_shard(fruit: Seq<ScoredDoc>, shard_id: ShardId)
    ensures
        forall|i: int|
            0 <= i < kept(fruit, shard_id).len() ==> (#[trigger] kept(
                fruit,
                shard_id,
            )[i]).address.shard_id == shard_id,
        kept(fruit, shard_id).len() <= fruit.len(),
    decreases fruit.len(),
{
    if fruit.len() > 0 {
        lemma_kept_in_shard(fruit.drop_last(), shard_id);
    }
}

/// The values of all results, ranked by their scores: the larger score
/// first, and of equal scores first what was given first.
pub open spec fn merged_scored<T>(results: Seq<Seq<(u64, T)>>) -> Seq<T> {
    values(ranked(concat_all(results)))
}

/// Whatever the order in which the results of the shards are given, the
/// merged results stand in the order of their scores, the larger score
/// first, and they are the results given: each as often as it was given.
pub proof fn lemma_merged_results_ranked<T>(results: Seq<Seq<(u64, T)>>)
    ensures
        merged_scored(results) == values(ranked(concat_all(results))),
        forall|i: int, j: int|
            0 <= i < j < ranked(concat_all(results)).len() ==> (#[trigger] ranked(
                concat_all(results),
            )[i]).0 >= (#[trigger] ranked(concat_all(results))[j]).0,
        ranked(concat_all(results)).to_multiset() == concat_all(results).to_multiset(),
        merged_scored(results).len() == concat_all(results).len(),
{
    lemma_ranked_scores_descend(concat_all(results));
    crate::ranking::lemma_ranked(concat_all(results));
}

/// Merges the scored results of the shards.
pub fn merge_scored<T>(results: Vec<Vec<(u64, T)>>) -> (r: Vec<T>)
    ensures
        r@ == merged_scored(views_of(results@)),
{
    into_values(sort_ranked(flatten(results)))
}

/// The links from each of the nodes read to `node`, each with its score.
pub open spec fn incoming(node: NodeID, read: Seq<(NodeID, RelFlags, u64)>) -> Seq<(u64, SmallEdge)> {
    read.map_values(
        |v: (NodeID, RelFlags, u64)| (v.2, SmallEdge { from: v.0, to: node, rel_flags: v.1 }),
    )
}

/// The links from `node` to each of the nodes read, each with its score.
pub open spec fn outgoing(node: NodeID, read: Seq<(NodeID, RelFlags, u64)>) -> Seq<(u64, SmallEdge)> {
    read.map_values(
        |v: (NodeID, RelFlags, u64)| (v.2, SmallEdge { from: node, to: v.0, rel_flags: v.1 }),
    )
}

/// Makes of what was read the links to `node`.
pub fn incoming_edges(node: NodeID, read: Vec<(NodeID, RelFlags, u64)>) -> (r: Vec<(u64, SmallEdge)>)
    ensures
        r@ == incoming(node, read@),
{
    let mut out: Vec<(u64, SmallEdge)> = Vec::new();
    let mut i: usize = 0;
    while i < read.len()
        invariant
            i <= read.len(),
            out@ == incoming(node, read@.take(i as int)),
        decreases read.len() - i,
    {
        let v = read[i];
        out.push((v.2, SmallEdge { from: v.0, to: node, rel_flags: v.1 }));
        i += 1;
        proof {
            assert(out@ =~= incoming(node, read@.take(i as int)));
        }
    }
    proof {
        assert(read@.take(i as int) =~= read@);
    }
    out
}

/// Makes of what was read the links from `node`.
pub fn outgoing_edges(node: NodeID, read: Vec<(NodeID, RelFlags, u64)>) -> (r: Vec<(u64, SmallEdge)>)
    ensures
        r@ == outgoing(node, read@),
{
    let mut out: Vec<(u64, SmallEdge)> = Vec::new();
    let mut i: usize = 0;
    while i < read.len()
        invariant
            i <= read.len(),
            out@ == outgoing(node, read@.take(i as int)),
        decreases read.len() - i,
    {
        let v = read[i];
        out.push((v.2, SmallEdge { from: node, to: v.0, rel_flags: v.1 }));
        i += 1;
        proof {
            assert(out@ =~= outgoing(node, read@.take(i as int)));
        }
    }
    proof {
        assert(read@.take(i as int) =~= read@);
    }
    out
}

/// What edges hold.
pub open spec fn edge_views(edges: Seq<Edge>) -> Seq<EdgeView> {
    edges.map_values(|e: Edge| e@)
}

/// An edge between the hosts of the two ends of `edge`.
pub open spec fn between_hosts(edge: EdgeView) -> EdgeView {
    EdgeView { from: host_of(edge.from), to: host_of(edge.to), ..edge }
}

/// Replaces the two ends of each edge by their hosts.
pub fn host_edges(edges: Vec<Edge>) -> (r: Vec<Edge>)
    ensures
        edge_views(r@) == edge_views(edges@).map_values(|e: EdgeView| between_hosts(e)),
{
    let ghost given = edge_views(edges@);
    let n = edges.len();
    let mut rest = reversed(edges);
    let mut out: Vec<Edge> = Vec::new();
    proof {
        assert(edge_views(out@) =~= given.take(0).map_values(|e: EdgeView| between_hosts(e)));
    }
    while rest.len() > 0
        invariant
            rest.len() <= n,
            n == given.len(),
            forall|k: int| 0 <= k < rest.len() ==> (#[trigger] rest@[k])@ == given[n - 1 - k],
            edge_views(out@) == given.take(n - rest.len()).map_values(
                |e: EdgeView| between_hosts(e),
            ),
        decreases rest.len(),
    {
        let ghost i = n - rest.len();
        let ghost before = edge_views(out@);
        let e = rest.pop().unwrap();
        let edge = Edge {
            from: e.from.into_host(),
            to: e.to.into_host(),
            rel_flags: e.rel_flags,
            label: e.label,
            sort_score: e.sort_score,
        };
        out.push(edge);
        proof {
            assert(edge@ == between_hosts(given[i]));
            assert(edge_views(out@) =~= before.push(edge@));
            assert(given.take(i + 1).map_values(|e: EdgeView| between_hosts(e)) =~= before.push(
                between_hosts(given[i]),
            ));
        }
    }
    proof {
        assert(given.take(n as int) =~= given);
    }
    out
}

/// What a stored edge gives where the ends of a link are named by their
/// identities: the link with its text, and its score.
pub open spec fn labelled(edge: EdgeView) -> (u64, LabelledEdgeView) {
    (
        edge.sort_score,
        LabelledEdgeView {
            from: NodeID(name_hash(edge.from)),
            to: NodeID(name_hash(edge.to)),
            rel_flags: edge.rel_flags,
            label: edge.label,
        },
    )
}

/// What scored links with text hold.
pub open spec fn labelled_views(edges: Seq<(u64, SmallEdgeWithLabel)>) -> Seq<(u64, LabelledEdgeView)> {
    map_scored(edges, |e: SmallEdgeWithLabel| e@)
}

/// Makes of stored edges links with text, each with its score.
pub fn labelled_edges(edges: Vec<Edge>) -> (r: Vec<(u64, SmallEdgeWithLabel)>)
    ensures
        labelled_views(r@) == edge_views(edges@).map_values(|e: EdgeView| labelled(e)),
{
    let ghost given = edge_views(edges@);
    let n = edges.len();
    let mut rest = reversed(edges);
    let mut out: Vec<(u64, SmallEdgeWithLabel)> = Vec::new();
    proof {
        assert(labelled_views(out@) =~= given.take(0).map_values(|e: EdgeView| labelled(e)));
    }
    while rest.len() > 0
        invariant
            rest.len() <= n,
            n == given.len(),
            forall|k: int| 0 <= k < rest.len() ==> (#[trigger] rest@[k])@ == given[n - 1 - k],
            labelled_views(out@) == given.take(n - rest.len()).map_values(|e: EdgeView| labelled(e)),
        decreases rest.len(),
    {
        let ghost i = n - rest.len();
        let ghost before = labelled_views(out@);
        let e = rest.pop().unwrap();
        let edge = SmallEdgeWithLabel {
            from: e.from.id(),
            to: e.to.id(),
            rel_flags: e.rel_flags,
            label: e.label,
        };
        let score = e.sort_score;
        out.push((score, edge));
        proof {
            assert((score, edge@) == labelled(given[i]));
            assert(labelled_views(out@) =~= before.push((score, edge@)));
            assert(given.take(i + 1).map_values(|e: EdgeView| labelled(e)) =~= before.push(
                labelled(given[i]),
            ));
        }
    }
    proof {
        assert(given.take(n as int) =~= given);
    }
    out
}

/// Edges with their scores.
pub open spec fn scored(edges: Seq<EdgeView>) -> Seq<(u64, EdgeView)> {
    edges.map_values(|e: EdgeView| (e.sort_score, e))
}

/// The edges of all results, ranked by their scores: the larger score
/// first, and of equal scores first what was given first.
pub open spec fn merged_edges(results: Seq<Seq<EdgeView>>) -> Seq<EdgeView> {
    values(ranked(scored(concat_all(results))))
}

/// Merges the edges of the shards.
pub fn merge_edges(results: Vec<Vec<Edge>>) -> (r: Vec<Edge>)
    ensures
        edge_views(r@) == merged_edges(results@.map_values(|o: Vec<Edge>| edge_views(o@))),
{
    let ghost parts = results@.map_values(|o: Vec<Edge>| edge_views(o@));
    let flat = flatten(results);
    proof {
        lemma_concat_all_map(views_of(results@), |e: Edge| e@);
        assert(views_of(results@).map_values(|p: Seq<Edge>| p.map_values(|e: Edge| e@)) =~= parts);
        assert(edge_views(flat@) == concat_all(parts));
    }
    let ghost given = flat@;
    let n = flat.len();
    let mut rest = reversed(flat);
    let mut pairs: Vec<(u64, Edge)> = Vec::new();
    proof {
        assert(map_scored(pairs@, |e: Edge| e@) =~= scored(edge_views(given.take(0))));
    }
    while rest.len() > 0
        invariant
            rest.len() <= n,
            n == given.len(),
            forall|k: int| 0 <= k < rest.len() ==> #[trigger] rest@[k] == given[n - 1 - k],
            map_scored(pairs@, |e: Edge| e@) == scored(edge_views(given.take(n - rest.len()))),
        decreases rest.len(),
    {
        let ghost i = n - rest.len();
        let ghost before = map_scored(pairs@, |e: Edge| e@);
        let e = rest.pop().unwrap();
        pairs.push((e.sort_score, e));
        proof {
            assert(map_scored(pairs@, |e: Edge| e@) =~= before.push((given[i].sort_score, given[i]@)));
            assert(scored(edge_views(given.take(i + 1))) =~= before.push(
                (given[i].sort_score, given[i]@),
            ));
        }
    }
    proof {
        assert(given.take(n as int) =~= given);
        lemma_ranked_map_scored(pairs@, |e: Edge| e@);
        assert(values(map_scored(ranked(pairs@), |e: Edge| e@)) =~= edge_views(
            values(ranked(pairs@)),
        ));
    }
    into_values(sort_ranked(pairs))
}

/// Merges the scored links with text of the shards.
pub fn merge_labelled(results: Vec<Vec<(u64, SmallEdgeWithLabel)>>) -> (r: Vec<SmallEdgeWithLabel>)
    ensures
        r@.map_values(|e: SmallEdgeWithLabel| e@) == merged_scored(
            results@.map_values(|o: Vec<(u64, SmallEdgeWithLabel)>| labelled_views(o@)),
        ),
{
    let ghost parts = results@.map_values(|o: Vec<(u64, SmallEdgeWithLabel)>| labelled_views(o@));
    let flat = flatten(results);
    proof {
        lemma_concat_all_map(
            views_of(results@),
            |p: (u64, SmallEdgeWithLabel)| (p.0, (|e: SmallEdgeWithLabel| e@)(p.1)),
        );
        assert(views_of(results@).map_values(
            |s: Seq<(u64, SmallEdgeWithLabel)>|
                s.map_values(
                    |p: (u64, SmallEdgeWithLabel)| (p.0, (|e: SmallEdgeWithLabel| e@)(p.1)),
                ),
        ) =~= parts);
        assert(labelled_views(flat@) =~= concat_all(views_of(results@)).map_values(
            |p: (u64, SmallEdgeWithLabel)| (p.0, (|e: SmallEdgeWithLabel| e@)(p.1)),
        ));
        lemma_ranked_map_scored(flat@, |e: SmallEdgeWithLabel| e@);
        assert(values(map_scored(ranked(flat@), |e: SmallEdgeWithLabel| e@)) =~= values(
            ranked(flat@),
        ).map_values(|e: SmallEdgeWithLabel| e@));
    }
    into_values(sort_ranked(flat))
}

} // verus!
