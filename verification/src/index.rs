//! Storing edges: makes of a list of edges the segment and the columns that
//! queries read. A segment holds its edges best first.

use crate::column::{Column, FieldEnum, SegmentColumnFields, TERMINATED};
use crate::doc_address::SegmentId;
use crate::document_scorer::{best_first, score_at};
use crate::edge::{Edge, EdgeView};
use crate::node::{host_of, name_hash};
use crate::query::links::edge_views;
use crate::ranking::{into_values, ranked, reversed, sort_ranked, values};
use crate::segment_reader::SegmentReader;
use vstd::prelude::*;

verus! {

/// What the column of an identity field holds for an edge.
pub open spec fn id_entry(field: FieldEnum, edge: EdgeView) -> Option<u128> {
    match field {
        FieldEnum::FromId => Some(name_hash(edge.from)),
        FieldEnum::ToId => Some(name_hash(edge.to)),
        FieldEnum::FromHostId => Some(name_hash(host_of(edge.from))),
        FieldEnum::ToHostId => Some(name_hash(host_of(edge.to))),
        _ => None,
    }
}

/// The column of an identity field for these edges: for each edge, the
/// identity of the node or host at that end.
pub open spec fn id_entries(field: FieldEnum, edges: Seq<EdgeView>) -> Seq<Option<u128>> {
    edges.map_values(|e: EdgeView| id_entry(field, e))
}

/// Whether the columns hold, document for document, what the edges hold.
pub open spec fn columns_hold(columns: &SegmentColumnFields, edges: Seq<EdgeView>) -> bool {
    &&& columns.ids(FieldEnum::FromId) == Some(id_entries(FieldEnum::FromId, edges))
    &&& columns.ids(FieldEnum::ToId) == Some(id_entries(FieldEnum::ToId, edges))
    &&& columns.ids(FieldEnum::FromHostId) == Some(id_entries(FieldEnum::FromHostId, edges))
    &&& columns.ids(FieldEnum::ToHostId) == Some(id_entries(FieldEnum::ToHostId, edges))
    &&& columns.flags(FieldEnum::RelFlags) == Some(
        edges.map_values(|e: EdgeView| Some(e.rel_flags.0)),
    )
    &&& columns.scores(FieldEnum::SortScore) == Some(
        edges.map_values(|e: EdgeView| Some(e.sort_score)),
    )
}

/// The edges, each with the score that it is ranked by.
pub open spec fn with_scores(edges: Seq<Edge>) -> Seq<(u64, Edge)> {
    edges.map_values(|e: Edge| (e.sort_score, e))
}

/// The order in which a segment holds edges: the edge with the higher
/// score first, edges of one score in the order given.
pub open spec fn stored_order(edges: Seq<Edge>) -> Seq<Edge> {
    values(ranked(with_scores(edges)))
}

/// In the order in which a segment holds them, the scores of the edges do
/// not rise, and there are as many edges as were given.
pub proof fn lemma_stored_order(edges: Seq<Edge>)
    ensures
        stored_order(edges).len() == edges.len(),
        forall|i: int, j: int|
            0 <= i < j < edges.len() ==> (#[trigger] stored_order(edges)[i]).sort_score >= (
            #[trigger] stored_order(edges)[j]).sort_score,
{
    broadcast use vstd::seq_lib::group_to_multiset_ensures;

    let scored = with_scores(edges);
    let r = ranked(scored);
    crate::ranking::lemma_ranked_scores_descend(scored);
    crate::ranking::lemma_ranked(scored);
    assert forall|i: int| 0 <= i < r.len() implies (#[trigger] r[i]).0 == r[i].1.sort_score by {
        assert(r.contains(r[i]));
        assert(r.to_multiset().count(r[i]) > 0);
        assert(scored.contains(r[i]));
        let j = choose|j: int| 0 <= j < scored.len() && scored[j] == r[i];
        assert(scored[j] == (edges[j].sort_score, edges[j]));
    }
    assert forall|i: int, j: int| 0 <= i < j < edges.len() implies (#[trigger] stored_order(
        edges,
    )[i]).sort_score >= (#[trigger] stored_order(edges)[j]).sort_score by {
        assert(r[i].0 >= r[j].0);
    }
}

/// The edges, each with its score.
fn score_edges(edges: Vec<Edge>) -> (r: Vec<(u64, Edge)>)
    ensures
        r@ == with_scores(edges@),
{
    let ghost given = edges@;
    let n = edges.len();
    let mut rest = reversed(edges);
    let mut scored: Vec<(u64, Edge)> = Vec::new();
    while rest.len() > 0
        invariant
            rest.len() <= n,
            n == given.len(),
            forall|k: int| 0 <= k < rest.len() ==> #[trigger] rest@[k] == given[n - 1 - k],
            scored@ == with_scores(given.take(n - rest.len())),
        decreases rest.len(),
    {
        let ghost i = n - rest.len();
        let edge = rest.pop().unwrap();
        let score = edge.sort_score;
        scored.push((score, edge));
        proof {
            assert(with_scores(given.take(i + 1)) =~= with_scores(given.take(i)).push(
                (given[i].sort_score, given[i]),
            ));
        }
    }
    proof {
        assert(given.take(n as int) =~= given);
    }
    scored
}

/// Stores `edges` as the segment `segment_id`, best first: document `i` is
/// the edge at index `i` of `stored_order(edges)`, and every field of it
/// has a value in its column.
pub fn index_segment(segment_id: SegmentId, edges: Vec<Edge>) -> (r: (
    SegmentReader,
    SegmentColumnFields,
))
    requires
        edges.len() <= u32::MAX,
    ensures
        r.0.segment_id == segment_id,
        r.0.max_doc == edges.len(),
        r.0.store@.len() == edges.len(),
        forall|i: int|
            0 <= i < edges.len() ==> ((#[trigger] r.0.store@[i]) matches Some(e) && e@
                == stored_order(edges@)[i]@),
        r.1.segment_id == segment_id,
        columns_hold(&r.1, edge_views(stored_order(edges@))),
        edges.len() <= TERMINATED ==> best_first(&r.1, edges@.len()),
{
    let ghost unordered = edges@;
    proof {
        lemma_stored_order(unordered);
    }
    let edges = into_values(sort_ranked(score_edges(edges)));
    let (reader, columns) = store_segment(segment_id, edges);
    proof {
        let views = edge_views(stored_order(unordered));
        assert forall|a: u32, b: u32| a < b && b < unordered.len() && unordered.len()
            <= TERMINATED implies #[trigger] score_at(&columns, a) >= #[trigger] score_at(
            &columns,
            b,
        ) by {
            let scores = views.map_values(|e: EdgeView| Some(e.sort_score));
            assert(scores[a as int] == Some(stored_order(unordered)[a as int].sort_score));
            assert(scores[b as int] == Some(stored_order(unordered)[b as int].sort_score));
        }
    }
    (reader, columns)
}

/// Stores `edges` in the order given: the edge at index `i` is document
/// `i`.
fn store_segment(segment_id: SegmentId, edges: Vec<Edge>) -> (r: (
    SegmentReader,
    SegmentColumnFields,
))
    requires
        edges.len() <= u32::MAX,
    ensures
        r.0.segment_id == segment_id,
        r.0.max_doc == edges.len(),
        r.0.store@.len() == edges.len(),
        forall|i: int|
            0 <= i < edges.len() ==> ((#[trigger] r.0.store@[i]) matches Some(e) && e@ == edges@[i]@),
        r.1.segment_id == segment_id,
        columns_hold(&r.1, edge_views(edges@)),
{
    let ghost given = edge_views(edges@);
    let mut from_id: Vec<Option<u128>> = Vec::new();
    let mut to_id: Vec<Option<u128>> = Vec::new();
    let mut from_host_id: Vec<Option<u128>> = Vec::new();
    let mut to_host_id: Vec<Option<u128>> = Vec::new();
    let mut rel_flags: Vec<Option<u64>> = Vec::new();
    let mut sort_score: Vec<Option<u64>> = Vec::new();
    let mut i: usize = 0;
    while i < edges.len()
        invariant
            i <= edges.len(),
            given == edge_views(edges@),
            from_id@ == id_entries(FieldEnum::FromId, given.take(i as int)),
            to_id@ == id_entries(FieldEnum::ToId, given.take(i as int)),
            from_host_id@ == id_entries(FieldEnum::FromHostId, given.take(i as int)),
            to_host_id@ == id_entries(FieldEnum::ToHostId, given.take(i as int)),
            rel_flags@ == given.take(i as int).map_values(|e: EdgeView| Some(e.rel_flags.0)),
            sort_score@ == given.take(i as int).map_values(|e: EdgeView| Some(e.sort_score)),
        decreases edges.len() - i,
    {
        let edge = &edges[i];
        from_id.push(Some(edge.from.id().as_u128()));
        to_id.push(Some(edge.to.id().as_u128()));
        from_host_id.push(Some(edge.from.clone().into_host().id().as_u128()));
        to_host_id.push(Some(edge.to.clone().into_host().id().as_u128()));
        rel_flags.push(Some(edge.rel_flags.as_u64()));
        sort_score.push(Some(edge.sort_score));
        i += 1;
        proof {
            let t = given.take(i as int);
            assert(given[i - 1] == edges@[i - 1]@);
            assert(from_id@ =~= id_entries(FieldEnum::FromId, t));
            assert(to_id@ =~= id_entries(FieldEnum::ToId, t));
            assert(from_host_id@ =~= id_entries(FieldEnum::FromHostId, t));
            assert(to_host_id@ =~= id_entries(FieldEnum::ToHostId, t));
            assert(rel_flags@ =~= t.map_values(|e: EdgeView| Some(e.rel_flags.0)));
            assert(sort_score@ =~= t.map_values(|e: EdgeView| Some(e.sort_score)));
        }
    }
    proof {
        assert(given.take(i as int) =~= given);
    }
    let n = edges.len();
    let mut rest = reversed(edges);
    let mut store: Vec<Option<Edge>> = Vec::new();
    while rest.len() > 0
        invariant
            rest.len() <= n,
            n == given.len(),
            store.len() == n - rest.len(),
            forall|k: int| 0 <= k < rest.len() ==> (#[trigger] rest@[k])@ == given[n - 1 - k],
            forall|k: int|
                0 <= k < store.len() ==> ((#[trigger] store@[k]) matches Some(e) && e@ == given[k]),
        decreases rest.len(),
    {
        let edge = rest.pop().unwrap();
        store.push(Some(edge));
    }
    let columns = SegmentColumnFields {
        segment_id,
        from_id: Some(Column::new(from_id)),
        to_id: Some(Column::new(to_id)),
        from_host_id: Some(Column::new(from_host_id)),
        to_host_id: Some(Column::new(to_host_id)),
        rel_flags: Some(Column::new(rel_flags)),
        sort_score: Some(Column::new(sort_score)),
    };
    (SegmentReader::new(segment_id, store), columns)
}

} // verus!
