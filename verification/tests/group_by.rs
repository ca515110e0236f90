use std::collections::{HashMap, HashSet};
use std::sync::Arc;

use webgraph_core::collector::group_exact::GroupExactCollector;
use webgraph_core::collector::group_sketch::GroupSketchCollector;
use webgraph_core::column::{FieldEnum, WarmedColumnFields};
use webgraph_core::doc_address::{SegmentId, ShardId};
use webgraph_core::edge::{Edge, RelFlags};
use webgraph_core::error::Error;
use webgraph_core::filter::{NodeFilter, RelFlagsFilter};
use webgraph_core::hyperloglog::HyperLogLog;
use webgraph_core::index::index_segment;
use webgraph_core::node::Node;
use webgraph_core::query::group_by::{HostGroupQuery, HostGroupSketchQuery, LinksDirection};
use webgraph_core::query::Query;
use webgraph_core::schema::{FromHostId, ToHostId};
use webgraph_core::searcher::Searcher;
use webgraph_core::segment_reader::SegmentReader;
use webgraph_core::webgraph::Webgraph;

fn edge(from: &str, to: &str, score: u64) -> Edge {
    Edge {
        from: Node::from(from),
        to: Node::from(to),
        rel_flags: RelFlags::from(0),
        label: String::new(),
        sort_score: score,
    }
}

fn shard(id: u64, segments: Vec<Vec<Edge>>) -> Searcher {
    let mut readers = Vec::new();
    let mut columns = Vec::new();
    for (i, edges) in segments.into_iter().enumerate() {
        let (reader, fields) = index_segment(SegmentId(i as u64), edges);
        readers.push(reader);
        columns.push(fields);
    }
    Searcher::new(ShardId::new(id), readers, WarmedColumnFields::new(columns))
}

//     ┌-----┐
//     │     │
// ┌───A◄─┐  │
// │      │  │
// ▼      │  │
// B─────►C◄-┘
//        ▲
//        │
//        D
fn test_edges() -> Vec<Edge> {
    vec![
        edge("A", "B", 5),
        edge("B", "C", 4),
        edge("A", "C", 3),
        edge("C", "A", 2),
        edge("D", "C", 1),
    ]
}

fn test_graph() -> Webgraph {
    Webgraph::new(vec![shard(0, vec![test_edges()])])
}

#[test]
fn test_group_sketch_query() {
    let graph = test_graph();

    let id = Node::from("C").into_host().id();
    let query = HostGroupSketchQuery::backlinks(id, ToHostId, FromHostId);
    let result = graph.search(&query).unwrap();

    assert_eq!(result.len(), 1);
    assert_eq!(result.get(&id.as_u128()).unwrap().size(), 3);
}

#[test]
fn test_group_exact_query() {
    let graph = test_graph();

    let id = Node::from("C").into_host().id();
    let query = HostGroupQuery::backlinks(id, ToHostId, FromHostId);
    let result = graph.search(&query).unwrap();

    assert_eq!(result.len(), 1);
    assert_eq!(result.get(&id.as_u128()).unwrap().len(), 3);
}

#[test]
fn group_exact_counts_what_enumeration_counts() {
    // three shards of two segments each; some links occur more than once
    let names = ["a.com", "b.com", "c.com", "d.com", "e.com", "f.com"];
    let mut all = Vec::new();
    for (i, from) in names.iter().enumerate() {
        for (j, to) in names.iter().enumerate() {
            if (i * 7 + j * 3) % 4 != 0 {
                all.push(((*from).to_string(), (*to).to_string()));
            }
        }
    }
    let mut shards = Vec::new();
    for s in 0..3u64 {
        let mut segments = vec![Vec::new(), Vec::new()];
        for (k, (from, to)) in all.iter().enumerate() {
            if k as u64 % 3 == s {
                segments[k % 2].push(edge(&format!("https://{from}/p{k}"), &format!("https://{to}/q"), k as u64));
                segments[(k + 1) % 2].push(edge(&format!("https://{from}/x"), &format!("https://{to}/y{k}"), 1));
            }
        }
        shards.push(shard(s, segments));
    }
    let graph = Webgraph::new(shards);
    for target in names.iter() {
        let id = Node::from(target).id();
        let query = HostGroupQuery::backlinks(id, ToHostId, FromHostId);
        let result = graph.search(&query).unwrap();
        let mut expected: Vec<u128> = all
            .iter()
            .filter(|(from, to)| to == target && from != target)
            .map(|(from, _)| Node::from(from).id().as_u128())
            .collect();
        expected.sort();
        expected.dedup();
        if expected.is_empty() {
            assert!(result.is_empty());
        } else {
            assert_eq!(result.len(), 1);
            let mut found: Vec<u128> = result.get(&id.as_u128()).unwrap().iter().copied().collect();
            found.sort();
            assert_eq!(found, expected);
        }
        let sketch = graph.search(&HostGroupSketchQuery::backlinks(id, ToHostId, FromHostId)).unwrap();
        assert_eq!(sketch.len(), result.len());
        if let Some(s) = sketch.get(&id.as_u128()) {
            assert_eq!(s.size(), expected.len());
        }
    }
}

#[test]
fn a_host_that_links_only_to_itself_has_no_links() {
    let graph = Webgraph::new(vec![shard(
        0,
        vec![vec![
            edge("https://self.com/a", "https://self.com/b", 3),
            edge("https://self.com/b", "https://self.com/a", 2),
        ]],
    )]);
    let id = Node::from("self.com").id();
    let back = graph.search(&HostGroupQuery::backlinks(id, ToHostId, FromHostId)).unwrap();
    assert!(back.is_empty());
    let forward = graph.search(&HostGroupQuery::forwardlinks(id, FromHostId, ToHostId)).unwrap();
    assert!(forward.is_empty());
    let sketch = graph.search(&HostGroupSketchQuery::forwardlinks(id, FromHostId, ToHostId)).unwrap();
    assert!(sketch.is_empty());

    let kept = graph
        .search(&HostGroupQuery::backlinks(id, ToHostId, FromHostId).skip_self_links(false))
        .unwrap();
    assert_eq!(kept.len(), 1);
    assert_eq!(kept.get(&id.as_u128()).unwrap().len(), 1);
}

#[test]
fn deduplicate_counts_a_pair_of_hosts_once() {
    let graph = Webgraph::new(vec![shard(
        0,
        vec![vec![
            edge("https://a.com/1", "https://c.com/", 3),
            edge("https://a.com/2", "https://c.com/", 2),
            edge("https://b.com/1", "https://c.com/", 1),
        ]],
    )]);
    let c = Node::from("c.com").id();
    // pages that link to the host c.com, counted by the page they start from
    let query = HostGroupQuery::backlinks(c, ToHostId, FieldEnum::FromId);
    let once = graph.search(&query).unwrap();
    assert_eq!(once.get(&c.as_u128()).unwrap().len(), 2);
    let all = graph
        .search(&HostGroupQuery::backlinks(c, ToHostId, FieldEnum::FromId).deduplicate(false))
        .unwrap();
    assert_eq!(all.get(&c.as_u128()).unwrap().len(), 3);
}

#[test]
fn filters_prune_the_links_that_are_counted() {
    let mut nofollow = edge("https://a.com/", "https://c.com/", 3);
    nofollow.rel_flags = RelFlags::from(0b10);
    let graph = Webgraph::new(vec![shard(
        0,
        vec![vec![nofollow, edge("https://b.com/", "https://c.com/", 2), edge("https://d.com/", "https://c.com/x", 1)]],
    )]);
    let c = Node::from("c.com").id();
    let plain = HostGroupQuery::backlinks(c, ToHostId, FromHostId);
    assert!(plain.filter_as_and().is_none());
    assert_eq!(graph.search(&plain).unwrap().get(&c.as_u128()).unwrap().len(), 3);

    let filtered = HostGroupQuery::backlinks(c, ToHostId, FromHostId)
        .filter(RelFlagsFilter { excluded: RelFlags::from(0b10) });
    assert!(filtered.filter_as_and().is_some());
    assert_eq!(graph.search(&filtered).unwrap().get(&c.as_u128()).unwrap().len(), 2);

    let to_page = HostGroupQuery::backlinks(c, ToHostId, FromHostId)
        .filter(NodeFilter { field: FieldEnum::ToId, node: Node::from("https://c.com/x").id() });
    let found = graph.search(&to_page).unwrap();
    let d = Node::from("d.com").id().as_u128();
    assert_eq!(found.get(&c.as_u128()).unwrap().iter().copied().collect::<Vec<_>>(), vec![d]);
    assert_eq!(to_page.index_query(&graph.shards[0]).must.len(), 1);
}

#[test]
fn group_collector_needs_its_columns() {
    let graph = test_graph();
    let searcher = &graph.shards[0];
    let reader = searcher.segment_reader(0);

    let bare = GroupSketchCollector::new(ToHostId, FromHostId);
    assert_eq!(bare.for_segment(0, reader).err(), Some(Error::MissingColumnFields));

    let columns = Arc::clone(searcher.warmed_column_fields());
    let wrong = GroupSketchCollector::new(FieldEnum::RelFlags, FromHostId).with_column_fields(columns.clone());
    assert_eq!(wrong.for_segment(0, reader).err(), Some(Error::FieldNotFound(FieldEnum::RelFlags)));
    let wrong = GroupExactCollector::new(ToHostId, FieldEnum::SortScore).with_column_fields(columns.clone());
    assert_eq!(wrong.for_segment(0, reader).err(), Some(Error::FieldNotFound(FieldEnum::SortScore)));

    let other = SegmentReader::new(SegmentId(99), Vec::new());
    let good = GroupSketchCollector::new(ToHostId, FromHostId).with_column_fields(columns);
    assert_eq!(good.for_segment(0, &other).err(), Some(Error::SegmentNotWarmed));
    assert!(good.for_segment(0, reader).is_ok());
}

#[test]
fn sketch_merge_does_not_depend_on_order() {
    let mut a = HyperLogLog::new();
    let mut b = HyperLogLog::new();
    let mut c = HyperLogLog::new();
    for v in 0..500u128 {
        a.add_u128(v * 3);
        b.add_u128(v * 5 + 1);
        c.add_u128(v * 7 + 2);
    }
    let mut ab = a.clone();
    ab.merge(&b);
    let mut ba = b.clone();
    ba.merge(&a);
    assert_eq!(ab, ba);
    assert_eq!(ab.size(), ba.size());

    let mut ab_c = ab.clone();
    ab_c.merge(&c);
    let mut bc = b.clone();
    bc.merge(&c);
    let mut a_bc = a.clone();
    a_bc.merge(&bc);
    assert_eq!(ab_c, a_bc);

    let mut aa = a.clone();
    aa.merge(&a);
    assert_eq!(aa, a);
    assert_eq!(aa.size(), a.size());
}

#[test]
fn sketch_estimates_the_number_of_distinct_values() {
    let empty = HyperLogLog::new();
    assert_eq!(empty.size(), 0);

    let mut one = HyperLogLog::new();
    one.add_u128(42);
    one.add_u128(42);
    assert_eq!(one.size(), 1);
    assert_ne!(one, empty);

    let mut few = HyperLogLog::new();
    for v in 0..10u128 {
        few.add_u128(v << 64 | v);
    }
    assert_eq!(few.size(), 10);

    let mut many = HyperLogLog::new();
    for v in 0..100_000u128 {
        many.add_u128(v);
    }
    let estimate = many.size();
    assert!(estimate > 95_000 && estimate < 105_000, "estimate {estimate}");
}

#[test]
fn results_merge_whatever_their_order() {
    let sketch = |values: std::ops::Range<u128>| {
        let mut s = HyperLogLog::new();
        for v in values {
            s.add_u128(v);
        }
        s
    };
    let one = || {
        let mut m = HashMap::default();
        m.insert(1u128, sketch(0..40));
        m.insert(2u128, sketch(0..10));
        m
    };
    let other = || {
        let mut m = HashMap::default();
        m.insert(2u128, sketch(5..25));
        m.insert(3u128, sketch(0..7));
        m
    };
    let ab = HostGroupSketchQuery::merge_results(vec![one(), other()]);
    let ba = HostGroupSketchQuery::merge_results(vec![other(), one()]);
    assert_eq!(ab.len(), 3);
    assert_eq!(ab, ba);
    assert_eq!(ab[&1], sketch(0..40));
    assert_eq!(ab[&2], sketch(0..25));
    assert_eq!(ab[&2].size(), 25);
    assert_eq!(ab[&3].size(), 7);
    // a result that is given twice counts once
    assert_eq!(HostGroupSketchQuery::merge_results(vec![one(), one(), one()]), one());
    assert!(HostGroupSketchQuery::merge_results(vec![]).is_empty());

    let set = |values: &[u128]| values.iter().copied().collect::<HashSet<u128, _>>();
    let one = || {
        let mut m = HashMap::default();
        m.insert(1u128, set(&[10, 11]));
        m.insert(2u128, set(&[20]));
        m
    };
    let other = || {
        let mut m = HashMap::default();
        m.insert(2u128, set(&[20, 21]));
        m.insert(3u128, set(&[30]));
        m
    };
    let ab = HostGroupQuery::merge_results(vec![one(), other()]);
    let ba = HostGroupQuery::merge_results(vec![other(), one()]);
    assert_eq!(ab, ba);
    assert_eq!(ab.len(), 3);
    assert_eq!(ab[&1], set(&[10, 11]));
    assert_eq!(ab[&2], set(&[20, 21]));
    assert_eq!(ab[&3], set(&[30]));
    assert_eq!(HostGroupQuery::merge_results(vec![one(), one()]), one());
    assert!(HostGroupQuery::merge_results(vec![]).is_empty());
}

#[test]
fn group_queries_merge_across_shards() {
    let graph = Webgraph::new(vec![
        shard(0, vec![vec![edge("A", "C", 3)], vec![edge("B", "C", 2)]]),
        shard(1, vec![vec![edge("D", "C", 1), edge("A", "C", 1)]]),
    ]);
    let id = Node::from("C").id();
    let query = HostGroupQuery::new(LinksDirection::To(id), ToHostId, FromHostId);
    let result = graph.search(&query).unwrap();
    assert_eq!(result.get(&id.as_u128()).unwrap().len(), 3);
    let sketch = graph.search(&HostGroupSketchQuery::new(LinksDirection::To(id), ToHostId, FromHostId)).unwrap();
    assert_eq!(sketch.get(&id.as_u128()).unwrap().size(), 3);
}

#[test]
fn sketch_estimates_stay_near_the_truth() {
    for n in [50u128, 100, 500, 1_000, 3_000, 6_000, 9_000, 11_000, 15_000, 30_000, 300_000] {
        let mut sketch = HyperLogLog::new();
        for v in 0..n {
            sketch.add_u128(v.wrapping_mul(0x9e37_79b9_7f4a_7c15_f39c_c060_5ced_c835) ^ (v << 77));
        }
        let estimate = sketch.size() as f64;
        let error = (estimate - n as f64).abs() / n as f64;
        assert!(error < 0.06, "{n} estimated as {estimate}");
    }
}
