use std::collections::BTreeMap;

use webgraph_core::column::WarmedColumnFields;
use webgraph_core::doc_address::{SegmentId, ShardId};
use webgraph_core::edge::{Edge, RelFlags, SmallEdge};
use webgraph_core::index::index_segment;
use webgraph_core::min_queue::MinQueue;
use webgraph_core::node::{Node, NodeID};
use webgraph_core::searcher::Searcher;
use webgraph_core::shortest_path::{dijkstra_multi, shortest_distances, Links, ShortestPaths, MAX_DISTANCE};
use webgraph_core::webgraph::{Webgraph, WebgraphGranularity};

fn edge(from: &str, to: &str, score: u64) -> Edge {
    Edge { from: Node::from(from), to: Node::from(to), rel_flags: RelFlags::from(0), label: String::new(), sort_score: score }
}

fn shard(id: u64, segments: Vec<Vec<Edge>>) -> Searcher {
    let mut readers = Vec::new();
    let mut columns = Vec::new();
    for (i, edges) in segments.into_iter().enumerate() {
        let (reader, fields) = index_segment(SegmentId(i as u64), edges);
        readers.push(reader);
        columns.push(fields);
    }
    Searcher::new(ShardId::new(id), readers, WarmedColumnFields::new(columns))
}

fn distances(pairs: &[(&str, u8)]) -> BTreeMap<u128, u8> {
    pairs.iter().map(|(name, d)| (Node::from(name).id().as_u128(), *d)).collect()
}

#[test]
fn distances_along_a_chain() {
    let graph = Webgraph::new(vec![shard(0, vec![vec![edge("a", "b", 1), edge("b", "c", 1)]])]);
    let a = Node::from("a").id();
    assert_eq!(graph.raw_distances(a, WebgraphGranularity::Page), distances(&[("a", 0), ("b", 1), ("c", 2)]));
    assert_eq!(graph.raw_distances_with_max(a, 1, WebgraphGranularity::Page), distances(&[("a", 0), ("b", 1)]));
    assert_eq!(graph.raw_distances_with_max(a, 0, WebgraphGranularity::Page), distances(&[("a", 0)]));
    assert_eq!(graph.raw_distances_with_max(a, 2, WebgraphGranularity::Page), distances(&[("a", 0), ("b", 1), ("c", 2)]));
    assert_eq!(graph.raw_distances_with_max(a, 255, WebgraphGranularity::Host), distances(&[("a", 0), ("b", 1), ("c", 2)]));

    let c = Node::from("c").id();
    assert_eq!(graph.raw_distances(c, WebgraphGranularity::Page), distances(&[("c", 0)]));
    assert_eq!(graph.raw_reversed_distances(c, WebgraphGranularity::Page), distances(&[("a", 2), ("b", 1), ("c", 0)]));
    assert_eq!(graph.raw_reversed_distances_with_max(c, 1, WebgraphGranularity::Host), distances(&[("b", 1), ("c", 0)]));
}

#[test]
fn distances_in_a_graph_with_cycles_across_shards() {
    //     ┌-----┐
    //     │     │
    // ┌───A◄─┐  │
    // ▼      │  │
    // B─────►C◄-┘
    //        ▲
    //        D
    let graph = Webgraph::new(vec![
        shard(0, vec![vec![edge("A", "B", 1), edge("B", "C", 1)], vec![edge("A", "C", 1)]]),
        shard(1, vec![vec![edge("C", "A", 1), edge("D", "C", 1)]]),
    ]);
    let id = |n: &str| Node::from(n).id();
    assert_eq!(graph.raw_distances(id("D"), WebgraphGranularity::Host), distances(&[("D", 0), ("C", 1), ("A", 2), ("B", 3)]));
    assert_eq!(graph.raw_distances(id("A"), WebgraphGranularity::Page), distances(&[("A", 0), ("B", 1), ("C", 1)]));
    assert_eq!(graph.raw_reversed_distances(id("A"), WebgraphGranularity::Page), distances(&[("A", 0), ("C", 1), ("B", 2), ("D", 2)]));
    assert_eq!(graph.raw_distances(id("nowhere"), WebgraphGranularity::Page), distances(&[("nowhere", 0)]));

    let links = Links { graph: &graph, granularity: WebgraphGranularity::Page, reversed: false };
    assert_eq!(links.edges(id("A")).iter().map(|e| e.to).collect::<Vec<_>>(), vec![id("B"), id("C")]);
    let both = shortest_distances(&links, &[id("B"), id("D")], None);
    assert_eq!(both, distances(&[("B", 0), ("D", 0), ("C", 1), ("A", 2)]));
}

fn to(node: u128) -> SmallEdge {
    SmallEdge { from: NodeID::from(0), to: NodeID::from(node), rel_flags: RelFlags::from(0) }
}

#[test]
fn distances_over_edges_given_by_functions() {
    // a ring of 600 nodes, and a chord from 0 to 100
    let edges = |v: NodeID| {
        let v = v.as_u128();
        let mut out = vec![to((v + 1) % 600)];
        if v == 0 {
            out.push(to(100));
        }
        out
    };
    let found = dijkstra_multi(&[NodeID::from(0)], edges, |e: &SmallEdge| e.to, None);
    assert_eq!(found.len(), 100 + 254);
    assert_eq!(found[&0], 0);
    assert_eq!(found[&1], 1);
    assert_eq!(found[&99], 99);
    assert_eq!(found[&100], 1);
    assert_eq!(found[&101], 2);
    assert_eq!(found[&299], 200);
    // farther than the largest distance: not reached
    assert_eq!(found[&(100 + 253)], MAX_DISTANCE);
    assert!(!found.contains_key(&(100 + 254)));

    let near = dijkstra_multi(&[NodeID::from(0)], edges, |e: &SmallEdge| e.to, Some(3));
    assert_eq!(near.keys().copied().collect::<Vec<_>>(), vec![0, 1, 2, 3, 100, 101, 102]);
    assert_eq!(near[&102], 3);

    let several = dijkstra_multi(&[NodeID::from(10), NodeID::from(20), NodeID::from(10)], edges, |e: &SmallEdge| e.to, Some(12));
    assert_eq!(several[&10], 0);
    assert_eq!(several[&20], 0);
    assert_eq!(several[&19], 9);
    assert_eq!(several[&22], 2);
    assert_eq!(several[&32], 12);
    assert!(!several.contains_key(&33));
    assert!(!several.contains_key(&9));

    let none = dijkstra_multi(&[], edges, |e: &SmallEdge| e.to, None);
    assert!(none.is_empty());
    let back = dijkstra_multi(&[NodeID::from(5)], |_| vec![to(4), to(4), to(5)], |e: &SmallEdge| e.to, None);
    assert_eq!(back.into_iter().collect::<Vec<_>>(), vec![(4, 1), (5, 0)]);
}

#[test]
fn the_queue_hands_out_the_least_first() {
    let mut queue = MinQueue::new();
    assert_eq!(queue.pop(), None);
    let entries = [(3u8, 7u128), (1, 9), (3, 2), (0, 5), (1, 9), (255, 0), (0, u128::MAX), (2, 2)];
    for e in entries {
        queue.push(e);
    }
    assert_eq!(queue.len(), 8);
    let mut out = Vec::new();
    while let Some(e) = queue.pop() {
        out.push(e);
    }
    let mut sorted = entries.to_vec();
    sorted.sort();
    assert_eq!(out, sorted);
    assert_eq!(queue.len(), 0);

    let mut queue = MinQueue::new();
    let mut expected = Vec::new();
    for k in 0..2000u128 {
        let e = (((k * 7919) % 251) as u8, (k * 104729) % 1009);
        queue.push(e);
        expected.push(e);
        if k % 3 == 0 {
            expected.sort();
            assert_eq!(queue.pop(), Some(expected.remove(0)));
        }
    }
}
