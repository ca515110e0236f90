use webgraph_core::collector::top_docs::{ScoredDoc, DEDUPLICATION_BUFFER};
use webgraph_core::column::{FieldEnum, WarmedColumnFields};
use webgraph_core::doc_address::{DocAddress, SegmentId, ShardId};
use webgraph_core::edge::{Edge, EdgeLimit, RelFlags, SmallEdge};
use webgraph_core::error::Error;
use webgraph_core::index::index_segment;
use webgraph_core::node::{Node, NodeID};
use webgraph_core::query::backlink::{
    fetch_edges, fetch_small_edges, BacklinksQuery, BacklinksWithLabelsQuery, FullBacklinksQuery,
    FullHostBacklinksQuery, HostBacklinksQuery,
};
use webgraph_core::query::forwardlink::{
    ForwardlinksQuery, FullForwardlinksQuery, FullHostForwardlinksQuery, HostForwardlinksQuery,
};
use webgraph_core::query::Query;
use webgraph_core::schema::{FromId, ToId};
use webgraph_core::searcher::Searcher;
use webgraph_core::webgraph::Webgraph;

fn edge(from: &str, to: &str, score: u64) -> Edge {
    Edge {
        from: Node::from(from),
        to: Node::from(to),
        rel_flags: RelFlags::from(score % 4),
        label: format!("{from} links to {to}"),
        sort_score: score,
    }
}

fn shard(id: u64, segments: Vec<Vec<Edge>>) -> Searcher {
    let mut readers = Vec::new();
    let mut columns = Vec::new();
    for (i, edges) in segments.into_iter().enumerate() {
        let (reader, fields) = index_segment(SegmentId(10 + i as u64), edges);
        readers.push(reader);
        columns.push(fields);
    }
    Searcher::new(ShardId::new(id), readers, WarmedColumnFields::new(columns))
}

fn id(name: &str) -> NodeID {
    Node::from(name).id()
}

fn host(name: &str) -> NodeID {
    Node::from(name).into_host().id()
}

fn graph() -> Webgraph {
    Webgraph::new(vec![
        shard(
            0,
            vec![
                vec![
                    edge("https://a.com/1", "https://t.com/", 10),
                    edge("https://b.com/1", "https://t.com/", 40),
                    edge("https://a.com/2", "https://t.com/", 30),
                ],
                vec![edge("https://c.com/1", "https://t.com/", 20), edge("https://t.com/", "https://a.com/1", 7)],
            ],
        ),
        shard(
            1,
            vec![vec![
                edge("https://d.com/1", "https://t.com/", 50),
                edge("https://a.com/3", "https://t.com/other", 60),
                edge("https://t.com/", "https://b.com/1", 9),
                edge("https://t.com/x", "https://t.com/", 99),
            ]],
        ),
    ])
}

fn sources(edges: &[SmallEdge]) -> Vec<NodeID> {
    edges.iter().map(|e| e.from).collect()
}

#[test]
fn backlinks_come_best_first() {
    let graph = graph();
    let target = id("https://t.com/");
    let found = graph.search(&BacklinksQuery::new(target)).unwrap();
    assert_eq!(
        sources(&found),
        vec![
            id("https://d.com/1"),
            id("https://b.com/1"),
            id("https://a.com/2"),
            id("https://c.com/1"),
            id("https://a.com/1"),
        ]
    );
    assert!(found.iter().all(|e| e.to == target));
    assert_eq!(found[0].rel_flags, RelFlags::from(2));
}

#[test]
fn backlinks_honour_limit_and_offset() {
    let graph = graph();
    let target = id("https://t.com/");
    let all = graph.search(&BacklinksQuery::new(target)).unwrap();
    let first = graph.search(&BacklinksQuery::new(target).with_limit(EdgeLimit::Limit(2))).unwrap();
    assert_eq!(first, all[..2].to_vec());
    let second = graph
        .search(&BacklinksQuery::new(target).with_limit(EdgeLimit::LimitAndOffset { limit: 2, offset: 2 }))
        .unwrap();
    assert_eq!(second, all[2..4].to_vec());
    let third = graph
        .search(&BacklinksQuery::new(target).with_limit(EdgeLimit::LimitAndOffset { limit: 2, offset: 4 }))
        .unwrap();
    assert_eq!(third, all[4..].to_vec());
    let beyond = graph
        .search(&BacklinksQuery::new(target).with_limit(EdgeLimit::LimitAndOffset { limit: 2, offset: 9 }))
        .unwrap();
    assert!(beyond.is_empty());
    let none = graph.search(&BacklinksQuery::new(target).with_limit(EdgeLimit::Limit(0))).unwrap();
    assert!(none.is_empty());
}

#[test]
fn pages_follow_each_other_without_gap_or_overlap() {
    let mut edges = Vec::new();
    for k in 0..40u64 {
        edges.push(edge(&format!("https://s{k}.com/"), "https://t.com/", (k * 37) % 23));
    }
    let graph = Webgraph::new(vec![
        shard(0, vec![edges[..15].to_vec(), edges[15..22].to_vec()]),
        shard(1, vec![edges[22..].to_vec()]),
    ]);
    let target = id("https://t.com/");
    let all = graph.search(&BacklinksQuery::new(target)).unwrap();
    assert_eq!(all.len(), 40);
    for limit in [1usize, 3, 7] {
        let mut paged = Vec::new();
        let mut offset = 0;
        while offset < 40 {
            let page = graph
                .search(&BacklinksQuery::new(target).with_limit(EdgeLimit::LimitAndOffset { limit, offset }))
                .unwrap();
            assert!(page.len() <= limit);
            paged.extend(page);
            offset += limit;
        }
        assert_eq!(paged, all);
    }
}

#[test]
fn host_backlinks_keep_the_best_link_of_each_host() {
    let graph = graph();
    let target = host("https://t.com/");
    let found = graph.search(&HostBacklinksQuery::new(target)).unwrap();
    // a.com links three times; its best link has score 60
    assert_eq!(
        sources(&found),
        vec![host("https://a.com/"), host("https://d.com/"), host("https://b.com/"), host("https://c.com/")]
    );
    let limited = graph.search(&HostBacklinksQuery::new(target).with_limit(EdgeLimit::Limit(2))).unwrap();
    assert_eq!(limited, found[..2].to_vec());
    let page = graph
        .search(&HostBacklinksQuery::new(target).with_limit(EdgeLimit::LimitAndOffset { limit: 2, offset: 1 }))
        .unwrap();
    assert_eq!(page, found[1..3].to_vec());
}

#[test]
fn forwardlinks_lead_to_the_pages_linked() {
    let graph = graph();
    let source = id("https://t.com/");
    let found = graph.search(&ForwardlinksQuery::new(source)).unwrap();
    assert_eq!(
        found,
        vec![
            SmallEdge { from: source, to: id("https://b.com/1"), rel_flags: RelFlags::from(1) },
            SmallEdge { from: source, to: id("https://a.com/1"), rel_flags: RelFlags::from(3) },
        ]
    );
    let hosts = graph.search(&HostForwardlinksQuery::new(host("https://t.com/"))).unwrap();
    assert_eq!(hosts.iter().map(|e| e.to).collect::<Vec<_>>(), vec![host("b.com"), host("a.com")]);
    assert!(hosts.iter().all(|e| e.from == host("t.com")));
}

#[test]
fn links_within_one_host_are_left_out() {
    let graph = graph();
    // https://t.com/x links to https://t.com/ with the best score of all
    let pages = graph.search(&BacklinksQuery::new(id("https://t.com/"))).unwrap();
    assert!(!sources(&pages).contains(&id("https://t.com/x")));
    let hosts = graph.search(&HostBacklinksQuery::new(host("t.com"))).unwrap();
    assert!(!sources(&hosts).contains(&host("t.com")));

    let alone = Webgraph::new(vec![shard(
        0,
        vec![vec![edge("https://self.com/a", "https://self.com/b", 1), edge("https://self.com/b", "https://self.com/b", 2)]],
    )]);
    assert!(alone.search(&HostBacklinksQuery::new(host("self.com"))).unwrap().is_empty());
    assert!(alone.search(&HostForwardlinksQuery::new(host("self.com"))).unwrap().is_empty());
    assert!(alone.search(&BacklinksQuery::new(id("https://self.com/b"))).unwrap().is_empty());
    assert!(alone.search(&ForwardlinksQuery::new(id("https://self.com/a"))).unwrap().is_empty());
}

#[test]
fn full_queries_give_the_stored_edges() {
    let graph = graph();
    let found = graph.search(&FullBacklinksQuery::new(Node::from("https://t.com/"))).unwrap();
    assert_eq!(found.len(), 5);
    assert_eq!(found[0], edge("https://d.com/1", "https://t.com/", 50));
    assert_eq!(found[4], edge("https://a.com/1", "https://t.com/", 10));

    let limited =
        graph.search(&FullBacklinksQuery::new(Node::from("https://t.com/")).with_limit(EdgeLimit::Limit(1))).unwrap();
    assert_eq!(limited, vec![edge("https://d.com/1", "https://t.com/", 50)]);

    let forward = graph.search(&FullForwardlinksQuery::new(Node::from("https://t.com/"))).unwrap();
    assert_eq!(forward, vec![edge("https://t.com/", "https://b.com/1", 9), edge("https://t.com/", "https://a.com/1", 7)]);

    let hosts = graph.search(&FullHostBacklinksQuery::new(Node::from("https://t.com/some/page"))).unwrap();
    assert_eq!(hosts.len(), 4);
    assert_eq!(hosts[0].from, Node::from("a.com"));
    assert_eq!(hosts[0].to, Node::from("t.com"));
    assert_eq!(hosts[0].sort_score, 60);
    assert_eq!(hosts[0].label, "https://a.com/3 links to https://t.com/other");

    let hosts = graph
        .search(&FullHostForwardlinksQuery::new(Node::from("https://t.com/")).with_limit(EdgeLimit::Limit(7)))
        .unwrap();
    assert_eq!(hosts.iter().map(|e| e.to.clone()).collect::<Vec<_>>(), vec![Node::from("b.com"), Node::from("a.com")]);
}

#[test]
fn backlinks_with_labels_carry_the_text() {
    let graph = graph();
    let target = id("https://t.com/");
    let found = graph.search(&BacklinksWithLabelsQuery::new(target)).unwrap();
    assert_eq!(found.len(), 5);
    assert_eq!(found[0].from, id("https://d.com/1"));
    assert_eq!(found[0].to, target);
    assert_eq!(found[0].label, "https://d.com/1 links to https://t.com/");
    let limited =
        graph.search(&BacklinksWithLabelsQuery::new(target).with_limit(EdgeLimit::Limit(2))).unwrap();
    assert_eq!(limited, found[..2].to_vec());
}

#[test]
fn the_scan_is_cut_off_behind_limit_offset_and_buffer() {
    let graph = graph();
    let searcher = &graph.shards[0];
    let node = NodeID::from(1);
    assert_eq!(BacklinksQuery::new(node).index_query(searcher).max_docs, None);
    assert_eq!(
        BacklinksQuery::new(node).with_limit(EdgeLimit::Limit(10)).index_query(searcher).max_docs,
        Some(10 + DEDUPLICATION_BUFFER as u64)
    );
    let query = HostForwardlinksQuery::new(node)
        .with_limit(EdgeLimit::LimitAndOffset { limit: 10, offset: 5 })
        .index_query(searcher);
    assert_eq!(query.max_docs, Some(15 + DEDUPLICATION_BUFFER as u64));
    assert_eq!(query.links.field, FieldEnum::FromHostId);
    assert_eq!(query.links.deduplication_field, Some(FieldEnum::ToHostId));
    assert!(query.links.skip_self_links);
    assert_eq!(
        FullBacklinksQuery::new(Node::from("x"))
            .with_limit(EdgeLimit::Limit(usize::MAX))
            .index_query(searcher)
            .max_docs,
        Some(u64::MAX)
    );
    assert_eq!(
        BacklinksWithLabelsQuery::new(node).with_limit(EdgeLimit::Limit(3)).index_query(searcher).max_docs,
        Some(3 + DEDUPLICATION_BUFFER as u64)
    );
    assert_eq!(BacklinksWithLabelsQuery::new(node).index_query(searcher).max_docs, None);
    let full = FullHostBacklinksQuery::new(Node::from("https://t.com/page")).index_query(searcher);
    assert_eq!(full.links.node, host("t.com"));
    assert_eq!(full.links.field, FieldEnum::ToHostId);

    // a cut-off scan sees only the first matches of each segment, which are
    // the best: a segment holds its edges best first
    let mut many = Vec::new();
    for k in 0..(DEDUPLICATION_BUFFER as u64 + 10) {
        many.push(edge(&format!("https://s{k}.com/"), "https://t.com/", k));
    }
    let big = Webgraph::new(vec![shard(0, vec![many])]);
    let hits = BacklinksQuery::new(id("https://t.com/"))
        .with_limit(EdgeLimit::Limit(2))
        .index_query(&big.shards[0])
        .search_segment(&big.shards[0].column_fields.segments[0], big.shards[0].segments[0].max_doc());
    assert_eq!(hits.len(), DEDUPLICATION_BUFFER + 2);
    assert_eq!(hits[0], 0);
    let best = big.search(&BacklinksQuery::new(id("https://t.com/")).with_limit(EdgeLimit::Limit(2))).unwrap();
    let last = DEDUPLICATION_BUFFER as u64 + 9;
    assert_eq!(
        sources(&best),
        vec![id(&format!("https://s{}.com/", last)), id(&format!("https://s{}.com/", last - 1))]
    );
}

#[test]
fn of_the_links_of_a_host_the_best_is_given() {
    let links = vec![
        edge("https://a.com/1", "https://t.com/", 10),
        edge("https://a.com/2", "https://t.com/", 30),
        edge("https://b.com/1", "https://t.com/", 20),
    ];
    let graph = Webgraph::new(vec![shard(0, vec![links])]);
    let found = graph.search(&FullHostBacklinksQuery::new(Node::from("https://t.com/"))).unwrap();
    assert_eq!(found.iter().map(|e| e.sort_score).collect::<Vec<_>>(), vec![30, 20]);
    let hits = FullHostBacklinksQuery::new(Node::from("https://t.com/"))
        .index_query(&graph.shards[0])
        .search_segment(&graph.shards[0].column_fields.segments[0], 3);
    assert_eq!(hits, vec![0, 1]);
}

#[test]
fn collectors_start_at_the_best_document_on_a_shard() {
    let graph = graph();
    let searcher = &graph.shards[0];
    let query = BacklinksQuery::new(NodeID::from(1)).with_limit(EdgeLimit::LimitAndOffset { limit: 3, offset: 2 });
    let local = query.collector(searcher);
    assert!(!local.perform_offset);
    assert_eq!(local.limit, Some(3));
    assert_eq!(local.offset, Some(2));
    assert_eq!(local.shard_id, Some(ShardId::new(0)));
    assert!(local.deduplicator.is_none());
    assert!(local.column_fields.is_some());
    let remote = query.remote_collector();
    assert!(remote.perform_offset);
    assert!(remote.column_fields.is_none());
    let hosts = HostBacklinksQuery::new(NodeID::from(1)).collector(searcher);
    assert!(hosts.deduplicator.is_some());
    assert_eq!(hosts.host_field, Some(FieldEnum::FromHostId));
    assert!(HostBacklinksQuery::new(NodeID::from(1)).remote_collector().deduplicator.is_some());
    assert_eq!(HostForwardlinksQuery::new(NodeID::from(1)).collector(searcher).host_field, Some(FieldEnum::ToHostId));
}

fn doc(score: u64, shard: u64, segment_ord: u32, doc_id: u32) -> ScoredDoc {
    ScoredDoc { score, address: DocAddress { segment_ord, doc_id, shard_id: ShardId::new(shard) }, host: None }
}

#[test]
fn a_shard_keeps_only_its_own_part_of_a_fruit() {
    let fruit = vec![doc(9, 1, 0, 0), doc(8, 2, 0, 0), doc(7, 1, 0, 1), doc(6, 3, 1, 0), doc(5, 2, 0, 1), doc(9, 1, 0, 0)];
    let query = BacklinksQuery::new(NodeID::from(1));
    let first = query.filter_fruit_shards(ShardId::new(1), fruit.clone());
    assert_eq!(first, vec![doc(9, 1, 0, 0), doc(7, 1, 0, 1), doc(9, 1, 0, 0)]);
    let mut parts = Vec::new();
    for shard in [1u64, 2, 3, 4] {
        let part = HostForwardlinksQuery::new(NodeID::from(1)).filter_fruit_shards(ShardId::new(shard), fruit.clone());
        assert!(part.iter().all(|d| d.address.shard_id == ShardId::new(shard)));
        parts.extend(part);
    }
    assert_eq!(parts.len(), fruit.len());
    let key = |d: &ScoredDoc| (d.address.shard_id, d.address.segment_ord, d.address.doc_id, d.score);
    let mut a: Vec<_> = parts.iter().map(key).collect();
    let mut b: Vec<_> = fruit.iter().map(key).collect();
    a.sort();
    b.sort();
    assert_eq!(a, b);
    assert!(FullBacklinksQuery::new(Node::from("x")).filter_fruit_shards(ShardId::new(9), fruit).is_empty());
}

#[test]
fn merged_results_come_best_first_whatever_the_order_given() {
    let e = |k: u128| SmallEdge { from: NodeID::from(k), to: NodeID::from(0), rel_flags: RelFlags::from(0) };
    let a = vec![(3u64, e(1)), (9, e(2)), (1, e(3))];
    let b = vec![(7u64, e(4)), (9, e(5))];
    let c = vec![(0u64, e(6)), (u64::MAX, e(7))];
    let merged = BacklinksQuery::merge_results(vec![a.clone(), b.clone(), c.clone()]);
    assert_eq!(merged, vec![e(7), e(2), e(5), e(4), e(1), e(3), e(6)]);
    let other = ForwardlinksQuery::merge_results(vec![c, b, a]);
    // equal scores keep the order in which they were given
    assert_eq!(other, vec![e(7), e(5), e(2), e(4), e(1), e(3), e(6)]);
    assert!(HostBacklinksQuery::merge_results(vec![]).is_empty());
    assert!(HostForwardlinksQuery::merge_results(vec![vec![], vec![]]).is_empty());

    let full = FullBacklinksQuery::merge_results(vec![
        vec![edge("a", "t", 1), edge("b", "t", 5)],
        vec![edge("c", "t", 3)],
        vec![edge("d", "t", 5), edge("e", "t", 9)],
    ]);
    assert_eq!(full.iter().map(|x| x.sort_score).collect::<Vec<_>>(), vec![9, 5, 5, 3, 1]);
    assert_eq!(full[1].from, Node::from("b"));
    assert_eq!(full[2].from, Node::from("d"));
    let full = FullHostForwardlinksQuery::merge_results(vec![vec![edge("a", "t", 1)], vec![edge("b", "t", 2)]]);
    assert_eq!(full[0].from, Node::from("b"));
}

#[test]
fn columns_are_read_segment_by_segment() {
    let graph = graph();
    let searcher = &graph.shards[0];
    let a = |segment_ord: u32, doc_id: u32| DocAddress { segment_ord, doc_id, shard_id: ShardId::new(0) };
    let read = fetch_small_edges(searcher, vec![a(1, 0), a(0, 2), a(7, 0), a(1, 9), a(0, 0)], FromId).unwrap();
    assert_eq!(
        read,
        vec![
            (id("https://a.com/1"), RelFlags::from(2), 10),
            (id("https://b.com/1"), RelFlags::from(0), 40),
            (id("https://c.com/1"), RelFlags::from(0), 20),
        ]
    );
    let read = fetch_small_edges(searcher, vec![a(1, 1)], ToId).unwrap();
    assert_eq!(read, vec![(id("https://a.com/1"), RelFlags::from(3), 7)]);
    assert!(fetch_small_edges(searcher, vec![], ToId).unwrap().is_empty());

    let edges = fetch_edges(searcher, vec![a(1, 0), a(0, 1)]).unwrap();
    assert_eq!(edges, vec![edge("https://a.com/2", "https://t.com/", 30), edge("https://c.com/1", "https://t.com/", 20)]);
    assert_eq!(fetch_edges(searcher, vec![a(1, 0), a(0, 5)]).err(), Some(Error::DocumentNotFound(a(0, 5))));
    assert_eq!(fetch_edges(searcher, vec![a(3, 0)]).err(), Some(Error::DocumentNotFound(a(3, 0))));
}

#[test]
fn a_stored_edge_that_cannot_be_read_fails_the_retrieval() {
    let mut searcher = shard(0, vec![vec![edge("https://a.com/", "https://t.com/", 2), edge("https://b.com/", "https://t.com/", 1)]]);
    searcher.segments[0].store[1] = None;
    let graph = Webgraph::new(vec![searcher]);
    let bad = DocAddress { segment_ord: 0, doc_id: 1, shard_id: ShardId::new(0) };
    assert_eq!(
        graph.search(&FullBacklinksQuery::new(Node::from("https://t.com/"))).err(),
        Some(Error::CorruptDocument(bad))
    );
    assert_eq!(graph.search(&BacklinksWithLabelsQuery::new(id("https://t.com/"))).err(), Some(Error::CorruptDocument(bad)));
    // the columns are still there
    assert_eq!(graph.search(&BacklinksQuery::new(id("https://t.com/"))).unwrap().len(), 2);
    // and what lies before the limit can still be fetched
    let one = graph
        .search(&FullBacklinksQuery::new(Node::from("https://t.com/")).with_limit(EdgeLimit::Limit(1)))
        .unwrap();
    assert_eq!(one.len(), 1);
}

#[test]
fn a_shard_without_scores_fails_the_query() {
    let mut readers = Vec::new();
    let mut columns = Vec::new();
    let (reader, mut fields) = index_segment(SegmentId(0), vec![edge("https://a.com/", "https://t.com/", 2)]);
    fields.sort_score = None;
    readers.push(reader);
    columns.push(fields);
    let graph = Webgraph::new(vec![Searcher::new(ShardId::new(0), readers, WarmedColumnFields::new(columns))]);
    assert_eq!(
        graph.search(&BacklinksQuery::new(id("https://t.com/"))).err(),
        Some(Error::FieldNotFound(FieldEnum::SortScore))
    );

    let (reader, _) = index_segment(SegmentId(0), vec![edge("https://a.com/", "https://t.com/", 2)]);
    let graph = Webgraph::new(vec![Searcher::new(ShardId::new(0), vec![reader], WarmedColumnFields::new(vec![]))]);
    assert_eq!(graph.search(&BacklinksQuery::new(id("https://t.com/"))).err(), Some(Error::SegmentNotWarmed));
    assert!(Webgraph::new(vec![]).search(&BacklinksQuery::new(id("https://t.com/"))).unwrap().is_empty());
}

#[test]
fn a_document_without_a_value_is_passed_over() {
    let edges = vec![
        edge("https://a.com/", "https://t.com/", 3),
        edge("https://b.com/", "https://t.com/", 2),
        edge("https://c.com/", "https://t.com/", 1),
    ];
    let (reader, mut fields) = index_segment(SegmentId(0), edges);
    fields.from_id.as_mut().unwrap().values[0] = None;
    fields.from_host_id.as_mut().unwrap().values[1] = None;
    fields.sort_score.as_mut().unwrap().values[2] = None;
    let graph = Webgraph::new(vec![Searcher::new(ShardId::new(0), vec![reader], WarmedColumnFields::new(vec![fields]))]);
    // the first lacks the node, the third the score
    let found = graph.search(&BacklinksQuery::new(id("https://t.com/"))).unwrap();
    assert_eq!(sources(&found), vec![id("https://b.com/")]);
    // the second lacks the host
    let hosts = graph.search(&HostBacklinksQuery::new(host("t.com"))).unwrap();
    assert_eq!(sources(&hosts), vec![host("a.com")]);
}

#[test]
fn a_graph_has_one_searcher_for_each_shard() {
    assert!(graph().is_valid());
    assert!(Webgraph::new(vec![]).is_valid());
    let twice = Webgraph::new(vec![shard(3, vec![]), shard(4, vec![]), shard(3, vec![])]);
    assert!(!twice.is_valid());
    assert!(Webgraph::new(vec![shard(3, vec![]), shard(4, vec![vec![]])]).is_valid());
}
