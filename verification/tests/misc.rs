use webgraph_core::ampc::{CoordReq, CoordResp, Req, Resp};
use webgraph_core::column::{Column, FieldEnum, WarmedColumnFields};
use webgraph_core::doc_address::{SegmentId, ShardId};
use webgraph_core::edge::{Edge, EdgeLimit, RelFlags, SmallEdge};
use webgraph_core::filter::{AndFilter, FilterEnum, NodeFilter, RelFlagsFilter};
use webgraph_core::inbound_similarity::{BitVec, InboundSimilarity};
use webgraph_core::index::index_segment;
use webgraph_core::index_query::{IndexQuery, LinksQuery};
use webgraph_core::node::{hash_name, Node, NodeID};
use webgraph_core::schema::{Field, FromHostId, FromId, SortScore, ToHostId, ToId};
use webgraph_core::document_scorer::ZERO_SCORE;
use webgraph_core::score::{score_bits, score_key, SIGN};
use webgraph_core::scorers::{IdentityScorer, MultiScorer, Scorer, SearchQuery};
use webgraph_core::search_server::{respond, Outcome, Reply, Request};
use webgraph_core::searcher::Searcher;
use webgraph_core::segment_component::SegmentComponent;
use webgraph_core::shortest_path::ShortestPaths;
use webgraph_core::webgraph::{Webgraph, WebgraphGranularity};

fn edge(from: &str, to: &str, score: u64) -> Edge {
    Edge { from: Node::from(from), to: Node::from(to), rel_flags: RelFlags::from(0), label: String::new(), sort_score: score }
}

fn shard(id: u64, segments: Vec<Vec<Edge>>) -> Searcher {
    let mut readers = Vec::new();
    let mut columns = Vec::new();
    for (i, edges) in segments.into_iter().enumerate() {
        let (reader, fields) = index_segment(SegmentId(i as u64), edges);
        readers.push(reader);
        columns.push(fields);
    }
    Searcher::new(ShardId::new(id), readers, WarmedColumnFields::new(columns))
}

#[test]
fn names_hash_byte_by_byte() {
    assert_eq!(hash_name(b""), 0);
    assert_eq!(hash_name(b"\x00"), 1);
    assert_eq!(hash_name(b"a"), 98);
    let factor: u128 = 0x0000_0100_0000_01b3_9d4f_0c27_5e8a_6b35;
    assert_eq!(hash_name(b"ab"), 98u128.wrapping_mul(factor).wrapping_add(99));
    assert_eq!(Node::from("ab").id(), NodeID::from(hash_name(b"ab")));
    assert_eq!(Node::from_bytes(vec![97, 98]), Node::from("ab"));
    assert_eq!(Node::from("ab").as_bytes(), b"ab");
    assert_eq!(Node::from("ab").clone(), Node::from("ab"));
    let long = "x".repeat(1000);
    assert_ne!(Node::from(&long).id(), Node::from(&long[1..]).id());
}

#[test]
fn the_host_is_what_stands_between_scheme_and_path() {
    let host = |s: &str| String::from_utf8(Node::from(s).into_host().as_bytes().to_vec()).unwrap();
    assert_eq!(host("https://example.com/a/b?c#d"), "example.com");
    assert_eq!(host("http://example.com"), "example.com");
    assert_eq!(host("example.com/path"), "example.com");
    assert_eq!(host("example.com"), "example.com");
    assert_eq!(host("ftp://a://b/c"), "a:");
    assert_eq!(host("://"), "");
    assert_eq!(host("a:/"), "a:");
    assert_eq!(host("/x"), "");
    assert_eq!(host(""), "");
    assert_eq!(host("https://bücher.de/seite"), "bücher.de");
}

#[test]
fn the_components_of_a_segment() {
    let all = SegmentComponent::iterator();
    assert_eq!(all.len(), 8);
    assert_eq!(all[0], SegmentComponent::Postings);
    assert_eq!(all[2], SegmentComponent::ColumnFields);
    assert_eq!(all[7], SegmentComponent::TempStore);
    for (i, a) in all.iter().enumerate() {
        for (j, b) in all.iter().enumerate() {
            assert_eq!(a == b, i == j);
        }
    }
}

#[test]
fn the_server_answers_failed_work_with_nothing() {
    for request in [Request::Search, Request::RetrieveWebsites, Request::SearchPrettified] {
        assert_eq!(respond(request, Outcome::Failed), Reply::Empty);
        assert_eq!(respond(request, Outcome::Bang), Reply::Content);
    }
    assert_eq!(respond(Request::Search, Outcome::Websites), Reply::Content);
    assert_eq!(respond(Request::RetrieveWebsites, Outcome::Websites), Reply::Content);
    assert_eq!(respond(Request::SearchPrettified, Outcome::Websites), Reply::Prettified);
}

struct Add(u64);

impl Scorer<u64> for Add {
    fn score(&self, webpages: &mut [u64]) {
        for w in webpages.iter_mut() {
            *w += self.0;
        }
    }

    fn set_query_info(&mut self, query: &SearchQuery) {
        self.0 = query.query.len() as u64;
    }
}

struct Double;

impl Scorer<u64> for Double {
    fn score(&self, webpages: &mut [u64]) {
        for w in webpages.iter_mut() {
            *w *= 2;
        }
    }

    fn set_query_info(&mut self, _query: &SearchQuery) {}
}

#[test]
fn scorers_score_one_after_the_other() {
    let mut pages = vec![1u64, 2, 3];
    IdentityScorer.score(&mut pages);
    assert_eq!(pages, vec![1, 2, 3]);

    let mut multi: MultiScorer<u64> = MultiScorer::new(vec![Box::new(Add(1)), Box::new(Double), Box::new(IdentityScorer)]);
    multi.score(&mut pages);
    assert_eq!(pages, vec![4, 6, 8]);
    multi.set_query_info(&SearchQuery { query: "example".to_string() });
    multi.score(&mut pages);
    assert_eq!(pages, vec![22, 26, 30]);
    let none: MultiScorer<u64> = MultiScorer::new(vec![]);
    none.score(&mut pages);
    assert_eq!(pages, vec![22, 26, 30]);
    assert_eq!(SearchQuery::default().query, "");
}

#[test]
fn messages_of_a_computation() {
    let request: Req<u8, u16, &str, u32> = Req::Coordinator(CoordReq::ScheduleJob { job: 1, mapper: 2 });
    match request.clone() {
        Req::Coordinator(CoordReq::ScheduleJob { job, mapper }) => assert_eq!((job, mapper), (1, 2)),
        _ => panic!("another request"),
    }
    let user: Req<u8, u16, &str, u32> = Req::User("ask");
    assert!(matches!(user, Req::User("ask")));
    let setup: CoordReq<u8, u16, u32> = CoordReq::Setup { dht: 7 };
    assert!(matches!(setup, CoordReq::Setup { dht: 7 }));
    assert!(matches!(CoordReq::<u8, u16, u32>::CurrentJob, CoordReq::CurrentJob));
    let response: Resp<u8, &str> = Resp::Coordinator(CoordResp::CurrentJob(Some(4)));
    assert!(matches!(response, Resp::Coordinator(CoordResp::CurrentJob(Some(4)))));
    assert!(matches!(Resp::<u8, &str>::User("done"), Resp::User("done")));
    assert!(matches!(CoordResp::<u8>::ScheduleJob(()), CoordResp::ScheduleJob(())));
    assert!(matches!(CoordResp::<u8>::Setup(()), CoordResp::Setup(())));
}

fn link(from: u128, to: u128) -> SmallEdge {
    SmallEdge { from: NodeID::from(from), to: NodeID::from(to), rel_flags: RelFlags::from(0) }
}

#[test]
fn inbound_vectors_hold_the_nodes_that_link() {
    let edges = vec![link(5, 1), link(3, 1), link(5, 2), link(9, 1), link(3, 1), link(1, 1), link(7, 2)];
    let inbound = InboundSimilarity::build(&edges);
    assert!(inbound.knows_about(NodeID::from(1)));
    assert!(inbound.knows_about(NodeID::from(2)));
    assert!(!inbound.knows_about(NodeID::from(5)));
    assert!(inbound.get(&NodeID::from(3)).is_none());
    let one = inbound.get(&NodeID::from(1)).unwrap();
    assert_eq!(one.as_slice(), &[1, 3, 5, 9]);
    assert_eq!(one.len(), 4);
    let two = inbound.get(&NodeID::from(2)).unwrap();
    assert_eq!(two.as_slice(), &[5, 7]);
    assert_eq!(one.intersection_count(two), 1);
    assert_eq!(two.intersection_count(one), 1);
    assert_eq!(one.intersection_count(one), 4);
    assert_eq!(one.intersection_count(&BitVec::empty()), 0);
    assert!(one.contains(9));
    assert!(!one.contains(7));
    let more = BitVec::empty().with(4).with(2).with(4).with(u128::MAX).with(0);
    assert_eq!(more.as_slice(), &[0, 2, 4, u128::MAX]);
    assert_eq!(more.intersection_count(&BitVec::empty().with(4).with(3).with(0)), 2);
    assert!(!InboundSimilarity::build(&Vec::new()).knows_about(NodeID::from(1)));
}

#[test]
fn distances_by_name() {
    let graph = Webgraph::new(vec![
        shard(0, vec![vec![edge("https://a.com/1", "https://b.com/1", 1)], vec![edge("https://b.com/1", "https://c.com/1", 1)]]),
        shard(1, vec![vec![edge("https://c.com/2", "https://d.com/", 1), edge("https://a.com/1", "https://a.com/2", 1)]]),
    ]);
    let named = |found: Vec<(Node, u8)>| -> Vec<(String, u8)> {
        found.into_iter().map(|(n, d)| (String::from_utf8(n.as_bytes().to_vec()).unwrap(), d)).collect()
    };
    let pages = named(graph.distances(Node::from("https://a.com/1"), WebgraphGranularity::Page));
    assert_eq!(
        pages,
        vec![("https://a.com/1".to_string(), 0), ("https://b.com/1".to_string(), 1), ("https://c.com/1".to_string(), 2)]
    );
    let hosts = named(graph.distances(Node::from("a.com"), WebgraphGranularity::Host));
    assert_eq!(
        hosts,
        vec![("a.com".to_string(), 0), ("b.com".to_string(), 1), ("c.com".to_string(), 2), ("d.com".to_string(), 3)]
    );
    let back = named(graph.reversed_distances(Node::from("c.com"), WebgraphGranularity::Host));
    assert_eq!(back, vec![("a.com".to_string(), 2), ("b.com".to_string(), 1), ("c.com".to_string(), 0)]);
    assert!(graph.distances(Node::from("nowhere"), WebgraphGranularity::Page).is_empty());
    assert_eq!(graph.nodes(WebgraphGranularity::Page).len(), 8);
    assert_eq!(graph.nodes(WebgraphGranularity::Host)[7], Node::from("a.com"));
}

#[test]
fn filters_resolve_to_clauses_and_tests() {
    assert!(AndFilter::new().column_field_filter().is_none());
    assert!(AndFilter::new().inverted_index_filter().is_none());
    let node = NodeFilter { field: FieldEnum::ToId, node: NodeID::from(5) };
    let filter = AndFilter::new()
        .and(FilterEnum::RelFlags(RelFlagsFilter { excluded: RelFlags::from(0b01) }))
        .and(FilterEnum::Node(node))
        .and(FilterEnum::RelFlags(RelFlagsFilter { excluded: RelFlags::from(0b100) }));
    assert_eq!(filter.inverted_index_filter().unwrap().query(), vec![node]);
    let columns = filter.column_field_filter().unwrap();
    assert_eq!(columns.excluded, vec![RelFlags::from(0b01), RelFlags::from(0b100)]);

    let (_, mut fields) = index_segment(SegmentId(0), vec![edge("a", "b", 1), edge("a", "c", 1), edge("a", "d", 1), edge("a", "e", 1)]);
    fields.rel_flags = Some(Column::new(vec![Some(0b110), Some(0b010), None, Some(0b011)]));
    let segment = columns.for_segment(&fields);
    assert!(segment.should_skip(0));
    assert!(!segment.should_skip(1));
    assert!(!segment.should_skip(2));
    assert!(segment.should_skip(3));
    assert!(!segment.should_skip(4));
    fields.rel_flags = None;
    assert!(!columns.for_segment(&fields).should_skip(0));
    assert!(RelFlags::from(0b110).intersects(RelFlags::from(0b100)));
    assert!(!RelFlags::from(0b110).intersects(RelFlags::from(0b001)));
    assert_eq!(RelFlags::from(6).as_u64(), 6);
}

#[test]
fn a_scan_gives_the_documents_asked_for() {
    let edges = vec![
        edge("https://a.com/1", "https://t.com/", 1),
        edge("https://t.com/1", "https://t.com/", 1),
        edge("https://a.com/2", "https://t.com/", 1),
        edge("https://b.com/1", "https://t.com/", 1),
        edge("https://b.com/1", "https://u.com/", 1),
        edge("https://c.com/1", "https://t.com/", 1),
    ];
    let (reader, fields) = index_segment(SegmentId(0), edges);
    let t = Node::from("https://t.com/").id();
    let host = Node::from("t.com").id();
    let scan = |q: IndexQuery| q.search_segment(&fields, reader.max_doc());

    assert_eq!(scan(IndexQuery::new(LinksQuery::new(t, FieldEnum::ToId))), vec![0, 2, 3, 5]);
    assert_eq!(scan(IndexQuery::new(LinksQuery::new(t, FieldEnum::ToId).skip_self_links(false))), vec![0, 1, 2, 3, 5]);
    assert_eq!(scan(IndexQuery::new(LinksQuery::between_hosts(host, FieldEnum::ToHostId, FieldEnum::FromHostId))), vec![0, 3, 5]);
    assert_eq!(
        scan(IndexQuery::new(LinksQuery::new(host, FieldEnum::ToHostId).with_deduplication_field(FieldEnum::FromHostId).skip_self_links(false))),
        vec![0, 1, 3, 5]
    );
    assert_eq!(scan(IndexQuery::new(LinksQuery::new(t, FieldEnum::ToId)).short_circuit(2)), vec![0, 2]);
    assert_eq!(scan(IndexQuery::new(LinksQuery::new(t, FieldEnum::ToId)).short_circuit(0)), Vec::<u32>::new());
    let b = NodeFilter { field: FieldEnum::FromHostId, node: Node::from("b.com").id() };
    assert_eq!(scan(IndexQuery::new(LinksQuery::new(t, FieldEnum::ToId)).with_clauses(vec![b])), vec![3]);
    assert_eq!(scan(IndexQuery::new(LinksQuery::new(t, FieldEnum::RelFlags))), Vec::<u32>::new());
    assert_eq!(IndexQuery::new(LinksQuery::new(t, FieldEnum::ToId)).search_segment(&fields, 3), vec![0, 2]);

    assert_eq!(FromId.as_enum(), FieldEnum::FromId);
    assert_eq!(ToId.as_enum(), FieldEnum::ToId);
    assert_eq!(FromHostId.as_enum(), FieldEnum::FromHostId);
    assert_eq!(ToHostId.as_enum(), FieldEnum::ToHostId);
    assert_eq!(SortScore.as_enum(), FieldEnum::SortScore);
    assert_eq!(webgraph_core::schema::RelFlags.as_enum(), FieldEnum::RelFlags);
    assert_eq!(FieldEnum::SortScore.name(), "sort_score");
    assert_eq!(EdgeLimit::LimitAndOffset { limit: 3, offset: 4 }.offset(), Some(4));
    assert_eq!(EdgeLimit::Limit(3).limit(), Some(3));
    assert_eq!(EdgeLimit::Unlimited.limit(), None);
}

fn similarity(a: &BitVec, b: &BitVec) -> f64 {
    let common = a.intersection_count(b);
    if common == 0 {
        0.0
    } else {
        common as f64 / ((a.len() as f64).sqrt() * (b.len() as f64).sqrt())
    }
}

#[test]
fn it_favors_liked_sites() {
    let names = [
        ("a.com", "b.com"),
        ("c.com", "d.com"),
        ("a.com", "e.com"),
        ("z.com", "a.com"),
        ("z.com", "b.com"),
        ("z.com", "c.com"),
        ("z.com", "d.com"),
        ("z.com", "e.com"),
    ];
    let edges: Vec<SmallEdge> = names
        .iter()
        .map(|(from, to)| SmallEdge {
            from: Node::from(from).id(),
            to: Node::from(to).id(),
            rel_flags: RelFlags::from(0),
        })
        .collect();

    let inbound = InboundSimilarity::build(&edges);

    let liked = inbound.get(&Node::from("b.com").id()).unwrap();
    let e = inbound.get(&Node::from("e.com").id()).unwrap();
    let d = inbound.get(&Node::from("d.com").id()).unwrap();

    assert!(similarity(liked, e) > similarity(liked, d));
    assert!((similarity(liked, e) - 1.0).abs() < 1e-12);
    assert!((similarity(liked, d) - 0.5).abs() < 1e-12);
}

#[test]
fn scores_stand_in_the_order_of_the_numbers() {
    assert_eq!(score_key(0.0f64.to_bits()), SIGN);
    assert_eq!(score_key(0.0f64.to_bits()), ZERO_SCORE);
    assert_eq!(score_key((-0.0f64).to_bits()), SIGN - 1);
    assert_eq!(score_key(1.0f64.to_bits()), 0xbff0_0000_0000_0000);
    assert_eq!(score_key((-1.0f64).to_bits()), 0x400f_ffff_ffff_ffff);
    assert_eq!(score_key(u64::MAX), 0);
    assert_eq!(score_bits(0), u64::MAX);
    let numbers = [
        f64::NEG_INFINITY,
        -1.0e300,
        -2.5,
        -1.0,
        -f64::MIN_POSITIVE,
        -0.0,
        0.0,
        f64::MIN_POSITIVE,
        0.5,
        1.0,
        1.0000000000000002,
        3.0e200,
        f64::INFINITY,
        f64::NAN,
    ];
    for a in numbers {
        assert_eq!(score_bits(score_key(a.to_bits())), a.to_bits());
        for b in numbers {
            assert_eq!(
                score_key(a.to_bits()).cmp(&score_key(b.to_bits())),
                a.total_cmp(&b),
                "{a} {b}"
            );
        }
    }
}
