use std::sync::Arc;

use webgraph_core::collector::top_docs::{
    deduplicate, HostDeduplicator, Reduction, ScoredDoc, TopDocsCollector, DEDUPLICATION_BUFFER,
};
use webgraph_core::column::{FieldEnum, WarmedColumnFields, TERMINATED};
use webgraph_core::doc_address::{DocAddress, SegmentId, ShardId};
use webgraph_core::document_scorer::{DefaultDocumentScorer, DocumentScorer, ZERO_SCORE};
use webgraph_core::edge::{Edge, EdgeLimit, RelFlags};
use webgraph_core::error::Error;
use webgraph_core::index::index_segment;
use webgraph_core::node::{Node, NodeID};
use webgraph_core::ranking::{merge_ranked, place_bounded, reversed, sort_ranked, Ranked};
use webgraph_core::segment_reader::SegmentReader;

fn doc(score: u64, doc_id: u32, host: Option<u128>) -> ScoredDoc {
    ScoredDoc {
        score,
        address: DocAddress { segment_ord: 0, doc_id, shard_id: ShardId::new(0) },
        host: host.map(NodeID::from),
    }
}

fn ids(docs: &[ScoredDoc]) -> Vec<u32> {
    docs.iter().map(|d| d.address.doc_id).collect()
}

#[test]
fn candidates_rank_by_score_then_by_address() {
    let a = doc(5, 1, None);
    let b = doc(5, 2, None);
    let c = doc(6, 9, None);
    assert!(c.ranks_before(&a));
    assert!(a.ranks_before(&b));
    assert!(!b.ranks_before(&a));
    assert!(!a.ranks_before(&a));
    let other_shard = ScoredDoc { address: DocAddress { segment_ord: 0, doc_id: 0, shard_id: ShardId::new(1) }, ..a };
    assert!(a.ranks_before(&other_shard));
    let other_segment = ScoredDoc { address: DocAddress { segment_ord: 1, doc_id: 0, shard_id: ShardId::new(0) }, ..a };
    assert!(b.ranks_before(&other_segment));
    assert!(a.address.is_before(&b.address));
}

#[test]
fn merged_fruits_are_ranked_and_bounded() {
    let fruits = vec![
        vec![doc(3, 0, None), doc(9, 1, None)],
        vec![],
        vec![doc(5, 2, None), doc(9, 3, None), doc(1, 4, None)],
    ];
    let all = TopDocsCollector::new().merge_fruits(fruits.clone());
    assert_eq!(ids(&all), vec![1, 3, 2, 0, 4]);
    let two = TopDocsCollector::from(EdgeLimit::Limit(2)).merge_fruits(fruits.clone());
    assert_eq!(ids(&two), vec![1, 3]);
    let page = TopDocsCollector::from(EdgeLimit::LimitAndOffset { limit: 2, offset: 1 }).merge_fruits(fruits.clone());
    assert_eq!(ids(&page), vec![3, 2]);
    let unpaged = TopDocsCollector::from(EdgeLimit::LimitAndOffset { limit: 2, offset: 1 })
        .disable_offset()
        .merge_fruits(fruits.clone());
    assert_eq!(ids(&unpaged), vec![1, 3, 2]);
    let repaged = TopDocsCollector::new().with_limit(1).with_offset(4).enable_offset().merge_fruits(fruits.clone());
    assert_eq!(ids(&repaged), vec![4]);
    let swapped = TopDocsCollector::new().merge_fruits(vec![fruits[2].clone(), fruits[0].clone()]);
    assert_eq!(swapped, all);
    assert!(TopDocsCollector::from(EdgeLimit::Limit(3)).merge_fruits(vec![]).is_empty());
    assert!(TopDocsCollector::from(EdgeLimit::Unlimited).limit.is_none());
}

#[test]
fn one_document_stays_for_each_host_and_it_is_the_best() {
    let fruit = vec![
        doc(4, 0, Some(1)),
        doc(8, 1, Some(2)),
        doc(6, 2, Some(1)),
        doc(8, 3, Some(1)),
        doc(2, 4, Some(3)),
        doc(7, 5, None),
        doc(1, 6, None),
    ];
    let collector = TopDocsCollector::new().with_deduplicator(HostDeduplicator);
    let found = collector.merge_fruits(vec![fruit.clone()]);
    assert_eq!(ids(&found), vec![1, 3, 5, 4, 6]);
    let limited = TopDocsCollector::from(EdgeLimit::Limit(2)).with_deduplicator(HostDeduplicator).merge_fruits(vec![fruit.clone()]);
    assert_eq!(ids(&limited), vec![1, 3]);
    assert_eq!(ids(&deduplicate(&fruit)), vec![0, 1, 4, 5, 6]);
    assert!(deduplicate(&Vec::new()).is_empty());
    for limit in 1..=3 {
        let found = TopDocsCollector::from(EdgeLimit::Limit(limit))
            .with_deduplicator(HostDeduplicator)
            .merge_fruits(vec![fruit[..5].to_vec()]);
        assert_eq!(found.len(), limit);
        for d in &found {
            let best = fruit.iter().filter(|c| c.host == d.host).map(|c| c.score).max().unwrap();
            assert_eq!(d.score, best);
        }
    }
}

#[test]
fn the_buffer_decides_how_many_hosts_are_left() {
    // more links of one host than the buffer holds stand before the only link of another
    let mut fruit = Vec::new();
    for k in 0..(DEDUPLICATION_BUFFER as u32 + 2) {
        fruit.push(doc(1000 - k as u64, k, Some(1)));
    }
    fruit.push(doc(1, 9999, Some(2)));
    let collector = |limit: EdgeLimit| TopDocsCollector::from(limit).with_deduplicator(HostDeduplicator);
    let all = collector(EdgeLimit::Unlimited).merge_fruits(vec![fruit.clone()]);
    assert_eq!(ids(&all), vec![0, 9999]);
    let first = collector(EdgeLimit::LimitAndOffset { limit: 1, offset: 0 }).merge_fruits(vec![fruit.clone()]);
    assert_eq!(ids(&first), vec![0]);
    let second = collector(EdgeLimit::LimitAndOffset { limit: 1, offset: 1 }).merge_fruits(vec![fruit.clone()]);
    assert!(second.is_empty());
    let wide = collector(EdgeLimit::LimitAndOffset { limit: 3, offset: 1 }).merge_fruits(vec![fruit]);
    assert_eq!(ids(&wide), vec![9999]);
}

#[test]
fn a_reduction_cuts_out_its_window() {
    let docs: Vec<ScoredDoc> = (0..6).map(|k| doc(100 - k as u64, k, None)).collect();
    let cut = |limit, offset, perform_offset| {
        ids(&Reduction { limit, offset, perform_offset, deduplicate: false }.finish(docs.clone()))
    };
    assert_eq!(cut(None, None, true), vec![0, 1, 2, 3, 4, 5]);
    assert_eq!(cut(None, Some(2), true), vec![2, 3, 4, 5]);
    assert_eq!(cut(None, Some(2), false), vec![0, 1, 2, 3, 4, 5]);
    assert_eq!(cut(Some(2), Some(3), true), vec![3, 4]);
    assert_eq!(cut(Some(2), Some(3), false), vec![0, 1, 2, 3, 4]);
    assert_eq!(cut(Some(2), Some(5), true), vec![5]);
    assert_eq!(cut(Some(2), Some(6), true), Vec::<u32>::new());
    assert_eq!(cut(Some(2), Some(60), true), Vec::<u32>::new());
    assert_eq!(cut(Some(usize::MAX), Some(usize::MAX), false), vec![0, 1, 2, 3, 4, 5]);
    assert_eq!(cut(Some(usize::MAX), Some(1), true), vec![1, 2, 3, 4, 5]);
    assert_eq!(cut(Some(0), None, true), Vec::<u32>::new());
}

fn edge(from: &str, to: &str, score: u64) -> Edge {
    Edge { from: Node::from(from), to: Node::from(to), rel_flags: RelFlags::from(0), label: String::new(), sort_score: score }
}

#[test]
fn a_segment_collector_keeps_the_best_of_what_it_collects() {
    let edges = vec![
        edge("https://a.com/1", "https://t.com/", 10),
        edge("https://b.com/1", "https://t.com/", 40),
        edge("https://a.com/2", "https://t.com/", 30),
        edge("https://c.com/1", "https://t.com/", 20),
    ];
    let (reader, fields) = index_segment(SegmentId(7), edges);
    let columns = Arc::new(WarmedColumnFields::new(vec![fields]));

    let collector = TopDocsCollector::from(EdgeLimit::Limit(2))
        .with_shard_id(ShardId::new(4))
        .disable_offset()
        .with_column_fields(columns.clone());
    let mut child = collector.for_segment(3, &reader).unwrap();
    for d in [3u32, 0, 2, 1] {
        child.collect(d);
    }
    let fruit = child.harvest();
    // the segment holds its edges best first: b.com/1, a.com/2, c.com/1, a.com/1
    assert_eq!(ids(&fruit), vec![0, 1]);
    assert_eq!(fruit[0].score, 40);
    assert_eq!(fruit[0].address, DocAddress { segment_ord: 3, doc_id: 0, shard_id: ShardId::new(4) });
    assert_eq!(fruit[0].host, None);

    let hosts = TopDocsCollector::new()
        .with_shard_id(ShardId::new(4))
        .with_deduplicator(HostDeduplicator)
        .with_column_fields(columns.clone())
        .with_host_field(FieldEnum::FromHostId);
    let mut child = hosts.for_segment(0, &reader).unwrap();
    for d in 0..4u32 {
        child.collect(d);
    }
    // a document that the segment does not have has no host, and is passed over
    child.collect(17);
    let fruit = child.harvest();
    assert_eq!(ids(&fruit), vec![0, 1, 2]);
    assert_eq!(fruit[1].host, Some(Node::from("a.com").id()));

    let plain = TopDocsCollector::new().with_shard_id(ShardId::new(4)).with_column_fields(columns.clone());
    let mut child = plain.for_segment(0, &reader).unwrap();
    child.collect(0);
    child.collect(17);
    let fruit = child.harvest();
    assert_eq!(ids(&fruit), vec![17, 0]);
    assert_eq!(fruit[0].score, ZERO_SCORE);
    let child = plain.for_segment(0, &reader).unwrap();
    assert!(child.harvest().is_empty());
}

#[test]
fn a_collector_says_what_it_lacks_for_a_segment() {
    let (reader, fields) = index_segment(SegmentId(7), vec![edge("https://a.com/1", "https://t.com/", 10)]);
    let columns = Arc::new(WarmedColumnFields::new(vec![fields]));
    let err = |c: &TopDocsCollector, r: &SegmentReader| c.for_segment(0, r).err();

    assert_eq!(err(&TopDocsCollector::new(), &reader), Some(Error::MissingColumnFields));
    let c = TopDocsCollector::new().with_column_fields(columns.clone());
    assert_eq!(err(&c, &reader), Some(Error::MissingShardId));
    let c = c.with_shard_id(ShardId::new(0));
    assert_eq!(err(&c, &reader), None);
    assert_eq!(err(&c, &SegmentReader::new(SegmentId(8), Vec::new())), Some(Error::SegmentNotWarmed));
    let c = c.with_deduplicator(HostDeduplicator);
    assert_eq!(err(&c, &reader), Some(Error::MissingHostField));
    let c = c.with_host_field(FieldEnum::RelFlags);
    assert_eq!(err(&c, &reader), Some(Error::FieldNotFound(FieldEnum::RelFlags)));
    let c = c.with_host_field(FieldEnum::ToHostId);
    assert_eq!(err(&c, &reader), None);

    let (reader, mut fields) = index_segment(SegmentId(7), vec![edge("https://a.com/1", "https://t.com/", 10)]);
    fields.sort_score = None;
    fields.to_host_id = None;
    let columns = Arc::new(WarmedColumnFields::new(vec![fields]));
    assert_eq!(
        DefaultDocumentScorer::for_segment(&reader, &columns).err(),
        Some(Error::FieldNotFound(FieldEnum::SortScore))
    );
    let c = TopDocsCollector::new().with_shard_id(ShardId::new(0)).with_column_fields(columns);
    assert_eq!(err(&c, &reader), Some(Error::FieldNotFound(FieldEnum::SortScore)));
    assert!(!Error::MissingColumnFields.message().is_empty());
}

#[test]
fn the_default_scorer_reads_the_stored_score() {
    let (reader, fields) = index_segment(
        SegmentId(1),
        vec![edge("https://a.com/1", "https://t.com/", 10), edge("https://b.com/1", "https://t.com/", 40)],
    );
    let columns = Arc::new(WarmedColumnFields::new(vec![fields]));
    let scorer = DefaultDocumentScorer::for_segment(&reader, &columns).unwrap();
    assert_eq!(scorer.score(0), 40);
    assert_eq!(scorer.score(1), 10);
    assert_eq!(scorer.score(2), ZERO_SCORE);
    assert_eq!(scorer.score(TERMINATED), ZERO_SCORE);
    let other = SegmentReader::new(SegmentId(2), Vec::new());
    assert_eq!(DefaultDocumentScorer::for_segment(&other, &columns).err(), Some(Error::SegmentNotWarmed));
    // a scorer whose place the columns do not have scores nothing
    let astray = DefaultDocumentScorer { columns: columns.clone(), position: 3 };
    assert_eq!(astray.score(0), ZERO_SCORE);

    // the collector scores with the scorer that it is given
    let collector = TopDocsCollector::from(EdgeLimit::Limit(1))
        .with_shard_id(ShardId::new(2))
        .with_column_fields(columns.clone())
        .with_scorer::<DefaultDocumentScorer>();
    assert_eq!(collector.limit, Some(1));
    assert_eq!(collector.shard_id, Some(ShardId::new(2)));
    let mut child = collector.for_segment(0, &reader).unwrap();
    child.collect(1);
    child.collect(0);
    let fruit = child.harvest();
    assert_eq!(ids(&fruit), vec![0]);
    assert_eq!(fruit[0].score, 40);
}

#[test]
fn ranking_is_stable_and_bounded_placing_keeps_the_best() {
    let pairs = vec![(3u64, 'a'), (9, 'b'), (3, 'c'), (7, 'd'), (9, 'e'), (0, 'f')];
    let sorted = sort_ranked(pairs.clone());
    assert_eq!(sorted, vec![(9, 'b'), (9, 'e'), (7, 'd'), (3, 'a'), (3, 'c'), (0, 'f')]);
    assert_eq!(sort_ranked(Vec::<(u64, char)>::new()), vec![]);
    assert_eq!(sort_ranked(vec![(1u64, 'x')]), vec![(1, 'x')]);
    assert_eq!(reversed(vec![1, 2, 3]), vec![3, 2, 1]);
    assert_eq!(
        merge_ranked(vec![(9u64, 'a'), (5, 'b'), (1, 'c')], vec![(9, 'x'), (6, 'y'), (1, 'z'), (0, 'w')]),
        vec![(9, 'a'), (9, 'x'), (6, 'y'), (5, 'b'), (1, 'c'), (1, 'z'), (0, 'w')]
    );
    for cap in 0..8usize {
        let mut best: Vec<(u64, char)> = Vec::new();
        for p in pairs.iter() {
            place_bounded(&mut best, *p, cap);
        }
        let expected: Vec<_> = sorted.iter().take(cap).cloned().collect();
        assert_eq!(best, expected);
    }
    let mut many: Vec<(u64, u32)> = (0..1000u32).map(|k| ((k as u64 * 7919) % 101, k)).collect();
    let sorted = sort_ranked(many.clone());
    many.sort_by(|a, b| b.0.cmp(&a.0));
    assert_eq!(sorted, many);
}
