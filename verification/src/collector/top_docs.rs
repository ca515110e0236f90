//! The best documents of a query: ranked by score, bounded in number, with
//! at most one document for each host where that is asked for.

use crate::column::{first_value, Column, FieldEnum, WarmedColumnFields};
use crate::doc_address::{DocAddress, ShardId};
use crate::document_scorer::{DefaultDocumentScorer, DocumentScorer};
use std::marker::PhantomData;
use crate::edge::EdgeLimit;
use crate::error::Error;
use crate::index_query::{IndexQuery, IndexQueryView};
use crate::node::NodeID;
use crate::ranking::{
    concat_all, lemma_place_prefix, lemma_ranked, ordered, place_bounded, prefix, ranked,
    sort_ranked, views_of, Ranked,
};
use crate::searcher::Searcher;
use crate::segment_reader::SegmentReader;
use std::collections::HashSet;
use std::sync::Arc;
use vstd::prelude::*;

verus! {

/// How many candidates a bounded collection keeps beyond those asked for,
/// so that enough of them are left once hosts have been collapsed.
pub const DEDUPLICATION_BUFFER: usize = 128;

/// A candidate: a stored edge by its address, its score, and the host that
/// it is grouped by where hosts are collapsed.
#[derive(Clone, Copy, Debug, PartialEq, Eq)]
pub struct ScoredDoc {
    pub score: u64,
    pub address: DocAddress,
    pub host: Option<NodeID>,
}

impl Ranked for ScoredDoc {
    /// The larger score first; of equal scores, the earlier address.
    open spec fn precedes(&self, other: &Self) -> bool {
        self.score > other.score || (self.score == other.score && self.address.before(
            &other.address,
        ))
    }

    fn ranks_before(&self, other: &Self) -> (b: bool) {
        self.score > other.score || (self.score == other.score && self.address.is_before(
            &other.address,
        ))
    }

    proof fn lemma_strict(a: &Self, b: &Self, c: &Self) {
    }

    proof fn lemma_tied_or_worse(a: &Self, b: &Self, c: &Self) {
    }
}

/// The hosts of the candidates in `s`.
pub open spec fn host_keys(s: Seq<ScoredDoc>) -> Set<u128> {
    Set::new(
        |h: u128| exists|j: int| 0 <= j < s.len() && (#[trigger] s[j]).host == Some(NodeID(h)),
    )
}

/// Whether `x` has a host, and a candidate in `s` has the same.
pub open spec fn key_seen(s: Seq<ScoredDoc>, x: ScoredDoc) -> bool {
    x.host matches Some(h) && host_keys(s).contains(h.0)
}

/// `s` without the candidates whose host an earlier candidate has. A
/// candidate without a host stays.
pub open spec fn deduplicated(s: Seq<ScoredDoc>) -> Seq<ScoredDoc>
    decreases s.len(),
{
    if s.len() == 0 {
        Seq::empty()
    } else if key_seen(s.drop_last(), s.last()) {
        deduplicated(s.drop_last())
    } else {
        deduplicated(s.drop_last()).push(s.last())
    }
}

/// Every candidate that is left stands in `s`, as the first of its host.
pub proof fn lemma_deduplicated_first(s: Seq<ScoredDoc>, i: int) -> (j: int)
    requires
        0 <= i < deduplicated(s).len(),
    ensures
        0 <= j < s.len(),
        deduplicated(s)[i] == s[j],
        !key_seen(s.take(j), s[j]),
    decreases s.len(),
{
    let t = s.drop_last();
    if !key_seen(t, s.last()) && i == deduplicated(t).len() {
        assert(s.take(s.len() - 1) =~= t);
        s.len() - 1
    } else {
        let j = lemma_deduplicated_first(t, i);
        assert(t.take(j) =~= s.take(j));
        j
    }
}

/// No two candidates that are left have the same host.
pub proof fn lemma_deduplicated_distinct(s: Seq<ScoredDoc>)
    ensures
        forall|i: int, j: int|
            0 <= i < j < deduplicated(s).len() ==> !((#[trigger] deduplicated(s)[i]).host is Some
                && deduplicated(s)[i].host == (#[trigger] deduplicated(s)[j]).host),
        host_keys(deduplicated(s)) == host_keys(s),
        deduplicated(s).len() <= s.len(),
    decreases s.len(),
{
    let d = deduplicated(s);
    if s.len() == 0 {
        assert(host_keys(d) =~= host_keys(s));
    } else {
        let t = s.drop_last();
        let x = s.last();
        let dt = deduplicated(t);
        lemma_deduplicated_distinct(t);
        if key_seen(t, x) {
            assert forall|h: u128| host_keys(s).contains(h) implies host_keys(t).contains(h) by {
                let j = choose|j: int| 0 <= j < s.len() && (#[trigger] s[j]).host == Some(NodeID(h));
                if j < t.len() {
                    assert(t[j].host == Some(NodeID(h)));
                }
            }
            assert forall|h: u128| host_keys(t).contains(h) implies host_keys(s).contains(h) by {
                let j = choose|j: int| 0 <= j < t.len() && (#[trigger] t[j]).host == Some(NodeID(h));
                assert(s[j].host == Some(NodeID(h)));
            }
            assert(host_keys(d) =~= host_keys(s));
        } else {
            assert forall|i: int, j: int| 0 <= i < j < d.len() implies !((#[trigger] d[i]).host is Some
                && d[i].host == (#[trigger] d[j]).host) by {
                if j == dt.len() {
                    assert(d[i] == dt[i]);
                    if d[i].host is Some && d[i].host == x.host {
                        assert(host_keys(dt).contains((x.host->0).0));
                    }
                } else {
                    assert(d[i] == dt[i] && d[j] == dt[j]);
                }
            }
            assert forall|h: u128| host_keys(s).contains(h) implies host_keys(d).contains(h) by {
                let j = choose|j: int| 0 <= j < s.len() && (#[trigger] s[j]).host == Some(NodeID(h));
                if j < t.len() {
                    assert(t[j].host == Some(NodeID(h)));
                    assert(host_keys(dt).contains(h));
                    let k = choose|k: int| 0 <= k < dt.len() && (#[trigger] dt[k]).host == Some(NodeID(h));
                    assert(d[k].host == Some(NodeID(h)));
                } else {
                    assert(d[dt.len() as int].host == Some(NodeID(h)));
                }
            }
            assert forall|h: u128| host_keys(d).contains(h) implies host_keys(s).contains(h) by {
                let k = choose|k: int| 0 <= k < d.len() && (#[trigger] d[k]).host == Some(NodeID(h));
                if k < dt.len() {
                    assert(dt[k].host == Some(NodeID(h)));
                    assert(host_keys(t).contains(h));
                    let j = choose|j: int| 0 <= j < t.len() && (#[trigger] t[j]).host == Some(NodeID(h));
                    assert(s[j].host == Some(NodeID(h)));
                } else {
                    assert(s[s.len() - 1].host == Some(NodeID(h)));
                }
            }
            assert(host_keys(d) =~= host_keys(s));
        }
    }
}

/// Collapsing the hosts of a beginning of `s` gives a beginning of what
/// collapsing the hosts of `s` gives.
pub proof fn lemma_deduplicated_prefix(s: Seq<ScoredDoc>, n: int)
    requires
        0 <= n <= s.len(),
    ensures
        deduplicated(s.take(n)).len() <= deduplicated(s).len(),
        deduplicated(s).take(deduplicated(s.take(n)).len() as int) == deduplicated(s.take(n)),
    decreases s.len() - n,
{
    if n == s.len() {
        assert(s.take(n) =~= s);
        assert(deduplicated(s).take(deduplicated(s).len() as int) =~= deduplicated(s));
    } else {
        let t = s.drop_last();
        assert(t.take(n) =~= s.take(n));
        lemma_deduplicated_prefix(t, n);
        let k = deduplicated(s.take(n)).len() as int;
        assert(deduplicated(s).take(k) =~= deduplicated(t).take(k));
    }
}

/// In a ranking with its hosts collapsed, no candidate is preceded by a
/// candidate of the same host that was given.
pub proof fn lemma_deduplicated_best(s: Seq<ScoredDoc>, i: int, j: int)
    requires
        ordered(s),
        0 <= i < deduplicated(s).len(),
        0 <= j < s.len(),
        s[j].host is Some,
        s[j].host == deduplicated(s)[i].host,
    ensures
        !s[j].precedes(&deduplicated(s)[i]),
{
    let k = lemma_deduplicated_first(s, i);
    if j < k {
        assert(s.take(k)[j].host == s[k].host);
        assert(host_keys(s.take(k)).contains((s[k].host->0).0));
    }
}

/// Collapses the hosts of `v`: of the candidates of one host the first
/// stays.
pub fn deduplicate(v: &Vec<ScoredDoc>) -> (r: Vec<ScoredDoc>)
    ensures
        r@ == deduplicated(v@),
{
    broadcast use vstd::std_specs::hash::group_hash_axioms;

    let mut seen: HashSet<u128> = HashSet::new();
    let mut out: Vec<ScoredDoc> = Vec::new();
    let mut i: usize = 0;
    while i < v.len()
        invariant
            i <= v.len(),
            out@ == deduplicated(v@.take(i as int)),
            seen@ == host_keys(v@.take(i as int)),
        decreases v.len() - i,
    {
        let d = v[i];
        let ghost t = v@.take(i as int);
        let ghost s = v@.take(i + 1);
        proof {
            assert(s.drop_last() =~= t);
            assert(s.last() == d);
        }
        match d.host {
            None => {
                out.push(d);
                proof {
                    assert forall|h: u128| host_keys(s).contains(h) implies host_keys(
                        t,
                    ).contains(h) by {
                        let j = choose|j: int| 0 <= j < s.len() && (#[trigger] s[j]).host == Some(NodeID(h));
                        assert(t[j].host == Some(NodeID(h)));
                    }
                    assert forall|h: u128| host_keys(t).contains(h) implies host_keys(
                        s,
                    ).contains(h) by {
                        let j = choose|j: int| 0 <= j < t.len() && (#[trigger] t[j]).host == Some(NodeID(h));
                        assert(s[j].host == Some(NodeID(h)));
                    }
                    assert(host_keys(s) =~= host_keys(t));
                }
            },
            Some(h) => {
                let h = h.0;
                if !seen.contains(&h) {
                    seen.insert(h);
                    out.push(d);
                }
                proof {
                    assert forall|g: u128| host_keys(s).contains(g) implies host_keys(t).insert(
                        h,
                    ).contains(g) by {
                        let j = choose|j: int| 0 <= j < s.len() && (#[trigger] s[j]).host == Some(NodeID(g));
                        if j < t.len() {
                            assert(t[j].host == Some(NodeID(g)));
                        }
                    }
                    assert forall|g: u128| host_keys(t).insert(h).contains(g) implies host_keys(
                        s,
                    ).contains(g) by {
                        if g == h {
                            assert(s[i as int].host == Some(NodeID(g)));
                        } else {
                            let j = choose|j: int|
                                0 <= j < t.len() && (#[trigger] t[j]).host == Some(NodeID(g));
                            assert(s[j].host == Some(NodeID(g)));
                        }
                    }
                    assert(host_keys(s) =~= host_keys(t).insert(h));
                }
            },
        }
        i += 1;
    }
    proof {
        assert(v@.take(i as int) =~= v@);
    }
    out
}

/// `a + b`, or the largest number where that is too large.
pub open spec fn saturating_sum(a: usize, b: usize) -> usize {
    if a + b > usize::MAX {
        usize::MAX
    } else {
        (a + b) as usize
    }
}

/// `s` without its first `n` elements; nothing where it has no more.
pub open spec fn without_first<T>(s: Seq<T>, n: int) -> Seq<T> {
    if 0 <= n <= s.len() {
        s.skip(n)
    } else if n < 0 {
        s
    } else {
        Seq::empty()
    }
}

/// How candidates are reduced to a fruit.
#[derive(Clone, Copy, Debug, PartialEq, Eq)]
pub struct Reduction {
    /// The number of documents asked for.
    pub limit: Option<usize>,
    /// The number of leading documents that the caller passes over.
    pub offset: Option<usize>,
    /// Whether the fruit is without those leading documents.
    pub perform_offset: bool,
    /// Whether at most one document stays for each host.
    pub deduplicate: bool,
}

impl Reduction {
    /// The offset, zero where none was given.
    pub open spec fn offset_or_zero(&self) -> usize {
        match self.offset {
            Some(o) => o,
            None => 0,
        }
    }

    /// The number of ranked candidates that are kept before hosts are
    /// collapsed: limit, offset and `DEDUPLICATION_BUFFER` together. No bound
    /// without a limit.
    pub open spec fn capacity(&self) -> Option<usize> {
        match self.limit {
            Some(l) => Some(
                saturating_sum(saturating_sum(l, self.offset_or_zero()), DEDUPLICATION_BUFFER),
            ),
            None => None,
        }
    }

    /// The ranked candidates that are kept before hosts are collapsed.
    pub open spec fn bounded(&self, candidates: Seq<ScoredDoc>) -> Seq<ScoredDoc> {
        match self.capacity() {
            Some(c) => prefix(ranked(candidates), c as int),
            None => ranked(candidates),
        }
    }

    /// `top` with its hosts collapsed, where that is asked for.
    pub open spec fn collapsed(&self, top: Seq<ScoredDoc>) -> Seq<ScoredDoc> {
        if self.deduplicate {
            deduplicated(top)
        } else {
            top
        }
    }

    /// The part of `docs` that is handed on. With the offset performed: what
    /// follows the first `offset` documents, up to `limit`. Without: the first
    /// `limit + offset` documents.
    pub open spec fn window(&self, docs: Seq<ScoredDoc>) -> Seq<ScoredDoc> {
        if self.perform_offset {
            let rest = without_first(docs, self.offset_or_zero() as int);
            match self.limit {
                Some(l) => prefix(rest, l as int),
                None => rest,
            }
        } else {
            match self.limit {
                Some(l) => prefix(docs, saturating_sum(l, self.offset_or_zero()) as int),
                None => docs,
            }
        }
    }

    /// The fruit of these candidates: they are ranked and bounded, their
    /// hosts collapsed, and the window is cut out.
    pub open spec fn reduce(&self, candidates: Seq<ScoredDoc>) -> Seq<ScoredDoc> {
        self.window(self.collapsed(self.bounded(candidates)))
    }

    fn capacity_exec(&self) -> (r: Option<usize>)
        ensures
            r == self.capacity(),
    {
        match self.limit {
            Some(l) => {
                let o = match self.offset {
                    Some(o) => o,
                    None => 0,
                };
                Some(l.saturating_add(o).saturating_add(DEDUPLICATION_BUFFER))
            },
            None => None,
        }
    }

    /// Collapses the hosts of the ranked candidates `top` where that is
    /// asked for, and cuts out the window.
    pub fn finish(&self, top: Vec<ScoredDoc>) -> (r: Vec<ScoredDoc>)
        ensures
            r@ == self.window(self.collapsed(top@)),
    {
        let docs = if self.deduplicate {
            deduplicate(&top)
        } else {
            top
        };
        let o = match self.offset {
            Some(o) => o,
            None => 0,
        };
        let n = docs.len();
        let start: usize = if self.perform_offset {
            if o <= n {
                o
            } else {
                n
            }
        } else {
            0
        };
        let width: usize = match self.limit {
            Some(l) => if self.perform_offset {
                l
            } else {
                l.saturating_add(o)
            },
            None => n,
        };
        let end: usize = if width < n - start {
            start + width
        } else {
            n
        };
        let mut out: Vec<ScoredDoc> = Vec::new();
        let mut i: usize = start;
        while i < end
            invariant
                start <= i <= end <= n,
                n == docs.len(),
                out@ == docs@.subrange(start as int, i as int),
            decreases end - i,
        {
            out.push(docs[i]);
            i += 1;
            proof {
                assert(out@ =~= docs@.subrange(start as int, i as int));
            }
        }
        proof {
            assert(out@ =~= self.window(docs@));
        }
        out
    }
}

/// Ranks `candidates` and keeps the best `capacity` of them, or all where
/// there is no bound.
fn rank_bounded(candidates: Vec<Vec<ScoredDoc>>, capacity: Option<usize>) -> (r: Vec<ScoredDoc>)
    ensures
        r@ == match capacity {
            Some(c) => prefix(ranked(concat_all(views_of(candidates@))), c as int),
            None => ranked(concat_all(views_of(candidates@))),
        },
{
    let ghost views = views_of(candidates@);
    let mut best: Vec<ScoredDoc> = Vec::new();
    let mut i: usize = 0;
    while i < candidates.len()
        invariant
            i <= candidates.len(),
            views == views_of(candidates@),
            capacity matches Some(c) ==> best@ == prefix(ranked(concat_all(views.take(i as int))), c as int)
                && ordered(best@) && best.len() <= c,
            capacity is None ==> best@ == concat_all(views.take(i as int)),
        decreases candidates.len() - i,
    {
        let fruit = &candidates[i];
        let ghost before = concat_all(views.take(i as int));
        proof {
            assert(views.take(i + 1).drop_last() =~= views.take(i as int));
            assert(views.take(i + 1).last() == fruit@);
            assert(before + fruit@.take(0) =~= before);
        }
        let mut j: usize = 0;
        while j < fruit.len()
            invariant
                j <= fruit.len(),
                capacity matches Some(c) ==> best@ == prefix(
                    ranked(before + fruit@.take(j as int)),
                    c as int,
                ) && ordered(best@) && best.len() <= c,
                capacity is None ==> best@ == before + fruit@.take(j as int),
            decreases fruit.len() - j,
        {
            let x = fruit[j];
            proof {
                let s = before + fruit@.take(j + 1);
                assert(s.drop_last() =~= before + fruit@.take(j as int));
                assert(s.last() == x);
            }
            match capacity {
                Some(c) => {
                    proof {
                        lemma_place_prefix(ranked(before + fruit@.take(j as int)), x, c as int);
                    }
                    place_bounded(&mut best, x, c);
                },
                None => {
                    best.push(x);
                    proof {
                        assert(best@ =~= before + fruit@.take(j + 1));
                    }
                },
            }
            j += 1;
        }
        proof {
            assert(fruit@.take(j as int) =~= fruit@);
        }
        i += 1;
    }
    proof {
        assert(views.take(i as int) =~= views);
    }
    match capacity {
        Some(_) => best,
        None => sort_ranked(best),
    }
}

/// The way in which `TopDocsCollector` collapses hosts: it is handed to
/// the collector when the collector is built, and the collector then keeps
/// the best document of each value of its host field.
#[derive(Clone, Copy, Debug, PartialEq, Eq)]
pub struct HostDeduplicator;

/// Collects the best documents of a query. `S` gives each document its
/// score.
#[derive(Debug)]
pub struct TopDocsCollector<S = DefaultDocumentScorer> {
    pub shard_id: Option<ShardId>,
    pub limit: Option<usize>,
    pub offset: Option<usize>,
    pub perform_offset: bool,
    pub deduplicator: Option<HostDeduplicator>,
    pub host_field: Option<FieldEnum>,
    pub column_fields: Option<Arc<WarmedColumnFields>>,
    pub scorer: PhantomData<S>,
}

impl TopDocsCollector<DefaultDocumentScorer> {
    /// A collector without limit, which performs the offset that it is
    /// given.
    pub fn new() -> (r: TopDocsCollector)
        ensures
            r.shard_id is None,
            r.limit is None,
            r.offset is None,
            r.perform_offset,
            r.deduplicator is None,
            r.host_field is None,
            r.column_fields is None,
    {
        TopDocsCollector {
            shard_id: None,
            limit: None,
            offset: None,
            perform_offset: true,
            deduplicator: None,
            host_field: None,
            column_fields: None,
            scorer: PhantomData,
        }
    }

    /// A collector with the limit and offset of `limit`.
    pub fn from(limit: EdgeLimit) -> (r: TopDocsCollector)
        ensures
            r.limit == limit.limit_spec(),
            r.offset == limit.offset_spec(),
            r.shard_id is None,
            r.perform_offset,
            r.deduplicator is None,
            r.host_field is None,
            r.column_fields is None,
    {
        let mut collector = TopDocsCollector::new();
        collector.limit = limit.limit();
        collector.offset = limit.offset();
        collector
    }
}

impl<S: DocumentScorer> TopDocsCollector<S> {
    /// The collector that scores documents with `S2`.
    pub fn with_scorer<S2: DocumentScorer>(self) -> (r: TopDocsCollector<S2>)
        ensures
            r.shard_id == self.shard_id,
            r.limit == self.limit,
            r.offset == self.offset,
            r.perform_offset == self.perform_offset,
            r.deduplicator == self.deduplicator,
            r.host_field == self.host_field,
            r.column_fields == self.column_fields,
    {
        TopDocsCollector {
            shard_id: self.shard_id,
            limit: self.limit,
            offset: self.offset,
            perform_offset: self.perform_offset,
            deduplicator: self.deduplicator,
            host_field: self.host_field,
            column_fields: self.column_fields,
            scorer: PhantomData,
        }
    }

    /// How this collector reduces candidates.
    pub open spec fn reduction(&self) -> Reduction {
        Reduction {
            limit: self.limit,
            offset: self.offset,
            perform_offset: self.perform_offset,
            deduplicate: self.deduplicator is Some,
        }
    }

    /// The collector with this limit.
    pub fn with_limit(self, limit: usize) -> (r: TopDocsCollector<S>)
        ensures
            r == (TopDocsCollector { limit: Some(limit), ..self }),
    {
        TopDocsCollector { limit: Some(limit), ..self }
    }

    /// The collector with this offset.
    pub fn with_offset(self, offset: usize) -> (r: TopDocsCollector<S>)
        ensures
            r == (TopDocsCollector { offset: Some(offset), ..self }),
    {
        TopDocsCollector { offset: Some(offset), ..self }
    }

    /// The collector for this shard.
    pub fn with_shard_id(self, shard_id: ShardId) -> (r: TopDocsCollector<S>)
        ensures
            r == (TopDocsCollector { shard_id: Some(shard_id), ..self }),
    {
        TopDocsCollector { shard_id: Some(shard_id), ..self }
    }

    /// The collector whose fruit is without the first `offset` documents.
    pub fn enable_offset(self) -> (r: TopDocsCollector<S>)
        ensures
            r == (TopDocsCollector { perform_offset: true, ..self }),
    {
        TopDocsCollector { perform_offset: true, ..self }
    }

    /// The collector whose fruit starts at the best document.
    pub fn disable_offset(self) -> (r: TopDocsCollector<S>)
        ensures
            r == (TopDocsCollector { perform_offset: false, ..self }),
    {
        TopDocsCollector { perform_offset: false, ..self }
    }

    /// The collector that keeps at most one document for each host.
    pub fn with_deduplicator(self, deduplicator: HostDeduplicator) -> (r: TopDocsCollector<S>)
        ensures
            r == (TopDocsCollector { deduplicator: Some(deduplicator), ..self }),
    {
        TopDocsCollector { deduplicator: Some(deduplicator), ..self }
    }

    /// The collector with these opened columns.
    pub fn with_column_fields(self, column_fields: Arc<WarmedColumnFields>) -> (r: TopDocsCollector<S>)
        ensures
            r == (TopDocsCollector { column_fields: Some(column_fields), ..self }),
    {
        TopDocsCollector { column_fields: Some(column_fields), ..self }
    }

    /// The collector that reads a document's host from `field`.
    pub fn with_host_field(self, field: FieldEnum) -> (r: TopDocsCollector<S>)
        ensures
            r == (TopDocsCollector { host_field: Some(field), ..self }),
    {
        TopDocsCollector { host_field: Some(field), ..self }
    }

    /// Merges fruits: the reduction of all their candidates.
    pub fn merge_fruits(&self, fruits: Vec<Vec<ScoredDoc>>) -> (r: Vec<ScoredDoc>)
        ensures
            r@ == self.reduction().reduce(concat_all(views_of(fruits@))),
    {
        let reduction = Reduction {
            limit: self.limit,
            offset: self.offset,
            perform_offset: self.perform_offset,
            deduplicate: self.deduplicator.is_some(),
        };
        let top = rank_bounded(fruits, reduction.capacity_exec());
        reduction.finish(top)
    }
}

/// The candidate that a document makes: the score that the scorer gives
/// it, its address, and its host where hosts are read. Where hosts are read and the document
/// has none, it makes no candidate.
pub open spec fn candidate<S: DocumentScorer>(
    shard_id: ShardId,
    segment_ord: u32,
    scorer: S,
    hosts: Option<Seq<Option<u128>>>,
    doc: u32,
) -> Option<ScoredDoc> {
    let address = DocAddress { segment_ord, doc_id: doc, shard_id };
    let score = scorer.score_of(doc);
    match hosts {
        None => Some(ScoredDoc { score, address, host: None }),
        Some(column) => match first_value(column, doc) {
            Some(h) => Some(ScoredDoc { score, address, host: Some(NodeID(h)) }),
            None => None,
        },
    }
}

/// The candidates that documents make, in the order of the documents.
pub open spec fn candidates<S: DocumentScorer>(
    shard_id: ShardId,
    segment_ord: u32,
    scorer: S,
    hosts: Option<Seq<Option<u128>>>,
    docs: Seq<u32>,
) -> Seq<ScoredDoc>
    decreases docs.len(),
{
    if docs.len() == 0 {
        Seq::empty()
    } else {
        let before = candidates(shard_id, segment_ord, scorer, hosts, docs.drop_last());
        match candidate(shard_id, segment_ord, scorer, hosts, docs.last()) {
            Some(c) => before.push(c),
            None => before,
        }
    }
}

/// What a segment collector holds.
pub struct SegmentCollection<S> {
    pub shard_id: ShardId,
    pub segment_ord: u32,
    pub scorer: S,
    pub hosts: Option<Seq<Option<u128>>>,
    pub reduction: Reduction,
    /// The documents collected so far.
    pub docs: Seq<u32>,
}

impl<S: DocumentScorer> SegmentCollection<S> {
    /// The candidates that the collected documents make.
    pub open spec fn candidates(&self) -> Seq<ScoredDoc> {
        candidates(self.shard_id, self.segment_ord, self.scorer, self.hosts, self.docs)
    }

    /// The fruit of the segment.
    pub open spec fn fruit(&self) -> Seq<ScoredDoc> {
        self.reduction.reduce(self.candidates())
    }

    /// The collection with one more document.
    pub open spec fn with_doc(&self, doc: u32) -> SegmentCollection<S> {
        SegmentCollection { docs: self.docs.push(doc), ..*self }
    }

    /// The collection with these documents in place of its own.
    pub open spec fn with_docs(&self, docs: Seq<u32>) -> SegmentCollection<S> {
        SegmentCollection { docs, ..*self }
    }
}

/// Collects the best documents of one segment.
pub struct TopDocsSegmentCollector<'a, S = DefaultDocumentScorer> {
    shard_id: ShardId,
    segment_ord: u32,
    scorer: S,
    hosts: Option<&'a Column<u128>>,
    reduction: Reduction,
    best: Vec<ScoredDoc>,
    docs: Ghost<Seq<u32>>,
}

impl<'a, S: DocumentScorer> View for TopDocsSegmentCollector<'a, S> {
    type V = SegmentCollection<S>;

    closed spec fn view(&self) -> SegmentCollection<S> {
        SegmentCollection {
            shard_id: self.shard_id,
            segment_ord: self.segment_ord,
            scorer: self.scorer,
            hosts: crate::column::view_of_ref(self.hosts),
            reduction: self.reduction,
            docs: self.docs@,
        }
    }
}

impl<'a, S: DocumentScorer> TopDocsSegmentCollector<'a, S> {
    /// The collector holds the best of what it has collected.
    pub closed spec fn wf(&self) -> bool {
        match self.reduction.capacity() {
            Some(c) => self.best@ == prefix(ranked(self@.candidates()), c as int) && ordered(
                self.best@,
            ) && self.best.len() <= c,
            None => self.best@ == self@.candidates(),
        }
    }

    /// Collects the document `doc`.
    pub fn collect(&mut self, doc: u32)
        requires
            old(self).wf(),
        ensures
            final(self).wf(),
            final(self)@ == old(self)@.with_doc(doc),
    {
        let ghost before = self@.candidates();
        let ghost docs = self.docs@.push(doc);
        proof {
            assert(docs.drop_last() =~= self.docs@);
        }
        let score = self.scorer.score(doc);
        let address = DocAddress { segment_ord: self.segment_ord, doc_id: doc, shard_id: self.shard_id };
        let host = match self.hosts {
            None => None,
            Some(column) => match column.first(doc) {
                Some(h) => Some(NodeID(h)),
                None => {
                    self.docs = Ghost(docs);
                    return ;
                },
            },
        };
        let x = ScoredDoc { score, address, host };
        match self.reduction.capacity_exec() {
            Some(c) => {
                proof {
                    lemma_place_prefix(ranked(before), x, c as int);
                    assert(before.push(x).drop_last() =~= before);
                }
                place_bounded(&mut self.best, x, c);
            },
            None => {
                self.best.push(x);
            },
        }
        self.docs = Ghost(docs);
    }

    /// The fruit of the segment.
    pub fn harvest(self) -> (r: Vec<ScoredDoc>)
        requires
            self.wf(),
        ensures
            r@ == self@.fruit(),
    {
        let top = match self.reduction.capacity_exec() {
            Some(_) => self.best,
            None => sort_ranked(self.best),
        };
        self.reduction.finish(top)
    }
}

impl<S: DocumentScorer> TopDocsCollector<S> {
    /// What `for_segment` gives: a collection without documents, or the
    /// reason why the segment cannot be collected. The collector needs its
    /// shard and the opened columns; the scorer must be had for the
    /// segment; where hosts are collapsed, the collector needs
    /// the field of the host and the segment that field's column.
    pub open spec fn segment_collection(&self, segment_ord: u32, segment: &SegmentReader) -> Result<
        SegmentCollection<S>,
        Error,
    > {
        match self.column_fields {
            None => Err(Error::MissingColumnFields),
            Some(column_fields) => match self.shard_id {
                None => Err(Error::MissingShardId),
                Some(shard_id) => match S::scorer_for(segment, &column_fields) {
                    Err(e) => Err(e),
                    Ok(scorer) => {
                        let collection = SegmentCollection {
                            shard_id,
                            segment_ord,
                            scorer,
                            hosts: None,
                            reduction: self.reduction(),
                            docs: Seq::empty(),
                        };
                        if self.deduplicator is Some {
                            match self.host_field {
                                None => Err(Error::MissingHostField),
                                Some(field) => match column_fields.position(segment.segment_id) {
                                    None => Err(Error::SegmentNotWarmed),
                                    Some(i) => match column_fields.segments@[i].ids(field) {
                                        None => Err(Error::FieldNotFound(field)),
                                        Some(hosts) => Ok(
                                            SegmentCollection { hosts: Some(hosts), ..collection },
                                        ),
                                    },
                                },
                            }
                        } else {
                            Ok(collection)
                        }
                    },
                },
            },
        }
    }

    /// The collector for the segment of ordinal `segment_ord`.
    pub fn for_segment<'a>(&'a self, segment_ord: u32, segment: &SegmentReader) -> (r: Result<
        TopDocsSegmentCollector<'a, S>,
        Error,
    >)
        ensures
            match self.segment_collection(segment_ord, segment) {
                Ok(c) => r matches Ok(child) && child@ == c && child.wf(),
                Err(e) => r matches Err(x) && x == e,
            },
    {
        let column_fields = match &self.column_fields {
            None => {
                return Err(Error::MissingColumnFields);
            },
            Some(column_fields) => column_fields,
        };
        let shard_id = match self.shard_id {
            None => {
                return Err(Error::MissingShardId);
            },
            Some(shard_id) => shard_id,
        };
        let scorer = match S::for_segment(segment, column_fields) {
            Err(e) => {
                return Err(e);
            },
            Ok(scorer) => scorer,
        };
        let reduction = Reduction {
            limit: self.limit,
            offset: self.offset,
            perform_offset: self.perform_offset,
            deduplicate: self.deduplicator.is_some(),
        };
        let hosts = if self.deduplicator.is_some() {
            let field = match self.host_field {
                None => {
                    return Err(Error::MissingHostField);
                },
                Some(field) => field,
            };
            let columns = match column_fields.segment(&segment.segment_id()) {
                None => {
                    return Err(Error::SegmentNotWarmed);
                },
                Some(columns) => columns,
            };
            match columns.u128(field) {
                None => {
                    return Err(Error::FieldNotFound(field));
                },
                Some(hosts) => Some(hosts),
            }
        } else {
            None
        };
        let child = TopDocsSegmentCollector {
            shard_id,
            segment_ord,
            scorer,
            hosts,
            reduction,
            best: Vec::new(),
            docs: Ghost(Seq::empty()),
        };
        proof {
            assert(prefix(ranked(child@.candidates()), 0) =~= Seq::<ScoredDoc>::empty());
        }
        Ok(child)
    }
}

impl<S: DocumentScorer> TopDocsCollector<S> {
    /// The fruit of one segment of a shard: what the collector for the
    /// segment harvests once it has collected the documents that the scan of
    /// the segment gives.
    pub open spec fn segment_fruit(
        &self,
        query: IndexQueryView,
        searcher: &Searcher,
        segment_ord: u32,
    ) -> Result<Seq<ScoredDoc>, Error> {
        let segment = searcher.segments@[segment_ord as int];
        match self.segment_collection(segment_ord, &segment) {
            Err(e) => Err(e),
            Ok(collection) => match searcher.column_fields.position(segment.segment_id) {
                None => Err(Error::SegmentNotWarmed),
                Some(i) => Ok(
                    collection.with_docs(
                        query.hits(&searcher.column_fields.segments@[i], segment.max_doc as nat),
                    ).fruit(),
                ),
            },
        }
    }

    /// The fruits of the first `n` segments of a shard, or the first reason
    /// why one of them could not be collected.
    pub open spec fn segment_fruits(&self, query: IndexQueryView, searcher: &Searcher, n: nat) -> Result<
        Seq<Seq<ScoredDoc>>,
        Error,
    >
        decreases n,
    {
        if n == 0 {
            Ok(Seq::empty())
        } else {
            match self.segment_fruits(query, searcher, (n - 1) as nat) {
                Err(e) => Err(e),
                Ok(fruits) => match self.segment_fruit(query, searcher, (n - 1) as u32) {
                    Err(e) => Err(e),
                    Ok(fruit) => Ok(fruits.push(fruit)),
                },
            }
        }
    }

    /// The fruit of a shard: the fruits of its segments, merged.
    pub open spec fn local_fruit(&self, query: IndexQueryView, searcher: &Searcher) -> Result<
        Seq<ScoredDoc>,
        Error,
    > {
        match self.segment_fruits(query, searcher, searcher.segments@.len()) {
            Err(e) => Err(e),
            Ok(fruits) => Ok(self.reduction().reduce(concat_all(fruits))),
        }
    }

    /// Runs `query` on a shard and collects what it gives.
    pub fn search(&self, query: &IndexQuery, searcher: &Searcher) -> (r: Result<
        Vec<ScoredDoc>,
        Error,
    >)
        requires
            searcher.segments@.len() <= u32::MAX,
        ensures
            match self.local_fruit(query@, searcher) {
                Ok(f) => r matches Ok(v) && v@ == f,
                Err(e) => r matches Err(x) && x == e,
            },
    {
        let mut fruits: Vec<Vec<ScoredDoc>> = Vec::new();
        let mut i: usize = 0;
        proof {
            assert(views_of(fruits@) =~= Seq::<Seq<ScoredDoc>>::empty());
        }
        while i < searcher.segments.len()
            invariant
                i <= searcher.segments@.len() <= u32::MAX,
                self.segment_fruits(query@, searcher, i as nat) == Ok::<
                    Seq<Seq<ScoredDoc>>,
                    Error,
                >(views_of(fruits@)),
            decreases searcher.segments.len() - i,
        {
            let segment_ord = i as u32;
            let segment = &searcher.segments[i];
            let mut child = match self.for_segment(segment_ord, segment) {
                Err(e) => {
                    proof {
                        self.lemma_segment_fruits_fail(query@, searcher, i as nat);
                    }
                    return Err(e);
                },
                Ok(child) => child,
            };
            let columns = match searcher.column_fields.segment(&segment.segment_id()) {
                None => {
                    proof {
                        self.lemma_segment_fruits_fail(query@, searcher, i as nat);
                    }
                    return Err(Error::SegmentNotWarmed);
                },
                Some(columns) => columns,
            };
            let docs = query.search_segment(columns, segment.max_doc());
            let ghost empty = child@;
            let mut k: usize = 0;
            proof {
                assert(docs@.take(0) =~= empty.docs);
            }
            while k < docs.len()
                invariant
                    k <= docs.len(),
                    child.wf(),
                    child@ == empty.with_docs(docs@.take(k as int)),
                decreases docs.len() - k,
            {
                child.collect(docs[k]);
                k += 1;
                proof {
                    assert(docs@.take(k as int) =~= docs@.take(k - 1).push(docs@[k - 1]));
                }
            }
            proof {
                assert(docs@.take(k as int) =~= docs@);
            }
            let ghost before = views_of(fruits@);
            let fruit = child.harvest();
            fruits.push(fruit);
            proof {
                assert(views_of(fruits@) =~= before.push(fruit@));
            }
            i += 1;
        }
        Ok(self.merge_fruits(fruits))
    }

    /// Where a segment fails, so does every longer run of segments, for the
    /// same reason.
    proof fn lemma_segment_fruits_fail(&self, query: IndexQueryView, searcher: &Searcher, i: nat)
        requires
            i < searcher.segments@.len() <= u32::MAX,
            self.segment_fruits(query, searcher, i) is Ok,
            self.segment_fruit(query, searcher, i as u32) is Err,
        ensures
            self.local_fruit(query, searcher) == Err::<Seq<ScoredDoc>, Error>(
                self.segment_fruit(query, searcher, i as u32)->Err_0,
            ),
    {
        self.lemma_segment_fruits_fail_upto(query, searcher, i, searcher.segments@.len());
    }

    proof fn lemma_segment_fruits_fail_upto(
        &self,
        query: IndexQueryView,
        searcher: &Searcher,
        i: nat,
        n: nat,
    )
        requires
            i < n <= u32::MAX,
            self.segment_fruits(query, searcher, i) is Ok,
            self.segment_fruit(query, searcher, i as u32) is Err,
        ensures
            self.segment_fruits(query, searcher, n) == Err::<Seq<Seq<ScoredDoc>>, Error>(
                self.segment_fruit(query, searcher, i as u32)->Err_0,
            ),
        decreases n,
    {
        if n > i + 1 {
            self.lemma_segment_fruits_fail_upto(query, searcher, i, (n - 1) as nat);
        }
    }
}

/// Every document of a window is one of the documents that it was cut out
/// of, and two of them are two of those, in their order.
pub proof fn lemma_window(r: Reduction, docs: Seq<ScoredDoc>) -> (start: int)
    ensures
        0 <= start,
        start + r.window(docs).len() <= docs.len(),
        forall|i: int| 0 <= i < r.window(docs).len() ==> #[trigger] r.window(docs)[i] == docs[start + i],
{
    if r.perform_offset {
        let o = r.offset_or_zero() as int;
        if o <= docs.len() {
            o
        } else {
            0
        }
    } else {
        0
    }
}

/// With hosts collapsed, no two documents of a fruit have the same host,
/// and no candidate precedes the document that the fruit holds for its
/// host.
pub proof fn lemma_one_best_document_for_each_host(r: Reduction, candidates: Seq<ScoredDoc>)
    requires
        r.deduplicate,
    ensures
        forall|i: int, j: int|
            0 <= i < j < r.reduce(candidates).len() ==> !((#[trigger] r.reduce(candidates)[i]).host is Some
                && r.reduce(candidates)[i].host == (#[trigger] r.reduce(candidates)[j]).host),
        forall|i: int, k: int|
            0 <= i < r.reduce(candidates).len() && 0 <= k < candidates.len() && (
            #[trigger] candidates[k]).host is Some && candidates[k].host == (#[trigger] r.reduce(
                candidates,
            )[i]).host ==> !candidates[k].precedes(&r.reduce(candidates)[i]),
{
    broadcast use vstd::seq_lib::group_to_multiset_ensures;

    let all = ranked(candidates);
    let top = r.bounded(candidates);
    let d = deduplicated(top);
    let f = r.reduce(candidates);
    lemma_ranked(candidates);
    lemma_deduplicated_distinct(top);
    let start = lemma_window(r, d);
    assert forall|i: int, j: int| 0 <= i < j < f.len() implies !((#[trigger] f[i]).host is Some
        && f[i].host == (#[trigger] f[j]).host) by {
        assert(f[i] == d[start + i] && f[j] == d[start + j]);
    }
    assert forall|i: int, k: int|
        0 <= i < f.len() && 0 <= k < candidates.len() && (#[trigger] candidates[k]).host is Some
            && candidates[k].host == (#[trigger] f[i]).host implies !candidates[k].precedes(
        &f[i],
    ) by {
        let c = candidates[k];
        assert(f[i] == d[start + i]);
        let q = lemma_deduplicated_first(top, start + i);
        assert(top[q] == all[q]);
        // the candidate stands somewhere in the ranking
        assert(candidates.to_multiset().count(c) > 0);
        assert(all.contains(c));
        let p = choose|p: int| 0 <= p < all.len() && all[p] == c;
        if p < top.len() {
            assert(top[p] == c);
            assert forall|a: int, b: int| 0 <= a < b < top.len() implies !(#[trigger] top[b]).precedes(
                #[trigger] &top[a],
            ) by {
                assert(top[a] == all[a] && top[b] == all[b]);
            }
            lemma_deduplicated_best(top, start + i, p);
        } else {
            assert(!all[p].precedes(&all[q]));
        }
    }
}

/// The fruit does not depend on the order in which the candidates are
/// given: not on the order of the segments on a shard, and not on the order
/// of the shards. This is so where two candidates of one score and one
/// address are one candidate.
pub proof fn lemma_fruit_in_any_order(r: Reduction, a: Seq<ScoredDoc>, b: Seq<ScoredDoc>)
    requires
        a.to_multiset() == b.to_multiset(),
        crate::ranking::ties_are_equal(a),
    ensures
        r.reduce(a) == r.reduce(b),
{
    crate::ranking::lemma_ranked_any_order(a, b);
}

/// Whether enough candidates are kept for the window to be what it would
/// be if all were kept: the kept candidates, with their hosts collapsed where
/// that is asked for, reach the end of the window or are no fewer than all
/// give.
pub open spec fn covers(r: Reduction, candidates: Seq<ScoredDoc>) -> bool {
    let kept = r.collapsed(r.bounded(candidates)).len();
    let all = r.collapsed(ranked(candidates)).len();
    match r.limit {
        Some(l) => kept >= all || kept >= l + r.offset_or_zero(),
        None => true,
    }
}

/// The kept candidates, with their hosts collapsed where that is asked
/// for, are a beginning of all candidates ranked and treated alike.
pub proof fn lemma_kept_is_beginning(r: Reduction, candidates: Seq<ScoredDoc>)
    ensures
        r.collapsed(r.bounded(candidates)).len() <= r.collapsed(ranked(candidates)).len(),
        r.collapsed(r.bounded(candidates)) == r.collapsed(ranked(candidates)).take(
            r.collapsed(r.bounded(candidates)).len() as int,
        ),
{
    let all = ranked(candidates);
    let top = r.bounded(candidates);
    if top.len() < all.len() {
        let c = r.capacity()->0 as int;
        assert(top == all.take(c));
        if r.deduplicate {
            lemma_deduplicated_prefix(all, c);
        } else {
            assert(all.take(c).take(c) =~= all.take(c));
        }
    } else {
        assert(top == all);
        assert(r.collapsed(all).take(r.collapsed(all).len() as int) =~= r.collapsed(all));
    }
}

/// Without collapsing of hosts, enough candidates are always kept.
pub proof fn lemma_covers_without_deduplication(r: Reduction, candidates: Seq<ScoredDoc>)
    requires
        !r.deduplicate,
        candidates.len() <= usize::MAX,
    ensures
        covers(r, candidates),
{
    lemma_ranked(candidates);
}

/// Where no more candidates are given than are kept, enough are kept.
pub proof fn lemma_covers_within_capacity(r: Reduction, candidates: Seq<ScoredDoc>)
    requires
        r.capacity() matches Some(c) ==> candidates.len() <= c,
    ensures
        covers(r, candidates),
{
    lemma_ranked(candidates);
}

/// A page: with the offset performed and enough candidates kept, the fruit
/// is what follows the first `offset` of all ranked candidates (their hosts
/// collapsed where that is asked for), up to `limit`.
pub proof fn lemma_page(r: Reduction, candidates: Seq<ScoredDoc>)
    requires
        r.perform_offset,
        covers(r, candidates),
    ensures
        r.reduce(candidates) == r.window(r.collapsed(ranked(candidates))),
{
    lemma_kept_is_beginning(r, candidates);
    let kept = r.collapsed(r.bounded(candidates));
    let all = r.collapsed(ranked(candidates));
    if kept.len() < all.len() {
        assert(r.window(kept) =~= r.window(all));
    } else {
        assert(kept =~= all);
    }
}

/// Where enough candidates are kept and enough documents are left once
/// hosts are collapsed, the fruit has as many documents as are asked for.
pub proof fn lemma_fruit_is_full(r: Reduction, candidates: Seq<ScoredDoc>, limit: usize)
    requires
        r.limit == Some(limit),
        covers(r, candidates),
        limit + r.offset_or_zero() <= r.collapsed(ranked(candidates)).len(),
        limit + r.offset_or_zero() <= usize::MAX,
    ensures
        r.perform_offset ==> r.reduce(candidates).len() == limit,
        !r.perform_offset ==> r.reduce(candidates).len() == limit + r.offset_or_zero(),
{
    lemma_kept_is_beginning(r, candidates);
    let kept = r.collapsed(r.bounded(candidates));
    let all = r.collapsed(ranked(candidates));
    if kept.len() >= all.len() {
        assert(kept =~= all);
    }
}

/// Two pages that follow each other hold, one after the other, what one
/// page of twice the length holds: nothing is left out between them and
/// nothing is given twice.
pub proof fn lemma_pages_follow(
    candidates: Seq<ScoredDoc>,
    limit: usize,
    offset: usize,
    deduplicate: bool,
)
    requires
        offset + 2 * limit <= usize::MAX,
        covers(page(limit, offset, deduplicate), candidates),
        covers(page(limit, (offset + limit) as usize, deduplicate), candidates),
    ensures
        page(limit, offset, deduplicate).reduce(candidates) + page(
            limit,
            (offset + limit) as usize,
            deduplicate,
        ).reduce(candidates) == prefix(
            without_first(
                page(limit, offset, deduplicate).collapsed(ranked(candidates)),
                offset as int,
            ),
            2 * limit,
        ),
{
    let first = page(limit, offset, deduplicate);
    let second = page(limit, (offset + limit) as usize, deduplicate);
    lemma_page(first, candidates);
    lemma_page(second, candidates);
    let all = first.collapsed(ranked(candidates));
    assert(second.collapsed(ranked(candidates)) == all);
    assert(first.window(all) + second.window(all) =~= prefix(
        without_first(all, offset as int),
        2 * limit,
    ));
}

/// The reduction that gives the page of `limit` documents behind the first
/// `offset`.
pub open spec fn page(limit: usize, offset: usize, deduplicate: bool) -> Reduction {
    Reduction { limit: Some(limit), offset: Some(offset), perform_offset: true, deduplicate }
}

} // verus!
