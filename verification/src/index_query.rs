//! The query that a shard's index is scanned with, and the scan of one
//! segment.

use crate::column::{FieldEnum, SegmentColumnFields};
use crate::document_scorer::{best_first, score_at};
use crate::filter::{clauses_hold, NodeFilter};
use crate::node::NodeID;
use std::collections::HashSet;
use vstd::prelude::*;

verus! {

/// The links that have `node` in `field`.
#[derive(Clone, Copy, Debug, PartialEq, Eq)]
pub struct LinksQuery {
    pub node: NodeID,
    pub field: FieldEnum,
    /// Leave out the links whose two ends are on one host.
    pub skip_self_links: bool,
    /// Of the links with one value in this field, give only the first.
    pub deduplication_field: Option<FieldEnum>,
}

impl LinksQuery {
    /// The links that have `node` in `field`, without those that stay on
    /// one host.
    pub fn new(node: NodeID, field: FieldEnum) -> (r: LinksQuery)
        ensures
            r == (LinksQuery { node, field, skip_self_links: true, deduplication_field: None }),
    {
        LinksQuery { node, field, skip_self_links: true, deduplication_field: None }
    }

    /// The links between hosts that have `node` in `field`: one link for
    /// each value of `deduplication_field`, without those that stay on one
    /// host.
    pub fn between_hosts(node: NodeID, field: FieldEnum, deduplication_field: FieldEnum) -> (r:
        LinksQuery)
        ensures
            r == (LinksQuery {
                node,
                field,
                skip_self_links: true,
                deduplication_field: Some(deduplication_field),
            }),
    {
        LinksQuery::new(node, field).with_deduplication_field(deduplication_field)
    }

    /// Says whether the links that stay on one host are left out.
    pub fn skip_self_links(self, skip_self_links: bool) -> (r: LinksQuery)
        ensures
            r == (LinksQuery { skip_self_links, ..self }),
    {
        LinksQuery { skip_self_links, ..self }
    }

    /// Of the links with one value in `field`, only the first is given.
    pub fn with_deduplication_field(self, field: FieldEnum) -> (r: LinksQuery)
        ensures
            r == (LinksQuery { deduplication_field: Some(field), ..self }),
    {
        LinksQuery { deduplication_field: Some(field), ..self }
    }
}

/// What a segment is scanned for: the links of a `LinksQuery` that pass
/// all clauses of `must`, and of those no more than `max_docs`.
#[derive(Debug)]
pub struct IndexQuery {
    pub links: LinksQuery,
    pub must: Vec<NodeFilter>,
    pub max_docs: Option<u64>,
}

/// What an `IndexQuery` holds.
pub struct IndexQueryView {
    pub links: LinksQuery,
    pub must: Seq<NodeFilter>,
    pub max_docs: Option<u64>,
}

impl View for IndexQuery {
    type V = IndexQueryView;

    open spec fn view(&self) -> IndexQueryView {
        IndexQueryView { links: self.links, must: self.must@, max_docs: self.max_docs }
    }
}

/// Whether the two ends of a document's link are on one host.
pub open spec fn self_link(columns: &SegmentColumnFields, doc: u32) -> bool {
    columns.id_value(FieldEnum::FromHostId, doc) is Some && columns.id_value(
        FieldEnum::FromHostId,
        doc,
    ) == columns.id_value(FieldEnum::ToHostId, doc)
}

/// The hosts among `values` whose documents were given.
pub open spec fn seen_values(values: Seq<Option<u128>>) -> Set<u128> {
    Set::new(|v: u128| exists|i: int| 0 <= i < values.len() && #[trigger] values[i] == Some(v))
}

proof fn lemma_seen_values_push(values: Seq<Option<u128>>, x: Option<u128>)
    ensures
        seen_values(values.push(x)) == match x {
            Some(v) => seen_values(values).insert(v),
            None => seen_values(values),
        },
{
    let p = values.push(x);
    let target = match x {
        Some(v) => seen_values(values).insert(v),
        None => seen_values(values),
    };
    assert forall|v: u128| seen_values(p).contains(v) implies target.contains(v) by {
        let i = choose|i: int| 0 <= i < p.len() && #[trigger] p[i] == Some(v);
        if i < values.len() {
            assert(values[i] == Some(v));
        }
    }
    assert forall|v: u128| target.contains(v) implies seen_values(p).contains(v) by {
        if x == Some(v) {
            assert(p[values.len() as int] == Some(v));
        } else {
            let i = choose|i: int| 0 <= i < values.len() && #[trigger] values[i] == Some(v);
            assert(p[i] == Some(v));
        }
    }
    assert(seen_values(p) =~= target);
}

impl IndexQueryView {
    /// Whether a document is one of the links asked for, whatever was given
    /// before it.
    pub open spec fn accepts(&self, columns: &SegmentColumnFields, doc: u32) -> bool {
        &&& columns.id_value(self.links.field, doc) == Some(self.links.node.0)
        &&& !(self.links.skip_self_links && self_link(columns, doc))
        &&& clauses_hold(self.must, columns, doc)
    }

    /// The value by which a document is deduplicated, if there is one.
    pub open spec fn deduplication_value(&self, columns: &SegmentColumnFields, doc: u32) -> Option<
        u128,
    > {
        match self.links.deduplication_field {
            Some(field) => columns.id_value(field, doc),
            None => None,
        }
    }

    /// The deduplication values of documents.
    pub open spec fn deduplication_values(&self, columns: &SegmentColumnFields, docs: Seq<u32>) -> Seq<
        Option<u128>,
    > {
        docs.map_values(|d: u32| self.deduplication_value(columns, d))
    }

    /// Whether the scan is full after `given` matches.
    pub open spec fn full(&self, given: nat) -> bool {
        match self.max_docs {
            Some(m) => given >= m,
            None => false,
        }
    }

    /// What the scan of the documents below `n` gives, in the order of the
    /// documents: those that are accepted, until the scan is full, and of
    /// those with one deduplication value only the first.
    pub open spec fn hits(&self, columns: &SegmentColumnFields, n: nat) -> Seq<u32>
        decreases n,
    {
        if n == 0 {
            Seq::empty()
        } else {
            let before = self.hits(columns, (n - 1) as nat);
            let doc = (n - 1) as u32;
            if !self.full(before.len()) && self.accepts(columns, doc) && !(
            self.deduplication_value(columns, doc) matches Some(v) && seen_values(
                self.deduplication_values(columns, before),
            ).contains(v)) {
                before.push(doc)
            } else {
                before
            }
        }
    }

    /// Every document that the scan gives is accepted, and lies below `n`;
    /// the scan gives no more than `max_docs`.
    pub proof fn lemma_hits(&self, columns: &SegmentColumnFields, n: nat)
        requires
            n <= u32::MAX,
        ensures
            forall|i: int|
                0 <= i < self.hits(columns, n).len() ==> self.accepts(
                    columns,
                    #[trigger] self.hits(columns, n)[i],
                ) && self.hits(columns, n)[i] < n,
            self.max_docs matches Some(m) ==> self.hits(columns, n).len() <= m,
            self.hits(columns, n).len() <= n,
        decreases n,
    {
        if n > 0 {
            self.lemma_hits(columns, (n - 1) as nat);
        }
    }

    /// Once the scan is full, it gives nothing more.
    pub proof fn lemma_hits_full(&self, columns: &SegmentColumnFields, k: nat, n: nat)
        requires
            k <= n,
            self.full(self.hits(columns, k).len()),
        ensures
            self.hits(columns, n) == self.hits(columns, k),
        decreases n,
    {
        if n > k {
            self.lemma_hits_full(columns, k, (n - 1) as nat);
        }
    }

    /// The cutoff and the deduplication lose no link but for a link that
    /// the scan gives: of a document that is accepted, either the scan
    /// gives it, or it gives an earlier document with the same
    /// deduplication value, or it is full of earlier documents. Where the
    /// documents stand best first, what the scan gives in its place is as
    /// good or better.
    pub proof fn lemma_scan_loses_nothing(&self, columns: &SegmentColumnFields, n: nat, doc: u32)
        requires
            n <= u32::MAX,
            doc < n,
            self.accepts(columns, doc),
        ensures
            ({
                let hits = self.hits(columns, n);
                ||| hits.contains(doc)
                ||| exists|i: int|
                    0 <= i < hits.len() && (#[trigger] hits[i]) < doc && self.deduplication_value(
                        columns,
                        hits[i],
                    ) is Some && self.deduplication_value(columns, hits[i])
                        == self.deduplication_value(columns, doc) && (best_first(columns, n)
                        ==> score_at(columns, hits[i]) >= score_at(columns, doc))
                ||| self.full(hits.len()) && forall|i: int|
                    0 <= i < hits.len() ==> (#[trigger] hits[i]) < doc && (best_first(columns, n)
                        ==> score_at(columns, hits[i]) >= score_at(columns, doc))
            }),
        decreases n,
    {
        let before = self.hits(columns, (n - 1) as nat);
        let hits = self.hits(columns, n);
        let last = (n - 1) as u32;
        self.lemma_hits(columns, (n - 1) as nat);
        assert(forall|i: int| 0 <= i < before.len() ==> hits[i] == before[i]);
        if doc < n - 1 {
            self.lemma_scan_loses_nothing(columns, (n - 1) as nat, doc);
            assert(best_first(columns, n) ==> best_first(columns, (n - 1) as nat));
            if before.contains(doc) {
                let i = choose|i: int| 0 <= i < before.len() && before[i] == doc;
                assert(hits[i] == doc);
            } else if self.full(before.len()) && forall|i: int|
                0 <= i < before.len() ==> (#[trigger] before[i]) < doc {
                assert(hits == before);
            } else {
                let i = choose|i: int|
                    0 <= i < before.len() && (#[trigger] before[i]) < doc
                        && self.deduplication_value(columns, before[i]) is Some
                        && self.deduplication_value(columns, before[i])
                        == self.deduplication_value(columns, doc) && (best_first(
                        columns,
                        (n - 1) as nat,
                    ) ==> score_at(columns, before[i]) >= score_at(columns, doc));
                assert(hits[i] == before[i]);
            }
        } else if self.full(before.len()) {
            assert(hits == before);
            assert forall|i: int| 0 <= i < hits.len() implies (#[trigger] hits[i]) < doc && (
            best_first(columns, n) ==> score_at(columns, hits[i]) >= score_at(columns, doc)) by {
                assert(before[i] < n - 1);
            }
        } else if self.deduplication_value(columns, doc) matches Some(v) && seen_values(
            self.deduplication_values(columns, before),
        ).contains(v) {
            let values = self.deduplication_values(columns, before);
            let v = self.deduplication_value(columns, doc)->0;
            let i = choose|i: int| 0 <= i < values.len() && #[trigger] values[i] == Some(v);
            assert(values[i] == self.deduplication_value(columns, before[i]));
            assert(before[i] < n - 1);
            assert(hits[i] == before[i]);
        } else {
            assert(hits[hits.len() - 1] == doc);
        }
    }

    /// Where every link of the node stays on one host, a scan with
    /// `skip_self_links` gives nothing.
    pub proof fn lemma_only_self_links(&self, columns: &SegmentColumnFields, n: nat)
        requires
            n <= u32::MAX,
            self.links.skip_self_links,
            forall|doc: u32|
                doc < n && #[trigger] columns.id_value(self.links.field, doc) == Some(
                    self.links.node.0,
                ) ==> self_link(columns, doc),
        ensures
            self.hits(columns, n) == Seq::<u32>::empty(),
        decreases n,
    {
        if n > 0 {
            self.lemma_only_self_links(columns, (n - 1) as nat);
        }
    }

    /// With `skip_self_links`, the scan gives no link that stays on one
    /// host.
    pub proof fn lemma_no_self_links(&self, columns: &SegmentColumnFields, n: nat)
        requires
            n <= u32::MAX,
            self.links.skip_self_links,
        ensures
            forall|i: int|
                0 <= i < self.hits(columns, n).len() ==> !self_link(
                    columns,
                    #[trigger] self.hits(columns, n)[i],
                ),
    {
        self.lemma_hits(columns, n);
    }

}

impl IndexQuery {
    /// The query for these links alone.
    pub fn new(links: LinksQuery) -> (r: IndexQuery)
        ensures
            r.links == links,
            r.must@ == Seq::<NodeFilter>::empty(),
            r.max_docs is None,
    {
        IndexQuery { links, must: Vec::new(), max_docs: None }
    }

    /// The query, stopped after `max_docs` matches in each segment.
    pub fn short_circuit(self, max_docs: u64) -> (r: IndexQuery)
        ensures
            r.links == self.links,
            r.must@ == self.must@,
            r.max_docs == Some(max_docs),
    {
        IndexQuery { links: self.links, must: self.must, max_docs: Some(max_docs) }
    }

    /// The query with the clauses `must` added, all of which a document
    /// must pass.
    pub fn with_clauses(self, must: Vec<NodeFilter>) -> (r: IndexQuery)
        ensures
            r.links == self.links,
            r.must@ == self.must@ + must@,
            r.max_docs == self.max_docs,
    {
        let mut all = self.must;
        let mut must = must;
        all.append(&mut must);
        IndexQuery { links: self.links, must: all, max_docs: self.max_docs }
    }

    fn accepts_doc(&self, columns: &SegmentColumnFields, doc: u32) -> (r: bool)
        ensures
            r == self@.accepts(columns, doc),
    {
        let value = match columns.u128(self.links.field) {
            Some(column) => column.first(doc),
            None => None,
        };
        if value != Some(self.links.node.0) {
            return false;
        }
        if self.links.skip_self_links {
            let from = match columns.u128(FieldEnum::FromHostId) {
                Some(column) => column.first(doc),
                None => None,
            };
            let to = match columns.u128(FieldEnum::ToHostId) {
                Some(column) => column.first(doc),
                None => None,
            };
            if from.is_some() && from == to {
                return false;
            }
        }
        let mut i: usize = 0;
        while i < self.must.len()
            invariant
                i <= self.must.len(),
                forall|j: int|
                    0 <= j < i ==> columns.id_value((#[trigger] self.must@[j]).field, doc) == Some(
                        self.must@[j].node.0,
                    ),
            decreases self.must.len() - i,
        {
            let clause = self.must[i];
            let v = match columns.u128(clause.field) {
                Some(column) => column.first(doc),
                None => None,
            };
            if v != Some(clause.node.0) {
                proof {
                    assert(columns.id_value(self.must@[i as int].field, doc) != Some(
                        self.must@[i as int].node.0,
                    ));
                }
                return false;
            }
            i += 1;
        }
        true
    }

    /// Scans a segment of `max_doc` documents.
    pub fn search_segment(&self, columns: &SegmentColumnFields, max_doc: u32) -> (r: Vec<u32>)
        ensures
            r@ == self@.hits(columns, max_doc as nat),
    {
        broadcast use vstd::std_specs::hash::group_hash_axioms;

        let mut found: Vec<u32> = Vec::new();
        let mut seen: HashSet<u128> = HashSet::new();
        let mut doc: u32 = 0;
        proof {
            assert(seen_values(self@.deduplication_values(columns, found@)) =~= Set::<u128>::empty());
        }
        while doc < max_doc
            invariant
                doc <= max_doc,
                found@ == self@.hits(columns, doc as nat),
                seen@ == seen_values(self@.deduplication_values(columns, found@)),
            decreases max_doc - doc,
        {
            let full = match self.max_docs {
                Some(m) => found.len() as u64 >= m,
                None => false,
            };
            if full {
                proof {
                    self@.lemma_hits_full(columns, doc as nat, max_doc as nat);
                }
                return found;
            }
            if self.accepts_doc(columns, doc) {
                let value = match self.links.deduplication_field {
                    Some(field) => match columns.u128(field) {
                        Some(column) => column.first(doc),
                        None => None,
                    },
                    None => None,
                };
                let ghost before = found@;
                let duplicate = match value {
                    Some(v) => seen.contains(&v),
                    None => false,
                };
                if !duplicate {
                    found.push(doc);
                    match value {
                        Some(v) => {
                            seen.insert(v);
                        },
                        None => {},
                    }
                    proof {
                        lemma_seen_values_push(self@.deduplication_values(columns, before), value);
                        assert(self@.deduplication_values(columns, found@)
                            =~= self@.deduplication_values(columns, before).push(value));
                    }
                }
            }
            doc += 1;
        }
        found
    }
}

} // verus!
