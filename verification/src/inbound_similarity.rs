//! For each node, the nodes that link to it: what two nodes have in common
//! there says how similar they are.

use crate::edge::SmallEdge;
use crate::node::NodeID;
use crate::ordered_map::{empty_map, lookup, put, take};
use std::collections::BTreeMap;
use vstd::prelude::*;

verus! {

/// Each element is smaller than the next.
pub open spec fn strictly_increasing(s: Seq<u128>) -> bool {
    forall|i: int, j: int| 0 <= i < j < s.len() ==> #[trigger] s[i] < #[trigger] s[j]
}

/// A set of nodes, held in the order of their identities.
#[derive(Debug, PartialEq, Eq)]
pub struct BitVec {
    bits: Vec<u128>,
}

impl View for BitVec {
    type V = Seq<u128>;

    closed spec fn view(&self) -> Seq<u128> {
        self.bits@
    }
}

impl BitVec {
    #[verifier::type_invariant]
    spec fn ordered(&self) -> bool {
        strictly_increasing(self.bits@)
    }

    /// The set without nodes.
    pub fn empty() -> (r: BitVec)
        ensures
            r@ == Seq::<u128>::empty(),
    {
        BitVec { bits: Vec::new() }
    }

    /// The set of these nodes.
    pub fn new(nodes: Vec<u128>) -> (r: BitVec)
        ensures
            r@.to_set() == nodes@.to_set(),
    {
        let mut bits = BitVec::empty();
        let mut i: usize = 0;
        proof {
            assert(nodes@.take(0).to_set() =~= Seq::<u128>::empty().to_set());
        }
        while i < nodes.len()
            invariant
                i <= nodes.len(),
                bits@.to_set() == nodes@.take(i as int).to_set(),
            decreases nodes.len() - i,
        {
            proof {
                nodes@.take(i as int).lemma_push_to_set_commute(nodes@[i as int]);
                assert(nodes@.take(i + 1) =~= nodes@.take(i as int).push(nodes@[i as int]));
            }
            bits = bits.with(nodes[i]);
            i += 1;
        }
        proof {
            assert(nodes@.take(i as int) =~= nodes@);
        }
        bits
    }

    /// The nodes in order.
    pub fn as_slice(&self) -> (r: &[u128])
        ensures
            r@ == self@,
            strictly_increasing(self@),
    {
        proof {
            use_type_invariant(self);
        }
        self.bits.as_slice()
    }

    /// The number of nodes.
    pub fn len(&self) -> (r: usize)
        ensures
            r == self@.len(),
            r == self@.to_set().len(),
    {
        proof {
            use_type_invariant(self);
            lemma_increasing_distinct(self.bits@);
            self.bits@.unique_seq_to_set();
        }
        self.bits.len()
    }

    /// Whether `node` is in the set.
    pub fn contains(&self, node: u128) -> (r: bool)
        ensures
            r == self@.contains(node),
    {
        let mut i: usize = 0;
        while i < self.bits.len()
            invariant
                i <= self.bits.len(),
                forall|k: int| 0 <= k < i ==> self.bits@[k] != node,
            decreases self.bits.len() - i,
        {
            if self.bits[i] == node {
                return true;
            }
            i += 1;
        }
        false
    }

    /// The set with `node` in it.
    pub fn with(self, node: u128) -> (r: BitVec)
        ensures
            r@.to_set() == self@.to_set().insert(node),
            strictly_increasing(r@),
    {
        proof {
            use_type_invariant(&self);
        }
        let mut bits = self.bits;
        let ghost before = bits@;
        let mut i: usize = 0;
        while i < bits.len() && bits[i] < node
            invariant
                i <= bits.len(),
                bits@ == before,
                forall|k: int| 0 <= k < i ==> bits@[k] < node,
            decreases bits.len() - i,
        {
            i += 1;
        }
        if i < bits.len() && bits[i] == node {
            proof {
                assert(before.contains(before[i as int]));
                assert(before.to_set() =~= before.to_set().insert(node));
            }
            return BitVec { bits };
        }
        bits.insert(i, node);
        proof {
            let after = bits@;
            assert forall|a: int, b: int| 0 <= a < b < after.len() implies #[trigger] after[a]
                < #[trigger] after[b] by {
                let x = if a < i {
                    a
                } else {
                    a - 1
                };
                let y = if b < i {
                    b
                } else {
                    b - 1
                };
                if a != i && b != i {
                    assert(before[x] < before[y]);
                } else if a == i {
                    assert(before[i as int] <= before[y]) by {
                        if i < y {
                            assert(before[i as int] < before[y]);
                        }
                    }
                }
            }
            assert forall|v: u128| after.to_set().contains(v) == before.to_set().insert(node).contains(
                v,
            ) by {
                if after.contains(v) {
                    let k = choose|k: int| 0 <= k < after.len() && after[k] == v;
                    if k < i {
                        assert(before[k] == v);
                        assert(before.contains(v));
                    } else if k > i {
                        assert(before[k - 1] == v);
                        assert(before.contains(v));
                    }
                }
                if before.contains(v) {
                    let k = choose|k: int| 0 <= k < before.len() && before[k] == v;
                    if k < i {
                        assert(after[k] == v);
                    } else {
                        assert(after[k + 1] == v);
                    }
                }
                if v == node {
                    assert(after[i as int] == v);
                }
            }
            assert(after.to_set() =~= before.to_set().insert(node));
        }
        BitVec { bits }
    }

    /// The number of nodes that are in both sets.
    pub fn intersection_count(&self, other: &BitVec) -> (r: usize)
        ensures
            r == self@.to_set().intersect(other@.to_set()).len(),
    {
        proof {
            use_type_invariant(self);
            use_type_invariant(other);
        }
        let a = &self.bits;
        let b = &other.bits;
        let ghost mut common: Seq<u128> = Seq::empty();
        let mut count: usize = 0;
        let mut i: usize = 0;
        let mut j: usize = 0;
        while i < a.len() && j < b.len()
            invariant
                i <= a.len(),
                j <= b.len(),
                strictly_increasing(a@),
                strictly_increasing(b@),
                count == common.len(),
                count <= i,
                strictly_increasing(common),
                forall|k: int| 0 <= k < common.len() ==> a@.contains(#[trigger] common[k]) && b@.contains(common[k]),
                forall|k: int|
                    0 <= k < common.len() && i < a.len() ==> (#[trigger] common[k]) < a@[i as int],
                forall|k: int| 0 <= k < i && b@.contains(#[trigger] a@[k]) ==> common.contains(a@[k]),
                forall|k: int| 0 <= k < j && a@.contains(#[trigger] b@[k]) ==> common.contains(b@[k]),
                i < a.len() && j > 0 ==> b@[j - 1] < a@[i as int],
                j < b.len() && i > 0 ==> a@[i - 1] < b@[j as int],
            decreases a.len() - i + b.len() - j,
        {
            let x = a[i];
            let y = b[j];
            let ghost old_common = common;
            if x < y {
                proof {
                    assert(!b@.contains(x)) by {
                        if b@.contains(x) {
                            let k = choose|k: int| 0 <= k < b@.len() && b@[k] == x;
                            if k < j {
                                if k < j - 1 {
                                    assert(b@[k] < b@[j - 1]);
                                }
                            } else if k > j {
                                assert(b@[j as int] < b@[k]);
                            }
                        }
                    }
                    if i + 1 < a.len() {
                        assert(a@[i as int] < a@[i + 1]);
                    }
                }
                i += 1;
            } else if y < x {
                proof {
                    assert(!a@.contains(y)) by {
                        if a@.contains(y) {
                            let k = choose|k: int| 0 <= k < a@.len() && a@[k] == y;
                            if k < i {
                                if k < i - 1 {
                                    assert(a@[k] < a@[i - 1]);
                                }
                            } else if k > i {
                                assert(a@[i as int] < a@[k]);
                            }
                        }
                    }
                    if j + 1 < b.len() {
                        assert(b@[j as int] < b@[j + 1]);
                    }
                }
                j += 1;
            } else {
                proof {
                    common = common.push(x);
                    assert(a@.contains(a@[i as int]));
                    assert(b@.contains(b@[j as int]));
                    assert forall|k: int, l: int| 0 <= k < l < common.len() implies #[trigger] common[k]
                        < #[trigger] common[l] by {
                        if l < old_common.len() {
                            assert(old_common[k] < old_common[l]);
                        } else {
                            assert(old_common[k] < a@[i as int]);
                        }
                    }
                    assert forall|k: int|
                        0 <= k < i + 1 && b@.contains(#[trigger] a@[k]) implies common.contains(
                        a@[k],
                    ) by {
                        if k < i {
                            let m = choose|m: int| 0 <= m < old_common.len() && old_common[m] == a@[k];
                            assert(common[m] == a@[k]);
                        } else {
                            assert(common[old_common.len() as int] == x);
                        }
                    }
                    assert forall|k: int|
                        0 <= k < j + 1 && a@.contains(#[trigger] b@[k]) implies common.contains(
                        b@[k],
                    ) by {
                        if k < j {
                            let m = choose|m: int| 0 <= m < old_common.len() && old_common[m] == b@[k];
                            assert(common[m] == b@[k]);
                        } else {
                            assert(common[old_common.len() as int] == y);
                        }
                    }
                    if i + 1 < a.len() {
                        assert(a@[i as int] < a@[i + 1]);
                    }
                    if j + 1 < b.len() {
                        assert(b@[j as int] < b@[j + 1]);
                    }
                }
                count += 1;
                i += 1;
                j += 1;
            }
        }
        proof {
            let both = a@.to_set().intersect(b@.to_set());
            assert forall|v: u128| common.to_set().contains(v) == both.contains(v) by {
                if common.contains(v) {
                    let k = choose|k: int| 0 <= k < common.len() && common[k] == v;
                    assert(a@.contains(common[k]));
                }
                if a@.contains(v) && b@.contains(v) {
                    let k = choose|k: int| 0 <= k < a@.len() && a@[k] == v;
                    let l = choose|l: int| 0 <= l < b@.len() && b@[l] == v;
                    if i == a.len() {
                        assert(b@.contains(a@[k]));
                    } else {
                        assert(a@.contains(b@[l]));
                    }
                }
            }
            assert(common.to_set() =~= both);
            lemma_increasing_distinct(common);
            common.unique_seq_to_set();
        }
        count
    }
}

/// A sequence that gets larger from element to element holds nothing
/// twice.
pub proof fn lemma_increasing_distinct(s: Seq<u128>)
    requires
        strictly_increasing(s),
    ensures
        s.no_duplicates(),
{
    assert forall|i: int, j: int| 0 <= i < s.len() && 0 <= j < s.len() && i != j implies s[i]
        != s[j] by {
        if i < j {
            assert(s[i] < s[j]);
        } else {
            assert(s[j] < s[i]);
        }
    }
}

/// The nodes that link to `node`.
pub open spec fn inbound(edges: Seq<SmallEdge>, node: u128) -> Set<u128>
    decreases edges.len(),
{
    if edges.len() == 0 {
        Set::empty()
    } else if edges.last().to.0 == node {
        inbound(edges.drop_last(), node).insert(edges.last().from.0)
    } else {
        inbound(edges.drop_last(), node)
    }
}

/// Whether a link points to `node`.
pub open spec fn linked_to(edges: Seq<SmallEdge>, node: u128) -> bool {
    exists|i: int| 0 <= i < edges.len() && (#[trigger] edges[i]).to.0 == node
}

/// For each node that is linked to, the nodes that link to it.
#[derive(Debug)]
pub struct InboundSimilarity {
    vectors: BTreeMap<u128, BitVec>,
}

impl InboundSimilarity {
    /// The nodes that link to each node.
    pub closed spec fn vectors(&self) -> Map<u128, BitVec> {
        self.vectors@
    }

    /// Whether the vectors are those of the links `edges`: every node that
    /// a link points to has a vector, which holds the nodes that link to
    /// it.
    pub open spec fn built_from(&self, edges: Seq<SmallEdge>) -> bool {
        &&& forall|node: u128| #[trigger] self.vectors().contains_key(node) <==> linked_to(edges, node)
        &&& forall|node: u128| #[trigger]
            self.vectors().contains_key(node) ==> self.vectors()[node]@.to_set() == inbound(
                edges,
                node,
            )
    }

    /// Builds the vectors from the links of a graph.
    pub fn build(edges: &Vec<SmallEdge>) -> (r: InboundSimilarity)
        ensures
            r.built_from(edges@),
    {
        let mut vectors: BTreeMap<u128, BitVec> = empty_map();
        let mut i: usize = 0;
        while i < edges.len()
            invariant
                i <= edges.len(),
                forall|node: u128| #[trigger]
                    vectors@.contains_key(node) <==> linked_to(edges@.take(i as int), node),
                forall|node: u128| #[trigger]
                    vectors@.contains_key(node) ==> vectors@[node]@.to_set() == inbound(
                        edges@.take(i as int),
                        node,
                    ),
            decreases edges.len() - i,
        {
            let edge = edges[i];
            let ghost before = vectors@;
            let ghost done = edges@.take(i as int);
            let ghost next = edges@.take(i + 1);
            proof {
                assert(next.drop_last() =~= done);
                assert(next.last() == edge);
            }
            let inbound_nodes = match take(&mut vectors, edge.to.0) {
                Some(inbound_nodes) => inbound_nodes,
                None => BitVec::empty(),
            };
            proof {
                if !before.contains_key(edge.to.0) {
                    assert(inbound_nodes@.to_set() =~= Set::<u128>::empty());
                    lemma_inbound_none(done, edge.to.0);
                }
            }
            let inbound_nodes = inbound_nodes.with(edge.from.0);
            put(&mut vectors, edge.to.0, inbound_nodes);
            proof {
                assert forall|node: u128| #[trigger] vectors@.contains_key(node) <==> linked_to(
                    next,
                    node,
                ) by {
                    if linked_to(next, node) {
                        let k = choose|k: int| 0 <= k < next.len() && (#[trigger] next[k]).to.0 == node;
                        if k < done.len() {
                            assert(done[k].to.0 == node);
                        }
                    }
                    if before.contains_key(node) {
                        let k = choose|k: int| 0 <= k < done.len() && (#[trigger] done[k]).to.0 == node;
                        assert(next[k].to.0 == node);
                    }
                    if node == edge.to.0 {
                        assert(next[i as int].to.0 == node);
                    }
                }
            }
            i += 1;
        }
        proof {
            assert(edges@.take(i as int) =~= edges@);
        }
        InboundSimilarity { vectors }
    }

    /// The vectors as they are given.
    pub fn from_vectors(vectors: BTreeMap<u128, BitVec>) -> (r: InboundSimilarity)
        ensures
            r.vectors() == vectors@,
    {
        InboundSimilarity { vectors }
    }

    /// The vectors.
    pub fn into_vectors(self) -> (r: BTreeMap<u128, BitVec>)
        ensures
            r@ == self.vectors(),
    {
        self.vectors
    }

    /// The nodes that link to `node`, if any does.
    pub fn get(&self, node: &NodeID) -> (r: Option<&BitVec>)
        ensures
            match r {
                Some(v) => self.vectors().contains_key(node.0) && self.vectors()[node.0] == *v,
                None => !self.vectors().contains_key(node.0),
            },
    {
        lookup(&self.vectors, node.0)
    }

    /// Whether a node links to `node_id`.
    pub fn knows_about(&self, node_id: NodeID) -> (r: bool)
        ensures
            r == self.vectors().contains_key(node_id.0),
    {
        lookup(&self.vectors, node_id.0).is_some()
    }
}

proof fn lemma_inbound_none(edges: Seq<SmallEdge>, node: u128)
    requires
        !linked_to(edges, node),
    ensures
        inbound(edges, node) == Set::<u128>::empty(),
    decreases edges.len(),
{
    if edges.len() > 0 {
        assert(edges[edges.len() - 1].to.0 != node);
        assert forall|k: int| 0 <= k < edges.len() - 1 implies (#[trigger] edges.drop_last()[k]).to.0
            != node by {
            assert(edges[k].to.0 != node);
        }
        lemma_inbound_none(edges.drop_last(), node);
    }
}

} // verus!
