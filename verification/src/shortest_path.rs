//! Distances in hops from some nodes to all that can be reached from them.

use crate::distances::{distance_or_max, no_distances, record};
use crate::distances::distance_of;
use crate::edge::{Edge, EdgeLimit, SmallEdge};
use crate::node::{host_of, name_hash, Node};
use crate::searcher::Searcher;
use crate::segment_reader::SegmentReader;
use std::collections::HashSet;
use crate::query::backlink::{BacklinksQuery, HostBacklinksQuery};
use crate::query::forwardlink::{ForwardlinksQuery, HostForwardlinksQuery};
use crate::webgraph::{Webgraph, WebgraphGranularity};
use crate::min_queue::{at_most, MinQueue};
use crate::node::NodeID;
use std::collections::BTreeMap;
use vstd::multiset::Multiset;
use vstd::prelude::*;

verus! {

/// The largest distance that is recorded: distances are held in 8 bits,
/// and the largest 8-bit number stands for "not reached".
pub const MAX_DISTANCE: u8 = 254;

/// The largest distance that a search records: `max_dist` where it is
/// given and smaller than `MAX_DISTANCE`.
pub open spec fn farthest(max_dist: Option<u8>) -> nat {
    match max_dist {
        Some(m) => if m < MAX_DISTANCE {
            m as nat
        } else {
            MAX_DISTANCE as nat
        },
        None => MAX_DISTANCE as nat,
    }
}

/// A graph, as far as distances need it: for each node, the nodes that its
/// edges lead to.
pub trait Graph {
    /// What the graph must fulfil to be asked.
    spec fn valid(&self) -> bool;

    /// The far ends of the edges of `node`.
    spec fn hops(&self, node: NodeID) -> Seq<NodeID>;

    /// The far ends of the edges of `node`.
    fn neighbors(&self, node: NodeID) -> (r: Vec<NodeID>)
        requires
            self.valid(),
        ensures
            r@ == self.hops(node),
    ;
}

/// The relation between the two ends of an edge of a graph.
pub open spec fn link_of<G: Graph>(graph: &G) -> spec_fn(NodeID, NodeID) -> bool {
    |v: NodeID, w: NodeID| graph.hops(v).contains(w)
}

/// Whether `w` can be reached from one of `sources` over no more than `n`
/// edges, where `link` says which nodes an edge leads between.
pub open spec fn within(
    link: spec_fn(NodeID, NodeID) -> bool,
    sources: Seq<NodeID>,
    w: NodeID,
    n: nat,
) -> bool
    decreases n,
{
    if n == 0 {
        sources.contains(w)
    } else {
        within(link, sources, w, (n - 1) as nat) || exists|v: NodeID|
            within(link, sources, v, (n - 1) as nat) && #[trigger] link(v, w)
    }
}

/// Whether `d` is the distance of `w`: the least number of edges over which
/// `w` can be reached from one of `sources`.
pub open spec fn is_distance(
    link: spec_fn(NodeID, NodeID) -> bool,
    sources: Seq<NodeID>,
    w: NodeID,
    d: nat,
) -> bool {
    within(link, sources, w, d) && (d > 0 ==> !within(link, sources, w, (d - 1) as nat))
}

/// What can be reached over `n` edges can be reached over more.
pub proof fn lemma_within_more(
    link: spec_fn(NodeID, NodeID) -> bool,
    sources: Seq<NodeID>,
    w: NodeID,
    n: nat,
    m: nat,
)
    requires
        n <= m,
        within(link, sources, w, n),
    ensures
        within(link, sources, w, m),
    decreases m,
{
    if n < m {
        lemma_within_more(link, sources, w, n, (m - 1) as nat);
    }
}

/// The distance of a node is no more than the number of edges of any way
/// to it.
pub proof fn lemma_distance_least(
    link: spec_fn(NodeID, NodeID) -> bool,
    sources: Seq<NodeID>,
    w: NodeID,
    d: nat,
    n: nat,
)
    requires
        is_distance(link, sources, w, d),
        within(link, sources, w, n),
    ensures
        d <= n,
{
    if n < d {
        lemma_within_more(link, sources, w, n, (d - 1) as nat);
    }
}

/// Whether `distances` holds, for each node that can be reached from one of
/// `sources` over no more than `far` edges, its distance, and holds nothing
/// else.
pub open spec fn holds_distances(
    distances: Map<u128, u8>,
    link: spec_fn(NodeID, NodeID) -> bool,
    sources: Seq<NodeID>,
    far: nat,
) -> bool {
    &&& forall|k: u128| #[trigger]
        distances.contains_key(k) <==> within(link, sources, NodeID(k), far)
    &&& forall|k: u128| #[trigger]
        distances.contains_key(k) ==> is_distance(link, sources, NodeID(k), distances[k] as nat)
}

/// Every recorded distance is the distance of its node, and none is larger
/// than `far` or than one more than `level`.
spec fn recorded<G: Graph>(
    graph: &G,
    sources: Seq<NodeID>,
    distances: Map<u128, u8>,
    far: nat,
    level: nat,
) -> bool {
    forall|k: u128| #[trigger]
        distances.contains_key(k) ==> is_distance(link_of(graph),
            sources,
            NodeID(k),
            distances[k] as nat,
        ) && distances[k] <= level + 1 && distances[k] <= far
}

/// Every node that can be reached over `level` edges has a recorded
/// distance.
spec fn complete<G: Graph>(
    graph: &G,
    sources: Seq<NodeID>,
    distances: Map<u128, u8>,
    level: nat,
) -> bool {
    forall|w: NodeID| #[trigger]
        within(link_of(graph), sources, w, level) ==> distances.contains_key(w.0)
}

/// Every entry of the queue holds the recorded distance of its node, which
/// is `level` or one more.
spec fn queued(queue: Multiset<(u8, u128)>, distances: Map<u128, u8>, level: nat) -> bool {
    forall|e: (u8, u128)| #[trigger]
        queue.count(e) > 0 ==> distances.contains_key(e.1) && distances[e.1] == e.0 && level
            <= e.0 <= level + 1
}

/// Whether the ends of all edges of `u` have a recorded distance, unless
/// they lie too far.
spec fn expanded<G: Graph>(
    graph: &G,
    distances: Map<u128, u8>,
    far: nat,
    u: u128,
) -> bool {
    distances[u] + 1 <= far ==> forall|w: NodeID| #[trigger]
        link_of(graph)(NodeID(u), w) ==> distances.contains_key(w.0)
}

/// Every node with a recorded distance, but possibly `except`, is in the
/// queue or expanded.
spec fn pending<G: Graph>(
    graph: &G,
    queue: Multiset<(u8, u128)>,
    distances: Map<u128, u8>,
    far: nat,
    except: Option<u128>,
) -> bool {
    forall|u: u128| #[trigger]
        distances.contains_key(u) && except != Some(u) ==> queue.count((distances[u], u)) > 0
            || expanded(graph, distances, far, u)
}

/// The number of 128-bit numbers.
spec fn key_count() -> int {
    u128::MAX as int + 1
}

/// No set of 128-bit numbers has more than 2^128 elements.
proof fn lemma_keys_bounded(keys: Set<u128>)
    requires
        keys.finite(),
    ensures
        keys.len() <= key_count(),
{
    let f = |k: u128| k as int;
    let image = keys.map(f);
    assert(vstd::relations::injective_on(f, keys));
    vstd::set_lib::lemma_map_size(keys, image, f);
    vstd::set_lib::lemma_int_range(0, key_count());
    assert(image.subset_of(vstd::set_lib::set_int_range(0, key_count()))) by {
        assert forall|x: int| image.contains(x) implies 0 <= x
            < key_count() by {
            let k = choose|k: u128| keys.contains(k) && f(k) == x;
        }
    }
    vstd::set_lib::lemma_len_subset(
        image,
        vstd::set_lib::set_int_range(0, key_count()),
    );
}

/// What is left to do: twice the number of nodes without a recorded
/// distance, and the entries of the queue.
spec fn work(queue: Multiset<(u8, u128)>, distances: Map<u128, u8>) -> int {
    2 * (key_count() - distances.dom().len()) + queue.len()
}

/// When the least entry of the queue lies one level up, every node of the
/// level below is expanded, so every node that can be reached over one more
/// edge has a recorded distance.
proof fn lemma_next_level<G: Graph>(
    graph: &G,
    sources: Seq<NodeID>,
    queue: Multiset<(u8, u128)>,
    distances: Map<u128, u8>,
    far: nat,
    level: nat,
    least: (u8, u128),
)
    requires
        recorded(graph, sources, distances, far, level),
        complete(graph, sources, distances, level),
        queued(queue, distances, level),
        pending(graph, queue, distances, far, None),
        queue.count(least) > 0,
        forall|e: (u8, u128)| queue.count(e) > 0 ==> at_most(least, e),
        least.0 == level + 1,
    ensures
        complete(graph, sources, distances, level + 1),
        queued(queue, distances, level + 1),
        recorded(graph, sources, distances, far, level + 1),
{
    assert(distances.contains_key(least.1) && distances[least.1] == least.0);
    assert forall|w: NodeID| #[trigger]
        within(link_of(graph), sources, w, level + 1) implies distances.contains_key(
        w.0,
    ) by {
        if !within(link_of(graph), sources, w, level) {
            let v = choose|v: NodeID|
                within(link_of(graph), sources, v, level) && #[trigger] link_of(graph)(v, w);
            let u = v.0;
            assert(distances.contains_key(u));
            lemma_distance_least(link_of(graph), sources, v, distances[u] as nat, level);
            if queue.count((distances[u], u)) > 0 {
                assert(at_most(least, (distances[u], u)));
            }
            assert(expanded(graph, distances, far, u));
            assert(link_of(graph)(NodeID(u), w));
        }
    }
    assert forall|e: (u8, u128)| #[trigger] queue.count(e) > 0 implies distances.contains_key(e.1)
        && distances[e.1] == e.0 && level + 1 <= e.0 <= level + 2 by {
        assert(at_most(least, e));
    }
}

/// Once the queue is empty, every node that can be reached over no more
/// than `far` edges has a recorded distance.
proof fn lemma_all_reached<G: Graph>(
    graph: &G,
    sources: Seq<NodeID>,
    distances: Map<u128, u8>,
    far: nat,
    level: nat,
    w: NodeID,
    n: nat,
)
    requires
        recorded(graph, sources, distances, far, level),
        complete(graph, sources, distances, level),
        pending(graph, Multiset::empty(), distances, far, None),
        within(link_of(graph), sources, w, n),
        n <= far,
    ensures
        distances.contains_key(w.0),
    decreases n,
{
    if n == 0 {
        lemma_within_more(link_of(graph), sources, w, 0, level);
    } else if within(link_of(graph), sources, w, (n - 1) as nat) {
        lemma_all_reached(graph, sources, distances, far, level, w, (n - 1) as nat);
    } else {
        let v = choose|v: NodeID|
            within(link_of(graph), sources, v, (n - 1) as nat) && #[trigger] link_of(graph)(v, w);
        lemma_all_reached(graph, sources, distances, far, level, v, (n - 1) as nat);
        let u = v.0;
        assert(distances.contains_key(u));
        lemma_distance_least(link_of(graph),
            sources,
            v,
            distances[u] as nat,
            (n - 1) as nat,
        );
        assert(Multiset::<(u8, u128)>::empty().count((distances[u], u)) == 0);
        assert(expanded(graph, distances, far, u));
        assert(link_of(graph)(NodeID(u), w));
    }
}

/// The distances from `sources` to the nodes that can be reached from them
/// in a graph. Every edge counts for one. A node that lies farther than
/// `max_dist`, or than `MAX_DISTANCE`, gets no distance.
pub fn shortest_distances<G: Graph>(graph: &G, sources: &[NodeID], max_dist: Option<u8>) -> (distances:
    BTreeMap<u128, u8>)
    requires
        graph.valid(),
    ensures
        holds_distances(distances@, link_of(graph), sources@, farthest(max_dist)),
{
    broadcast use {
        vstd::multiset::group_multiset_axioms,
        vstd::set::group_set_axioms,
        vstd::map::group_map_axioms,
    };

    let ghost far = farthest(max_dist);
    let mut distances: BTreeMap<u128, u8> = no_distances();
    let mut queue = MinQueue::new();
    let mut i: usize = 0;
    while i < sources.len()
        invariant
            i <= sources.len(),
            queue.wf(),
            distances@.dom().finite(),
            forall|k: u128| #[trigger]
                distances@.contains_key(k) ==> distances@[k] == 0 && sources@.contains(NodeID(k))
                    && queue@.count((0u8, k)) > 0,
            forall|j: int| 0 <= j < i ==> distances@.contains_key((#[trigger] sources@[j]).0),
            forall|e: (u8, u128)| #[trigger]
                queue@.count(e) > 0 ==> e.0 == 0 && distances@.contains_key(e.1),
        decreases sources.len() - i,
    {
        let source_id = sources[i];
        queue.push((0, source_id.0));
        record(&mut distances, source_id.0, 0);
        proof {
            assert(sources@[i as int] == NodeID(source_id.0));
        }
        i += 1;
    }
    let ghost mut level: nat = 0;
    proof {
        assert forall|w: NodeID| #[trigger]
            within(link_of(graph), sources@, w, 0) implies distances@.contains_key(w.0) by {
            let j = choose|j: int| 0 <= j < sources@.len() && sources@[j] == w;
            assert(distances@.contains_key(sources@[j].0));
        }
    }
    while queue.len() > 0
        invariant
            graph.valid(),
            far == farthest(max_dist),
            queue.wf(),
            distances@.dom().finite(),
            recorded(graph, sources@, distances@, far, level),
            complete(graph, sources@, distances@, level),
            queued(queue@, distances@, level),
            pending(graph, queue@, distances@, far, None),
        decreases work(queue@, distances@),
    {
        let ghost before = queue@;
        let ghost start = work(queue@, distances@);
        proof {
            lemma_keys_bounded(distances@.dom());
        }
        let state = queue.pop().unwrap();
        let cost = state.0;
        let v = state.1;
        let current_dist = distance_or_max(&distances, v);
        if cost > current_dist {
            // a shorter way to the node was found after this entry was queued
            continue ;
        }
        proof {
            assert(before.count(state) > 0);
            if cost > level {
                lemma_next_level(graph, sources@, before, distances@, far, level, state);
                level = level + 1;
            }
            assert(cost == level);
            assert forall|e: (u8, u128)| #[trigger]
                queue@.count(e) > 0 implies distances@.contains_key(e.1) && distances@[e.1] == e.0
                && level <= e.0 <= level + 1 by {
                assert(before.count(e) > 0);
            }
        }
        match max_dist {
            Some(max_dist) => {
                if cost >= max_dist {
                    // every entry that is left lies as far or farther
                    proof {
                        assert(far == cost);
                        assert forall|k: u128| #[trigger]
                            distances@.contains_key(k) implies within(
                            link_of(graph),
                            sources@,
                            NodeID(k),
                            far,
                        ) by {
                            lemma_within_more(
                                link_of(graph),
                                sources@,
                                NodeID(k),
                                distances@[k] as nat,
                                far,
                            );
                        }
                        assert forall|k: u128|
                            within(
                                link_of(graph),
                                sources@,
                                NodeID(k),
                                far,
                            ) implies #[trigger] distances@.contains_key(k) by {
                            assert(NodeID(k).0 == k);
                        }
                    }
                    return distances;
                }
            },
            None => {},
        }
        let ends = graph.neighbors(NodeID(v));
        let mut j: usize = 0;
        proof {
            assert forall|u: u128| #[trigger]
                distances@.contains_key(u) && Some(v) != Some(u) implies queue@.count(
                (distances@[u], u),
            ) > 0 || expanded(graph, distances@, far, u) by {
                if before.count((distances@[u], u)) > 0 {
                    assert((distances@[u], u) != state);
                }
            }
        }
        while j < ends.len()
            invariant
                j <= ends.len(),
                graph.valid(),
                far == farthest(max_dist),
                ends@ == graph.hops(NodeID(v)),
                queue.wf(),
                distances@.dom().finite(),
                cost == level,
                distances@.contains_key(v),
                distances@[v] == cost,
                max_dist matches Some(m) ==> cost < m,
                recorded(graph, sources@, distances@, far, level),
                complete(graph, sources@, distances@, level),
                queued(queue@, distances@, level),
                pending(graph, queue@, distances@, far, Some(v)),
                forall|jj: int|
                    0 <= jj < j && cost + 1 <= far ==> distances@.contains_key(
                        (#[trigger] ends@[jj]).0,
                    ),
                work(queue@, distances@) < start,
            decreases ends.len() - j,
        {
            let w = ends[j];
            let known = distance_or_max(&distances, w.0);
            let ghost old_distances = distances@;
            let ghost old_queue = queue@;
            if cost + 1 < known {
                let d = cost + 1;
                proof {
                    // the node has no distance yet: a recorded one would be no larger
                    assert(!old_distances.contains_key(w.0));
                    lemma_keys_bounded(old_distances.dom().insert(w.0));
                }
                queue.push((d, w.0));
                record(&mut distances, w.0, d);
                proof {
                    let ghost map = distances@;
                    assert(map == old_distances.insert(w.0, d));
                    assert(graph.hops(NodeID(v)).contains(ends@[j as int]));
                    assert(link_of(graph)(NodeID(v), w));
                    assert(NodeID(w.0) == w);
                    assert(within(link_of(graph), sources@, NodeID(v), cost as nat));
                    assert(within(link_of(graph), sources@, w, d as nat));
                    assert(!within(link_of(graph), sources@, w, cost as nat));
                    assert forall|k: u128| #[trigger] map.contains_key(k) implies is_distance(
                        link_of(graph),
                        sources@,
                        NodeID(k),
                        map[k] as nat,
                    ) && map[k] <= level + 1 && map[k] <= far by {
                        if k != w.0 {
                            assert(old_distances.contains_key(k));
                        }
                    }
                    assert forall|x: NodeID| #[trigger]
                        within(link_of(graph), sources@, x, level) implies map.contains_key(
                        x.0,
                    ) by {
                        assert(old_distances.contains_key(x.0));
                    }
                    assert forall|e: (u8, u128)| #[trigger]
                        queue@.count(e) > 0 implies map.contains_key(e.1) && map[e.1] == e.0
                        && level <= e.0 <= level + 1 by {
                        if e != (d, w.0) {
                            assert(old_queue.count(e) > 0);
                        }
                    }
                    assert forall|u: u128| #[trigger]
                        map.contains_key(u) && Some(v) != Some(u) implies queue@.count(
                        (map[u], u),
                    ) > 0 || expanded(graph, map, far, u) by {
                        if u != w.0 {
                            assert(old_distances.contains_key(u));
                            if old_queue.count((old_distances[u], u)) == 0 {
                                assert(expanded(graph, old_distances, far, u));
                                assert forall|x: NodeID| #[trigger]
                                    link_of(graph)(NodeID(u), x) && old_distances[u] + 1
                                        <= far implies map.contains_key(x.0) by {
                                    assert(old_distances.contains_key(x.0));
                                }
                            }
                        }
                    }
                    assert forall|jj: int| 0 <= jj < j + 1 && cost + 1 <= far implies map.contains_key(
                        (#[trigger] ends@[jj]).0,
                    ) by {
                        if jj < j {
                            assert(old_distances.contains_key(ends@[jj].0));
                        }
                    }
                }
            }
            j += 1;
        }
        proof {
            assert(expanded(graph, distances@, far, v)) by {
                assert forall|w: NodeID| #[trigger]
                    link_of(graph)(NodeID(v), w) && distances@[v] + 1
                        <= far implies distances@.contains_key(w.0) by {
                    let idx = choose|idx: int| 0 <= idx < ends@.len() && ends@[idx] == w;
                    assert(distances@.contains_key(ends@[idx].0));
                }
            }
            lemma_keys_bounded(distances@.dom());
            assert(0 <= work(queue@, distances@) < start);
        }
    }
    proof {
        assert(queue@ =~= Multiset::empty());
        assert forall|k: u128| #[trigger] distances@.contains_key(k) implies within(
            link_of(graph),
            sources@,
            NodeID(k),
            far,
        ) by {
            lemma_within_more(link_of(graph), sources@, NodeID(k), distances@[k] as nat, far);
        }
        assert forall|k: u128|
            within(
                link_of(graph),
                sources@,
                NodeID(k),
                far,
            ) implies #[trigger] distances@.contains_key(k) by {
            lemma_all_reached(graph, sources@, distances@, far, level, NodeID(k), far);
        }
    }
    distances
}

/// Whether the two functions are functions: each accepts every argument
/// and gives, for one argument, one result.
pub open spec fn functional<F1: Fn(NodeID) -> Vec<SmallEdge>, F2: Fn(&SmallEdge) -> NodeID>(
    node_edges: F1,
    edge_node: F2,
) -> bool {
    &&& forall|v: NodeID| call_requires(node_edges, (v,))
    &&& forall|e: SmallEdge| call_requires(edge_node, (&e,))
    &&& forall|v: NodeID, a: Vec<SmallEdge>, b: Vec<SmallEdge>|
        call_ensures(node_edges, (v,), a) && call_ensures(node_edges, (v,), b) ==> a@ == b@
    &&& forall|e: SmallEdge, a: NodeID, b: NodeID|
        call_ensures(edge_node, (&e,), a) && call_ensures(edge_node, (&e,), b) ==> a == b
}

/// Whether `ends` holds, edge for edge, what `edge_node` reads from the
/// edges that `node_edges` gives for `node`.
pub open spec fn gives<F1: Fn(NodeID) -> Vec<SmallEdge>, F2: Fn(&SmallEdge) -> NodeID>(
    node_edges: F1,
    edge_node: F2,
    node: NodeID,
    ends: Seq<NodeID>,
) -> bool {
    exists|edges: Vec<SmallEdge>|
        #![trigger call_ensures(node_edges, (node,), edges)]
        call_ensures(node_edges, (node,), edges) && ends.len() == edges@.len() && forall|i: int|
            0 <= i < ends.len() ==> call_ensures(edge_node, (&edges@[i],), #[trigger] ends[i])
}

/// What `edge_node` reads from the edges that `node_edges` gives for
/// `node`.
pub open spec fn far_ends<F1: Fn(NodeID) -> Vec<SmallEdge>, F2: Fn(&SmallEdge) -> NodeID>(
    node_edges: F1,
    edge_node: F2,
    node: NodeID,
) -> Seq<NodeID> {
    choose|ends: Seq<NodeID>| gives(node_edges, edge_node, node, ends)
}

/// What `far_ends` says of a node is what the two functions give for it:
/// where `node_edges` gives `edges` for `node`, and `edge_node` reads
/// `ends`, edge for edge, from them.
pub proof fn lemma_far_ends<F1: Fn(NodeID) -> Vec<SmallEdge>, F2: Fn(&SmallEdge) -> NodeID>(
    node_edges: F1,
    edge_node: F2,
    node: NodeID,
    edges: Vec<SmallEdge>,
    ends: Seq<NodeID>,
)
    requires
        functional(node_edges, edge_node),
        call_ensures(node_edges, (node,), edges),
        ends.len() == edges@.len(),
        forall|i: int|
            0 <= i < ends.len() ==> call_ensures(edge_node, (&edges@[i],), #[trigger] ends[i]),
    ensures
        far_ends(node_edges, edge_node, node) == ends,
{
    assert(gives(node_edges, edge_node, node, ends));
    let chosen = far_ends(node_edges, edge_node, node);
    assert(gives(node_edges, edge_node, node, chosen));
    let other = choose|other: Vec<SmallEdge>|
        #![trigger call_ensures(node_edges, (node,), other)]
        call_ensures(node_edges, (node,), other) && chosen.len() == other@.len() && forall|i: int|
            0 <= i < chosen.len() ==> call_ensures(edge_node, (&other@[i],), #[trigger] chosen[i]);
    assert(other@ == edges@);
    assert forall|k: int| 0 <= k < chosen.len() implies chosen[k] == ends[k] by {
        assert(call_ensures(edge_node, (&other@[k],), chosen[k]));
        assert(call_ensures(edge_node, (&edges@[k],), ends[k]));
    }
    assert(chosen =~= ends);
}

/// A graph that is given by two functions: one gives the edges of a node,
/// the other reads from an edge the node that it leads to.
pub struct EdgeFunctions<F1, F2> {
    pub node_edges: F1,
    pub edge_node: F2,
}

impl<F1: Fn(NodeID) -> Vec<SmallEdge>, F2: Fn(&SmallEdge) -> NodeID> Graph for EdgeFunctions<
    F1,
    F2,
> {
    open spec fn valid(&self) -> bool {
        functional(self.node_edges, self.edge_node)
    }

    open spec fn hops(&self, node: NodeID) -> Seq<NodeID> {
        far_ends(self.node_edges, self.edge_node, node)
    }

    fn neighbors(&self, node: NodeID) -> (r: Vec<NodeID>) {
        let edges = (self.node_edges)(node);
        let mut ends: Vec<NodeID> = Vec::new();
        let mut i: usize = 0;
        while i < edges.len()
            invariant
                i <= edges.len(),
                ends.len() == i,
                functional(self.node_edges, self.edge_node),
                forall|k: int|
                    0 <= k < i ==> call_ensures(self.edge_node, (&edges@[k],), #[trigger] ends@[k]),
            decreases edges.len() - i,
        {
            let end = (self.edge_node)(&edges[i]);
            ends.push(end);
            i += 1;
        }
        proof {
            lemma_far_ends(self.node_edges, self.edge_node, node, edges, ends@);
        }
        ends
    }
}

/// The distances from `sources` to the nodes that can be reached from them
/// over the edges that `node_edges` gives, each edge leading to the node
/// that `edge_node` reads from it. Every edge counts for one. A node that
/// lies farther than `max_dist`, or than `MAX_DISTANCE`, gets no distance.
pub fn dijkstra_multi<F1, F2>(
    sources: &[NodeID],
    node_edges: F1,
    edge_node: F2,
    max_dist: Option<u8>,
) -> (distances: BTreeMap<u128, u8>) where
    F1: Fn(NodeID) -> Vec<SmallEdge>,
    F2: Fn(&SmallEdge) -> NodeID,

    requires
        functional(node_edges, edge_node),
    ensures
        holds_distances(
            distances@,
            |v: NodeID, w: NodeID| far_ends(node_edges, edge_node, v).contains(w),
            sources@,
            farthest(max_dist),
        ),
{
    let graph = EdgeFunctions { node_edges, edge_node };
    let distances = shortest_distances(&graph, sources, max_dist);
    proof {
        assert(link_of(&graph) =~= (|v: NodeID, w: NodeID|
            far_ends(node_edges, edge_node, v).contains(w)));
    }
    distances
}

/// The links of a node by which distances in the graph are counted: those
/// that start from it or, reversed, those that point to it.
pub open spec fn links_of(
    graph: &Webgraph,
    node: NodeID,
    granularity: WebgraphGranularity,
    reversed: bool,
) -> Seq<SmallEdge> {
    let found = match (granularity, reversed) {
        (WebgraphGranularity::Host, false) => graph.answer(
            &HostForwardlinksQuery { node, limit: EdgeLimit::Unlimited },
        ),
        (WebgraphGranularity::Page, false) => graph.answer(
            &ForwardlinksQuery { node, limit: EdgeLimit::Unlimited },
        ),
        (WebgraphGranularity::Host, true) => graph.answer(
            &HostBacklinksQuery { node, limit: EdgeLimit::Unlimited },
        ),
        (WebgraphGranularity::Page, true) => graph.answer(
            &BacklinksQuery { node, limit: EdgeLimit::Unlimited },
        ),
    };
    match found {
        Ok(edges) => edges,
        Err(_) => Seq::empty(),
    }
}

/// The other end of a link: where it starts from if links are taken
/// reversed, else where it points to.
pub open spec fn other_end(edge: SmallEdge, reversed: bool) -> NodeID {
    if reversed {
        edge.from
    } else {
        edge.to
    }
}

/// The graph with its links taken in one direction.
pub struct Links<'a> {
    pub graph: &'a Webgraph,
    pub granularity: WebgraphGranularity,
    pub reversed: bool,
}

impl<'a> Links<'a> {
    /// The links of a node. A query that fails gives none.
    pub fn edges(&self, node: NodeID) -> (r: Vec<SmallEdge>)
        requires
            self.graph.wf(),
        ensures
            r@ == links_of(self.graph, node, self.granularity, self.reversed),
    {
        let found = match (self.granularity, self.reversed) {
            (WebgraphGranularity::Host, false) => self.graph.search(
                &HostForwardlinksQuery::new(node).with_limit(EdgeLimit::Unlimited),
            ),
            (WebgraphGranularity::Page, false) => self.graph.search(
                &ForwardlinksQuery::new(node).with_limit(EdgeLimit::Unlimited),
            ),
            (WebgraphGranularity::Host, true) => self.graph.search(
                &HostBacklinksQuery::new(node).with_limit(EdgeLimit::Unlimited),
            ),
            (WebgraphGranularity::Page, true) => self.graph.search(
                &BacklinksQuery::new(node).with_limit(EdgeLimit::Unlimited),
            ),
        };
        match found {
            Ok(edges) => edges,
            Err(_) => Vec::new(),
        }
    }
}

impl<'a> Graph for Links<'a> {
    open spec fn valid(&self) -> bool {
        self.graph.wf()
    }

    open spec fn hops(&self, node: NodeID) -> Seq<NodeID> {
        links_of(self.graph, node, self.granularity, self.reversed).map_values(
            |e: SmallEdge| other_end(e, self.reversed),
        )
    }

    fn neighbors(&self, node: NodeID) -> (r: Vec<NodeID>) {
        let edges = self.edges(node);
        let mut ends: Vec<NodeID> = Vec::new();
        let mut i: usize = 0;
        while i < edges.len()
            invariant
                i <= edges.len(),
                ends@ == edges@.take(i as int).map_values(|e: SmallEdge| other_end(e, self.reversed)),
            decreases edges.len() - i,
        {
            let end = if self.reversed {
                edges[i].from
            } else {
                edges[i].to
            };
            ends.push(end);
            i += 1;
            proof {
                assert(ends@ =~= edges@.take(i as int).map_values(
                    |e: SmallEdge| other_end(e, self.reversed),
                ));
            }
        }
        proof {
            assert(edges@.take(i as int) =~= edges@);
        }
        ends
    }
}

/// Distances in hops.
pub trait ShortestPaths {
    /// What must hold of the graph for distances to be asked.
    spec fn valid(&self) -> bool;

    /// Whether a link leads from `v` to `w`; with `reversed`, whether a link
    /// leads from `w` to `v`.
    spec fn link(&self, granularity: WebgraphGranularity, reversed: bool) -> spec_fn(
        NodeID,
        NodeID,
    ) -> bool;

    /// The distances from `source` to the nodes that can be reached from
    /// it.
    fn raw_distances(&self, source: NodeID, granularity: WebgraphGranularity) -> (r: BTreeMap<
        u128,
        u8,
    >)
        requires
            self.valid(),
        ensures
            holds_distances(r@, self.link(granularity, false), seq![source], farthest(None)),
    ;

    /// The distances from `source` to the nodes that lie no farther from it
    /// than `max_dist`.
    fn raw_distances_with_max(
        &self,
        source: NodeID,
        max_dist: u8,
        granularity: WebgraphGranularity,
    ) -> (r: BTreeMap<u128, u8>)
        requires
            self.valid(),
        ensures
            holds_distances(
                r@,
                self.link(granularity, false),
                seq![source],
                farthest(Some(max_dist)),
            ),
    ;

    /// The distances to `source` from the nodes that lie no farther from it
    /// than `max_dist`.
    fn raw_reversed_distances_with_max(
        &self,
        source: NodeID,
        max_dist: u8,
        granularity: WebgraphGranularity,
    ) -> (r: BTreeMap<u128, u8>)
        requires
            self.valid(),
        ensures
            holds_distances(
                r@,
                self.link(granularity, true),
                seq![source],
                farthest(Some(max_dist)),
            ),
    ;

    /// The distances to `source` from the nodes from which it can be
    /// reached.
    fn raw_reversed_distances(&self, source: NodeID, granularity: WebgraphGranularity) -> (r:
        BTreeMap<u128, u8>)
        requires
            self.valid(),
        ensures
            holds_distances(r@, self.link(granularity, true), seq![source], farthest(None)),
    ;

    /// The names of the nodes of the graph, in the order in which they are
    /// stored. A name may occur more than once.
    spec fn names(&self, granularity: WebgraphGranularity) -> Seq<Seq<u8>>;

    /// The distances from `source` to the nodes that can be reached from
    /// it, each node by its name. A node whose name the graph does not store
    /// is left out.
    fn distances(&self, source: Node, granularity: WebgraphGranularity) -> (r: Vec<(Node, u8)>)
        requires
            self.valid(),
        ensures
            named_views(r@) == named_distances(
                distance_map(
                    self.link(granularity, false),
                    seq![NodeID(name_hash(source@))],
                    farthest(None),
                ),
                self.names(granularity),
            ),
    ;

    /// The distances to `source` from the nodes from which it can be
    /// reached, each node by its name. A node whose name the graph does not
    /// store is left out.
    fn reversed_distances(&self, source: Node, granularity: WebgraphGranularity) -> (r: Vec<
        (Node, u8),
    >)
        requires
            self.valid(),
        ensures
            named_views(r@) == named_distances(
                distance_map(
                    self.link(granularity, true),
                    seq![NodeID(name_hash(source@))],
                    farthest(None),
                ),
                self.names(granularity),
            ),
    ;
}

impl Webgraph {
    fn distances_from(
        &self,
        source: NodeID,
        max_dist: Option<u8>,
        granularity: WebgraphGranularity,
        reversed: bool,
    ) -> (r: BTreeMap<u128, u8>)
        requires
            self.wf(),
        ensures
            holds_distances(
                r@,
                link_of(&Links { graph: self, granularity, reversed }),
                seq![source],
                farthest(max_dist),
            ),
    {
        let links = Links { graph: self, granularity, reversed };
        let sources = [source];
        proof {
            assert(sources@ =~= seq![source]);
        }
        shortest_distances(&links, &sources, max_dist)
    }
}

impl ShortestPaths for Webgraph {
    open spec fn valid(&self) -> bool {
        self.wf()
    }

    open spec fn link(&self, granularity: WebgraphGranularity, reversed: bool) -> spec_fn(
        NodeID,
        NodeID,
    ) -> bool {
        link_of(&Links { graph: self, granularity, reversed })
    }

    fn raw_distances(&self, source: NodeID, granularity: WebgraphGranularity) -> (r: BTreeMap<
        u128,
        u8,
    >) {
        self.distances_from(source, None, granularity, false)
    }

    fn raw_distances_with_max(
        &self,
        source: NodeID,
        max_dist: u8,
        granularity: WebgraphGranularity,
    ) -> (r: BTreeMap<u128, u8>) {
        self.distances_from(source, Some(max_dist), granularity, false)
    }

    fn raw_reversed_distances_with_max(
        &self,
        source: NodeID,
        max_dist: u8,
        granularity: WebgraphGranularity,
    ) -> (r: BTreeMap<u128, u8>) {
        self.distances_from(source, Some(max_dist), granularity, true)
    }

    fn raw_reversed_distances(&self, source: NodeID, granularity: WebgraphGranularity) -> (r:
        BTreeMap<u128, u8>) {
        self.distances_from(source, None, granularity, true)
    }

    open spec fn names(&self, granularity: WebgraphGranularity) -> Seq<Seq<u8>> {
        shard_names(self.shards@, granularity)
    }

    fn distances(&self, source: Node, granularity: WebgraphGranularity) -> (r: Vec<(Node, u8)>) {
        let raw = self.raw_distances(source.id(), granularity);
        proof {
            lemma_distance_map(
                raw@,
                self.link(granularity, false),
                seq![NodeID(name_hash(source@))],
                farthest(None),
            );
        }
        name_distances(&raw, self.nodes(granularity))
    }

    fn reversed_distances(&self, source: Node, granularity: WebgraphGranularity) -> (r: Vec<
        (Node, u8),
    >) {
        let raw = self.raw_reversed_distances(source.id(), granularity);
        proof {
            lemma_distance_map(
                raw@,
                self.link(granularity, true),
                seq![NodeID(name_hash(source@))],
                farthest(None),
            );
        }
        name_distances(&raw, self.nodes(granularity))
    }
}

/// For each node that can be reached from one of `sources` over no more
/// than `far` edges, its distance.
pub open spec fn distance_map(
    link: spec_fn(NodeID, NodeID) -> bool,
    sources: Seq<NodeID>,
    far: nat,
) -> Map<u128, u8> {
    Map::new(
        |k: u128| within(link, sources, NodeID(k), far),
        |k: u128| (choose|d: nat| is_distance(link, sources, NodeID(k), d)) as u8,
    )
}

/// There is one map that holds the distances.
pub proof fn lemma_distance_map(
    distances: Map<u128, u8>,
    link: spec_fn(NodeID, NodeID) -> bool,
    sources: Seq<NodeID>,
    far: nat,
)
    requires
        holds_distances(distances, link, sources, far),
    ensures
        distances == distance_map(link, sources, far),
{
    let other = distance_map(link, sources, far);
    assert forall|k: u128| distances.contains_key(k) implies #[trigger] distances[k] == other[k] by {
        let d = choose|d: nat| is_distance(link, sources, NodeID(k), d);
        assert(is_distance(link, sources, NodeID(k), distances[k] as nat));
        lemma_distance_least(link, sources, NodeID(k), d, distances[k] as nat);
        lemma_distance_least(link, sources, NodeID(k), distances[k] as nat, d);
    }
    assert(distances =~= other);
}

/// The name of a node, or of its host where the nodes are hosts.
pub open spec fn name_at(name: Seq<u8>, granularity: WebgraphGranularity) -> Seq<u8> {
    match granularity {
        WebgraphGranularity::Host => host_of(name),
        WebgraphGranularity::Page => name,
    }
}

/// The names of the two ends of the stored edges that can be read, edge
/// after edge.
pub open spec fn store_names(store: Seq<Option<Edge>>, granularity: WebgraphGranularity) -> Seq<
    Seq<u8>,
>
    decreases store.len(),
{
    if store.len() == 0 {
        Seq::empty()
    } else {
        match store.last() {
            Some(edge) => store_names(store.drop_last(), granularity).push(
                name_at(edge.from@, granularity),
            ).push(name_at(edge.to@, granularity)),
            None => store_names(store.drop_last(), granularity),
        }
    }
}

/// The names that segments store, segment after segment.
pub open spec fn segment_names(segments: Seq<SegmentReader>, granularity: WebgraphGranularity) -> Seq<
    Seq<u8>,
>
    decreases segments.len(),
{
    if segments.len() == 0 {
        Seq::empty()
    } else {
        segment_names(segments.drop_last(), granularity) + store_names(
            segments.last().store@,
            granularity,
        )
    }
}

/// The names that shards store, shard after shard.
pub open spec fn shard_names(shards: Seq<Searcher>, granularity: WebgraphGranularity) -> Seq<Seq<u8>>
    decreases shards.len(),
{
    if shards.len() == 0 {
        Seq::empty()
    } else {
        shard_names(shards.drop_last(), granularity) + segment_names(
            shards.last().segments@,
            granularity,
        )
    }
}

/// The identities of names.
pub open spec fn identities(names: Seq<Seq<u8>>) -> Set<u128> {
    names.map_values(|n: Seq<u8>| name_hash(n)).to_set()
}

/// For each of `names` whose node has a distance, the name with the
/// distance; a name whose node was named before is left out.
pub open spec fn named_distances(distances: Map<u128, u8>, names: Seq<Seq<u8>>) -> Seq<
    (Seq<u8>, u8),
>
    decreases names.len(),
{
    if names.len() == 0 {
        Seq::empty()
    } else {
        let before = named_distances(distances, names.drop_last());
        let id = name_hash(names.last());
        if distances.contains_key(id) && !identities(names.drop_last()).contains(id) {
            before.push((names.last(), distances[id]))
        } else {
            before
        }
    }
}

/// What nodes hold.
pub open spec fn node_views(nodes: Seq<Node>) -> Seq<Seq<u8>> {
    nodes.map_values(|n: Node| n@)
}

/// What nodes with distances hold.
pub open spec fn named_views(named: Seq<(Node, u8)>) -> Seq<(Seq<u8>, u8)> {
    named.map_values(|p: (Node, u8)| (p.0@, p.1))
}

/// Gives each node that has a distance its distance.
pub fn name_distances(distances: &BTreeMap<u128, u8>, nodes: Vec<Node>) -> (r: Vec<(Node, u8)>)
    ensures
        named_views(r@) == named_distances(distances@, node_views(nodes@)),
{
    broadcast use vstd::std_specs::hash::group_hash_axioms;

    let ghost names = node_views(nodes@);
    let n = nodes.len();
    let mut rest = crate::ranking::reversed(nodes);
    let mut seen: HashSet<u128> = HashSet::new();
    let mut out: Vec<(Node, u8)> = Vec::new();
    proof {
        assert(named_views(out@) =~= named_distances(distances@, names.take(0)));
        assert(identities(names.take(0)) =~= Set::<u128>::empty());
    }
    while rest.len() > 0
        invariant
            rest.len() <= n,
            n == names.len(),
            forall|k: int| 0 <= k < rest.len() ==> (#[trigger] rest@[k])@ == names[n - 1 - k],
            seen@ == identities(names.take(n - rest.len())),
            named_views(out@) == named_distances(distances@, names.take(n - rest.len())),
        decreases rest.len(),
    {
        let ghost i = n - rest.len();
        let ghost before = named_views(out@);
        proof {
            assert(names.take(i + 1).drop_last() =~= names.take(i));
            let ids = names.take(i).map_values(|n: Seq<u8>| name_hash(n));
            ids.lemma_push_to_set_commute(name_hash(names[i]));
            assert(names.take(i + 1).map_values(|n: Seq<u8>| name_hash(n)) =~= ids.push(
                name_hash(names[i]),
            ));
        }
        let node = rest.pop().unwrap();
        let id = node.id().as_u128();
        let known = !seen.contains(&id);
        seen.insert(id);
        if known {
            match distance_of(distances, id) {
                Some(d) => {
                    let ghost view = (node@, d);
                    out.push((node, d));
                    proof {
                        assert(named_views(out@) =~= before.push(view));
                    }
                },
                None => {},
            }
        }
    }
    proof {
        assert(names.take(n as int) =~= names);
    }
    out
}

impl Webgraph {
    /// The nodes of the graph by their names, in the order in which they are
    /// stored: the two ends of every stored edge that can be read.
    pub fn nodes(&self, granularity: WebgraphGranularity) -> (r: Vec<Node>)
        ensures
            node_views(r@) == shard_names(self.shards@, granularity),
    {
        let mut out: Vec<Node> = Vec::new();
        let mut s: usize = 0;
        proof {
            assert(node_views(out@) =~= shard_names(self.shards@.take(0), granularity));
        }
        while s < self.shards.len()
            invariant
                s <= self.shards.len(),
                node_views(out@) == shard_names(self.shards@.take(s as int), granularity),
            decreases self.shards.len() - s,
        {
            let segments = &self.shards[s].segments;
            let ghost base = node_views(out@);
            let mut t: usize = 0;
            proof {
                assert(self.shards@.take(s + 1).drop_last() =~= self.shards@.take(s as int));
                assert(base + segment_names(segments@.take(0), granularity) =~= base);
            }
            while t < segments.len()
                invariant
                    t <= segments.len(),
                    node_views(out@) == base + segment_names(segments@.take(t as int), granularity),
                decreases segments.len() - t,
            {
                let store = &segments[t].store;
                let ghost start = node_views(out@);
                let mut d: usize = 0;
                proof {
                    assert(segments@.take(t + 1).drop_last() =~= segments@.take(t as int));
                    assert(start + store_names(store@.take(0), granularity) =~= start);
                }
                while d < store.len()
                    invariant
                        d <= store.len(),
                        node_views(out@) == start + store_names(store@.take(d as int), granularity),
                    decreases store.len() - d,
                {
                    let ghost inner = node_views(out@);
                    proof {
                        assert(store@.take(d + 1).drop_last() =~= store@.take(d as int));
                    }
                    match &store[d] {
                        Some(edge) => {
                            let (from, to) = match granularity {
                                WebgraphGranularity::Host => (
                                    edge.from.clone().into_host(),
                                    edge.to.clone().into_host(),
                                ),
                                WebgraphGranularity::Page => (edge.from.clone(), edge.to.clone()),
                            };
                            let ghost from_name = from@;
                            let ghost to_name = to@;
                            out.push(from);
                            out.push(to);
                            proof {
                                assert(node_views(out@) =~= inner.push(from_name).push(to_name));
                                assert(start + store_names(store@.take(d as int), granularity).push(
                                    from_name,
                                ).push(to_name) =~= inner.push(from_name).push(to_name));
                            }
                        },
                        None => {},
                    }
                    d += 1;
                }
                proof {
                    assert(store@.take(d as int) =~= store@);
                    assert(base + (segment_names(segments@.take(t as int), granularity)
                        + store_names(store@, granularity)) =~= start + store_names(
                        store@,
                        granularity,
                    ));
                }
                t += 1;
            }
            proof {
                assert(segments@.take(t as int) =~= segments@);
            }
            s += 1;
        }
        proof {
            assert(self.shards@.take(s as int) =~= self.shards@);
        }
        out
    }
}

} // verus!
