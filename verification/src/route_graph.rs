//! The route network: a directed petgraph `StableGraph` whose nodes carry a
//! region (`Bbox`) and whose edges carry the polyline of a known transition.
//!
//! The graph itself lives in the outside crate; this module declares the
//! type to the verifier, models its contents with two uninterpreted maps
//! (`graph_nodes`, `graph_edges`), and exposes the read-only accessors the
//! detector needs, each as a trusted wrapper around one petgraph call.

use vstd::prelude::*;
use crate::{Point, Bbox};
use petgraph::visit::EdgeRef;

verus! {

#[verifier::external_type_specification]
#[verifier::external_body]
#[verifier::reject_recursive_types(N)]
#[verifier::reject_recursive_types(E)]
#[verifier::reject_recursive_types(Ty)]
#[verifier::reject_recursive_types(Ix)]
pub struct ExStableGraph<N, E, Ty, Ix>(petgraph::stable_graph::StableGraph<N, E, Ty, Ix>);

#[verifier::external_type_specification]
#[verifier::external_body]
pub struct ExDirected(petgraph::Directed);

/// The route network built once at startup and consumed read-only.
pub type RouteGraph = petgraph::stable_graph::StableGraph<Bbox, Vec<Point>, petgraph::Directed, u32>;

/// The regions of the network, keyed by node index; the domain is the set
/// of indices of nodes present in the graph.
pub uninterp spec fn graph_nodes(g: RouteGraph) -> Map<int, Bbox>;

/// The directed edges of the network, keyed by edge index: source node,
/// target node, and the path polyline; the domain is the set of indices of
/// edges present in the graph.
pub uninterp spec fn graph_edges(g: RouteGraph) -> Map<int, (int, int, Seq<Point>)>;

/// Some edge of the network ends at node `n`.
pub open spec fn spec_has_incoming(g: RouteGraph, n: int) -> bool {
    exists|e: int| #[trigger] graph_edges(g).dom().contains(e) && graph_edges(g)[e].1 == n
}

/// The node has no incoming edge: a network entry point.
pub open spec fn spec_is_root(g: RouteGraph, n: int) -> bool {
    graph_nodes(g).dom().contains(n) && !spec_has_incoming(g, n)
}

/// Every vertex of every edge path has coordinates the exact geometry can
/// evaluate.
pub open spec fn spec_paths_bounded(g: RouteGraph) -> bool {
    forall|e: int| #[trigger] graph_edges(g).dom().contains(e)
        ==> forall|j: int| 0 <= j < graph_edges(g)[e].2.len()
            ==> crate::pt_bounded(#[trigger] graph_edges(g)[e].2[j])
}

/// Relies on petgraph's `StableGraph::node_indices`: yields the index of
/// each node present in the graph exactly once, and the graph is finite.
#[verifier::external_body]
pub fn node_ids(g: &RouteGraph) -> (r: Vec<usize>)
    ensures
        r@.no_duplicates(),
        graph_nodes(*g).dom() == r@.map_values(|u: usize| u as int).to_set(),
        forall|i: int| 0 <= i < r@.len() ==> graph_nodes(*g).dom().contains(#[trigger] r@[i] as int),
        forall|n: int| #[trigger] graph_nodes(*g).dom().contains(n)
            ==> exists|i: int| 0 <= i < r@.len() && r@[i] as int == n,
{
    g.node_indices().map(|ix| ix.index()).collect()
}

/// Relies on petgraph's `StableGraph::edge_indices`: yields the index of
/// each edge present in the graph exactly once.
#[verifier::external_body]
pub fn edge_ids(g: &RouteGraph) -> (r: Vec<usize>)
    ensures
        r@.no_duplicates(),
        forall|i: int| 0 <= i < r@.len() ==> graph_edges(*g).dom().contains(#[trigger] r@[i] as int),
        forall|e: int| #[trigger] graph_edges(*g).dom().contains(e)
            ==> exists|i: int| 0 <= i < r@.len() && r@[i] as int == e,
{
    g.edge_indices().map(|ix| ix.index()).collect()
}

/// True iff every vertex of every edge path lies within the coordinate
/// range the exact geometry accepts.
pub fn paths_bounded(g: &RouteGraph) -> (r: bool)
    ensures
        r == spec_paths_bounded(*g),
{
    let ids = edge_ids(g);
    let mut k: usize = 0;
    while k < ids.len()
        invariant
            k <= ids@.len(),
            forall|i: int| 0 <= i < ids@.len()
                ==> graph_edges(*g).dom().contains(#[trigger] ids@[i] as int),
            forall|e: int| #[trigger] graph_edges(*g).dom().contains(e)
                ==> exists|i: int| 0 <= i < ids@.len() && ids@[i] as int == e,
            forall|i: int| 0 <= i < k
                ==> forall|j: int| 0 <= j < graph_edges(*g)[#[trigger] ids@[i] as int].2.len()
                    ==> crate::pt_bounded(#[trigger] graph_edges(*g)[ids@[i] as int].2[j]),
        decreases ids@.len() - k,
    {
        let path = edge_path(g, ids[k]);
        let mut j: usize = 0;
        while j < path.len()
            invariant
                j <= path@.len(),
                k < ids@.len(),
                graph_edges(*g).dom().contains(ids@[k as int] as int),
                path@ == graph_edges(*g)[ids@[k as int] as int].2,
                forall|m: int| 0 <= m < j ==> crate::pt_bounded(#[trigger] path@[m]),
            decreases path@.len() - j,
        {
            let p = path[j];
            if p.x < -crate::COORD_LIMIT || p.x > crate::COORD_LIMIT
                || p.y < -crate::COORD_LIMIT || p.y > crate::COORD_LIMIT {
                assert(!crate::pt_bounded(path@[j as int]));
                return false;
            }
            j = j + 1;
        }
        k = k + 1;
    }
    proof {
        assert forall|e: int| #[trigger] graph_edges(*g).dom().contains(e)
            implies forall|j: int| 0 <= j < graph_edges(*g)[e].2.len()
                ==> crate::pt_bounded(#[trigger] graph_edges(*g)[e].2[j]) by {
            let i = choose|i: int| 0 <= i < ids@.len() && ids@[i] as int == e;
        }
    }
    true
}

/// Relies on petgraph's `StableGraph::node_weight`: returns the weight
/// stored at a present node index.
#[verifier::external_body]
pub fn node_region(g: &RouteGraph, n: usize) -> (r: Bbox)
    requires
        graph_nodes(*g).dom().contains(n as int),
    ensures
        r == graph_nodes(*g)[n as int],
{
    *g.node_weight(petgraph::stable_graph::NodeIndex::new(n)).unwrap()
}

/// Relies on petgraph's `StableGraph::edges_directed` with `Incoming`: it
/// yields exactly the edges whose target is the given node.
#[verifier::external_body]
pub fn has_incoming_edge(g: &RouteGraph, n: usize) -> (r: bool)
    requires
        graph_nodes(*g).dom().contains(n as int),
    ensures
        r == spec_has_incoming(*g, n as int),
{
    g.edges_directed(petgraph::stable_graph::NodeIndex::new(n), petgraph::Direction::Incoming)
        .next()
        .is_some()
}

/// Relies on petgraph's `StableGraph::edges_directed` with `Outgoing`: it
/// yields exactly the edges whose source is the given node, each once.
#[verifier::external_body]
pub fn outgoing_edge_ids(g: &RouteGraph, n: usize) -> (r: Vec<usize>)
    requires
        graph_nodes(*g).dom().contains(n as int),
    ensures
        r@.no_duplicates(),
        forall|i: int| 0 <= i < r@.len()
            ==> graph_edges(*g).dom().contains(#[trigger] r@[i] as int)
                && graph_edges(*g)[r@[i] as int].0 == n as int,
        forall|e: int| #[trigger] graph_edges(*g).dom().contains(e) && graph_edges(*g)[e].0 == n as int
            ==> exists|i: int| 0 <= i < r@.len() && r@[i] as int == e,
        r@.len() <= graph_edges(*g).dom().len(),
{
    g.edges_directed(petgraph::stable_graph::NodeIndex::new(n), petgraph::Direction::Outgoing)
        .map(|er| er.id().index())
        .collect()
}

/// Relies on petgraph's `StableGraph::edge_endpoints`: returns the target
/// of a present edge; petgraph keeps every edge joined to present nodes.
#[verifier::external_body]
pub fn edge_target(g: &RouteGraph, e: usize) -> (r: usize)
    requires
        graph_edges(*g).dom().contains(e as int),
    ensures
        r as int == graph_edges(*g)[e as int].1,
        graph_nodes(*g).dom().contains(r as int),
{
    g.edge_endpoints(petgraph::stable_graph::EdgeIndex::new(e)).unwrap().1.index()
}

/// Relies on petgraph's `StableGraph::edge_weight`: returns the weight
/// stored at a present edge index.
#[verifier::external_body]
pub fn edge_path<'a>(g: &'a RouteGraph, e: usize) -> (r: &'a Vec<Point>)
    requires
        graph_edges(*g).dom().contains(e as int),
    ensures
        r@ == graph_edges(*g)[e as int].2,
{
    g.edge_weight(petgraph::stable_graph::EdgeIndex::new(e)).unwrap()
}

} // verus!
