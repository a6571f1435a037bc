//! The detector: holds the route network and the frontier of entry nodes,
//! and answers the per-point inlier/outlier question by a depth-first search
//! over the network, accepting at the first node whose region spatially
//! contains the point or that has an outgoing edge whose path passes within
//! the configured threshold of the point.

use vstd::prelude::*;
use crate::{Point, pt_bounded, COORD_LIMIT};
use crate::bbox::spec_spatially_contains;
use crate::edge::{on_trj, spec_path_close};
use crate::route_graph::{
    RouteGraph, graph_nodes, graph_edges, spec_is_root, spec_paths_bounded,
    node_ids, node_region, has_incoming_edge, outgoing_edge_ids, edge_target, edge_path,
};

verus! {

/// The search accepts at node `n` for `p`: the node is present and either
/// its region spatially contains `p`, or some outgoing edge of `n` has a
/// path passing within `thr` of `p`.
pub open spec fn spec_accepts(g: RouteGraph, n: int, p: Point, thr: int) -> bool {
    graph_nodes(g).dom().contains(n) && (spec_spatially_contains(graph_nodes(g)[n], p)
        || exists|e: int| (#[trigger] graph_edges(g).dom().contains(e))
            && graph_edges(g)[e].0 == n
            && spec_path_close(graph_edges(g)[e].2, p, thr))
}

/// Some entry of `s`, read as a node index, is `n` (proof bookkeeping).
spec fn seq_has_node(s: Seq<usize>, n: int) -> bool {
    exists|i: int| 0 <= i < s.len() && s[i] as int == n
}

/// The network has a directed edge from node `a` to node `b`.
pub open spec fn spec_step(g: RouteGraph, a: int, b: int) -> bool {
    exists|e: int| (#[trigger] graph_edges(g).dom().contains(e))
        && graph_edges(g)[e].0 == a
        && graph_edges(g)[e].1 == b
}

/// `w` is a walk through the network: a nonempty sequence of present nodes,
/// each consecutive pair joined by a directed edge.
pub open spec fn spec_is_walk(g: RouteGraph, w: Seq<int>) -> bool {
    &&& w.len() > 0
    &&& forall|i: int| 0 <= i < w.len() ==> graph_nodes(g).dom().contains(#[trigger] w[i])
    &&& forall|i: int, j: int|
        #![trigger w[i], w[j]]
        0 <= i && j == i + 1 && j < w.len() ==> spec_step(g, w[i], w[j])
}

/// Node `n` is reachable from some node of `from` by following directed
/// edges (a node is reachable from itself).
pub open spec fn spec_reachable_from(g: RouteGraph, from: Seq<int>, n: int) -> bool {
    exists|w: Seq<int>| #[trigger] spec_is_walk(g, w) && from.contains(w[0]) && w.last() == n
}

/// `walks` holds, for node `n`, a witness walk from `from` to `n`.
spec fn walk_to(g: RouteGraph, from: Seq<int>, walks: Map<int, Seq<int>>, n: int) -> bool {
    &&& walks.dom().contains(n)
    &&& spec_is_walk(g, walks[n])
    &&& from.contains(walks[n][0])
    &&& walks[n].last() == n
}

/// Classifies points against a fixed route network. The frontier is fixed
/// at construction to all nodes with no incoming edge, and every
/// classification searches the network afresh from that same frontier.
pub struct Detector {
    graph: RouteGraph,
    current_nodes: Vec<usize>,
    threshold: i64,
}

impl Detector {
    /// The route network this detector searches.
    pub closed spec fn spec_graph(&self) -> RouteGraph {
        self.graph
    }

    /// The frontier: node indices the search is seeded from.
    pub closed spec fn spec_frontier(&self) -> Seq<int> {
        self.current_nodes@.map_values(|u: usize| u as int)
    }

    /// The configured proximity threshold.
    pub closed spec fn spec_threshold(&self) -> int {
        self.threshold as int
    }

    /// The detector is well formed: the threshold is within the geometry
    /// kernel's range, every edge path has bounded coordinates, the node
    /// set is finite, and the frontier holds only present nodes.
    pub closed spec fn wf(&self) -> bool {
        &&& 0 <= self.threshold <= COORD_LIMIT
        &&& spec_paths_bounded(self.graph)
        &&& graph_nodes(self.graph).dom().finite()
        &&& forall|i: int| 0 <= i < self.current_nodes@.len()
            ==> graph_nodes(self.graph).dom().contains(#[trigger] self.current_nodes@[i] as int)
    }

    /// Builds a detector over `graph`, seeding the frontier with all root
    /// nodes (nodes with no incoming edge).
    pub fn new(graph: RouteGraph, threshold: i64) -> (d: Detector)
        requires
            0 <= threshold <= COORD_LIMIT,
            spec_paths_bounded(graph),
        ensures
            d.wf(),
            d.spec_graph() == graph,
            d.spec_threshold() == threshold as int,
            forall|n: int| d.spec_frontier().contains(n) <==> spec_is_root(graph, n),
    {
        let mut detector = Detector { graph, current_nodes: Vec::new(), threshold };
        detector.set_current_nodes_to_roots();
        detector
    }

    /// Builds a detector over `graph` after checking that the threshold
    /// and the network's path coordinates are within the range the exact
    /// geometry accepts; `None` exactly when they are not.
    pub fn try_new(graph: RouteGraph, threshold: i64) -> (r: Option<Detector>)
        ensures
            r.is_some() == (0 <= threshold <= COORD_LIMIT && spec_paths_bounded(graph)),
            r.is_some() ==> {
                &&& r.unwrap().wf()
                &&& r.unwrap().spec_graph() == graph
                &&& r.unwrap().spec_threshold() == threshold as int
                &&& forall|n: int| r.unwrap().spec_frontier().contains(n) <==> spec_is_root(graph, n)
            },
    {
        if threshold < 0 || threshold > COORD_LIMIT {
            return None;
        }
        if !crate::route_graph::paths_bounded(&graph) {
            return None;
        }
        Some(Detector::new(graph, threshold))
    }

    /// Resets the frontier to exactly the root nodes of the network.
    fn set_current_nodes_to_roots(&mut self)
        ensures
            final(self).spec_graph() == old(self).spec_graph(),
            final(self).spec_threshold() == old(self).spec_threshold(),
            final(self).threshold == old(self).threshold,
            graph_nodes(final(self).spec_graph()).dom().finite(),
            forall|n: int| final(self).spec_frontier().contains(n)
                <==> spec_is_root(old(self).spec_graph(), n),
            forall|i: int| 0 <= i < final(self).current_nodes@.len()
                ==> graph_nodes(final(self).graph).dom().contains(
                    #[trigger] final(self).current_nodes@[i] as int),
    {
        broadcast use vstd::seq_lib::seq_to_set_is_finite;

        let ids = node_ids(&self.graph);
        let mut roots: Vec<usize> = Vec::new();
        let mut k: usize = 0;
        while k < ids.len()
            invariant
                *self == *old(self),
                k <= ids@.len(),
                forall|i: int| 0 <= i < ids@.len()
                    ==> graph_nodes(self.graph).dom().contains(#[trigger] ids@[i] as int),
                forall|n: int| #[trigger] graph_nodes(self.graph).dom().contains(n)
                    ==> exists|i: int| 0 <= i < ids@.len() && ids@[i] as int == n,
                forall|j: int| 0 <= j < roots@.len()
                    ==> spec_is_root(self.graph, #[trigger] roots@[j] as int),
                forall|j: int| 0 <= j < k && spec_is_root(self.graph, ids@[j] as int)
                    ==> roots@.contains(#[trigger] ids@[j]),
            decreases ids@.len() - k,
        {
            let ghost old_roots = roots@;
            let id = ids[k];
            if !has_incoming_edge(&self.graph, id) {
                roots.push(id);
            }
            proof {
                assert forall|j: int| 0 <= j < k + 1 && spec_is_root(self.graph, ids@[j] as int)
                    implies roots@.contains(#[trigger] ids@[j]) by {
                    if j == k {
                        assert(roots@[roots@.len() - 1] == id);
                    } else {
                        let w = choose|w: int| 0 <= w < old_roots.len() && old_roots[w] == ids@[j];
                        assert(roots@[w] == ids@[j]);
                    }
                }
            }
            k = k + 1;
        }
        self.current_nodes = roots;
        proof {
            assert forall|n: int| self.spec_frontier().contains(n)
                implies spec_is_root(old(self).spec_graph(), n) by {
                let j = choose|j: int| 0 <= j < self.spec_frontier().len()
                    && self.spec_frontier()[j] == n;
                assert(roots@[j] as int == n);
            }
            assert forall|n: int| spec_is_root(old(self).spec_graph(), n)
                implies self.spec_frontier().contains(n) by {
                let i = choose|i: int| 0 <= i < ids@.len() && ids@[i] as int == n;
                assert(roots@.contains(ids@[i]));
                let j = choose|j: int| 0 <= j < roots@.len() && roots@[j] == ids@[i];
                assert(self.spec_frontier()[j] == n);
            }
        }
    }

    /// True iff node `n`'s region spatially contains `point` or some
    /// outgoing edge of `n` has a path within the threshold of `point`.
    fn node_accepts(&self, n: usize, point: Point) -> (r: bool)
        requires
            self.wf(),
            pt_bounded(point),
            graph_nodes(self.graph).dom().contains(n as int),
        ensures
            r == spec_accepts(self.graph, n as int, point, self.threshold as int),
    {
        let region = node_region(&self.graph, n);
        if region.spatially_contains(point) {
            return true;
        }
        let out = outgoing_edge_ids(&self.graph, n);
        let mut k: usize = 0;
        while k < out.len()
            invariant
                self.wf(),
                pt_bounded(point),
                graph_nodes(self.graph).dom().contains(n as int),
                k <= out@.len(),
                !spec_spatially_contains(graph_nodes(self.graph)[n as int], point),
                forall|i: int| 0 <= i < out@.len()
                    ==> graph_edges(self.graph).dom().contains(#[trigger] out@[i] as int)
                        && graph_edges(self.graph)[out@[i] as int].0 == n as int,
                forall|e: int| #[trigger] graph_edges(self.graph).dom().contains(e)
                        && graph_edges(self.graph)[e].0 == n as int
                    ==> exists|i: int| 0 <= i < out@.len() && out@[i] as int == e,
                forall|i: int| 0 <= i < k
                    ==> !spec_path_close(
                        graph_edges(self.graph)[#[trigger] out@[i] as int].2,
                        point,
                        self.threshold as int,
                    ),
            decreases out@.len() - k,
        {
            let path = edge_path(&self.graph, out[k]);
            if on_trj(path, point, self.threshold) {
                return true;
            }
            k = k + 1;
        }
        false
    }

    /// Classifies `point`: `true` means outlier (off the known network),
    /// `false` means inlier.
    ///
    /// An empty frontier yields outlier unconditionally. Otherwise the
    /// network is searched depth-first from the frontier, each reachable
    /// node visited at most once, accepting (inlier) at the first node
    /// whose test passes: the point is an inlier exactly when some node
    /// reachable from the frontier accepts it.
    pub fn is_outlier(&self, point: Point) -> (r: bool)
        requires
            self.wf(),
            pt_bounded(point),
        ensures
            self.spec_frontier().len() == 0 ==> r,
            !r <==> exists|n: int|
                #[trigger] spec_reachable_from(self.spec_graph(), self.spec_frontier(), n)
                && spec_accepts(self.spec_graph(), n, point, self.spec_threshold()),
            (exists|i: int| 0 <= i < self.spec_frontier().len()
                && spec_accepts(
                    self.spec_graph(),
                    #[trigger] self.spec_frontier()[i],
                    point,
                    self.spec_threshold(),
                )) ==> !r,
    {
        let ghost frontier = self.spec_frontier();
        if self.current_nodes.is_empty() {
            proof {
                assert forall|n: int| !(#[trigger] spec_reachable_from(self.graph, frontier, n)
                    && spec_accepts(self.graph, n, point, self.threshold as int)) by {
                    if spec_reachable_from(self.graph, frontier, n) {
                        let w = choose|w: Seq<int>| #[trigger] spec_is_walk(self.graph, w)
                            && frontier.contains(w[0]) && w.last() == n;
                    }
                }
            }
            return true;
        }
        let mut stack: Vec<usize> = self.current_nodes.clone();
        let mut visited: Vec<usize> = Vec::new();
        let ghost mut walks: Map<int, Seq<int>> = Map::new(
            |n: int| frontier.contains(n),
            |n: int| seq![n],
        );
        proof {
            assert forall|i: int| 0 <= i < stack@.len()
                implies walk_to(self.graph, frontier, walks, #[trigger] stack@[i] as int) by {
                let n = stack@[i] as int;
                assert(frontier[i] == n);
                assert(frontier.contains(n));
                assert(walks[n] =~= seq![n]);
                assert(walks[n][0] == n && walks[n].last() == n);
                assert(graph_nodes(self.graph).dom().contains(n));
            }
        }
        while stack.len() > 0
            invariant
                self.wf(),
                pt_bounded(point),
                self.current_nodes@.len() > 0,
                frontier == self.spec_frontier(),
                forall|i: int| 0 <= i < stack@.len()
                    ==> graph_nodes(self.graph).dom().contains(#[trigger] stack@[i] as int),
                forall|i: int| 0 <= i < stack@.len()
                    ==> walk_to(self.graph, frontier, walks, #[trigger] stack@[i] as int),
                visited@.no_duplicates(),
                forall|i: int| 0 <= i < visited@.len()
                    ==> graph_nodes(self.graph).dom().contains(#[trigger] visited@[i] as int),
                forall|i: int| 0 <= i < visited@.len()
                    ==> !spec_accepts(
                        self.graph,
                        #[trigger] visited@[i] as int,
                        point,
                        self.threshold as int,
                    ),
                forall|i: int| 0 <= i < self.current_nodes@.len()
                    ==> visited@.contains(#[trigger] self.current_nodes@[i])
                        || stack@.contains(self.current_nodes@[i]),
                forall|i: int, e: int|
                    #![trigger visited@[i], graph_edges(self.graph).dom().contains(e)]
                    0 <= i < visited@.len()
                        && graph_edges(self.graph).dom().contains(e)
                        && graph_edges(self.graph)[e].0 == visited@[i] as int
                    ==> seq_has_node(visited@, graph_edges(self.graph)[e].1)
                        || seq_has_node(stack@, graph_edges(self.graph)[e].1),
            decreases
                (graph_nodes(self.graph).dom().len() - visited@.len())
                    * (graph_edges(self.graph).dom().len() + 1) + stack@.len(),
        {
            let ghost old_stack = stack@;
            let ghost old_visited = visited@;
            let n = stack.pop().unwrap();
            proof {
                lemma_distinct_in_dom_card(visited@, graph_nodes(self.graph).dom());
                lemma_mul_nonneg(
                    graph_nodes(self.graph).dom().len() - visited@.len(),
                    graph_edges(self.graph).dom().len() + 1 as int,
                );
            }
            if !vec_contains(&visited, n) {
                visited.push(n);
                proof {
                    lemma_distinct_in_dom_card(visited@, graph_nodes(self.graph).dom());
                }
                if self.node_accepts(n, point) {
                    proof {
                        assert(spec_accepts(self.spec_graph(), n as int, point, self.spec_threshold()));
                        assert(walk_to(self.graph, frontier, walks, n as int));
                        assert(spec_is_walk(self.graph, walks[n as int]));
                        assert(spec_reachable_from(self.graph, frontier, n as int));
                    }
                    return false;
                }
                let out = outgoing_edge_ids(&self.graph, n);
                let ghost n_walk = walks[n as int];
                let ghost mid_stack = stack@;
                let mut k: usize = 0;
                while k < out.len()
                    invariant
                        self.wf(),
                        frontier == self.spec_frontier(),
                        k <= out@.len(),
                        stack@.len() == mid_stack.len() + k,
                        forall|i: int| 0 <= i < mid_stack.len()
                            ==> stack@[i] == mid_stack[i],
                        forall|i: int| 0 <= i < out@.len()
                            ==> graph_edges(self.graph).dom().contains(#[trigger] out@[i] as int)
                                && graph_edges(self.graph)[out@[i] as int].0 == n as int,
                        forall|i: int| 0 <= i < stack@.len()
                            ==> graph_nodes(self.graph).dom().contains(#[trigger] stack@[i] as int),
                        forall|i: int| 0 <= i < stack@.len()
                            ==> walk_to(self.graph, frontier, walks, #[trigger] stack@[i] as int),
                        forall|i: int| 0 <= i < k
                            ==> seq_has_node(stack@, graph_edges(self.graph)[#[trigger] out@[i] as int].1),
                        spec_is_walk(self.graph, n_walk),
                        frontier.contains(n_walk[0]),
                        n_walk.last() == n as int,
                    decreases out@.len() - k,
                {
                    let ghost pre_stack = stack@;
                    let t = edge_target(&self.graph, out[k]);
                    stack.push(t);
                    proof {
                        let tw = n_walk.push(t as int);
                        assert(graph_edges(self.graph).dom().contains(out@[k as int] as int));
                        assert(spec_step(self.graph, n as int, t as int));
                        assert forall|i: int, j: int|
                            #![trigger tw[i], tw[j]]
                            0 <= i && j == i + 1 && j < tw.len()
                            implies spec_step(self.graph, tw[i], tw[j]) by {
                            if j < n_walk.len() {
                                assert(tw[i] == n_walk[i] && tw[j] == n_walk[j]);
                                assert(spec_step(self.graph, n_walk[i], n_walk[j]));
                            } else {
                                assert(tw[i] == n_walk.last() && tw[j] == t as int);
                            }
                        }
                        assert(spec_is_walk(self.graph, tw));
                        walks = walks.insert(t as int, tw);
                        assert(walk_to(self.graph, frontier, walks, t as int));
                        assert forall|i: int| 0 <= i < stack@.len()
                            implies walk_to(self.graph, frontier, walks, #[trigger] stack@[i] as int) by {
                            if i < pre_stack.len() {
                                assert(walk_to(self.graph, frontier, walks, stack@[i] as int));
                            }
                        }
                        assert forall|i: int| 0 <= i < k + 1
                            implies seq_has_node(
                                stack@,
                                graph_edges(self.graph)[#[trigger] out@[i] as int].1,
                            ) by {
                            if i < k {
                                let j = choose|j: int| 0 <= j < pre_stack.len()
                                    && pre_stack[j] as int == graph_edges(self.graph)[out@[i] as int].1;
                                assert(stack@[j] as int == graph_edges(self.graph)[out@[i] as int].1);
                            } else {
                                assert(stack@[stack@.len() - 1] as int
                                    == graph_edges(self.graph)[out@[i] as int].1);
                            }
                        }
                    }
                    k = k + 1;
                }
                proof {
                    lemma_measure_step(
                        graph_nodes(self.graph).dom().len() - old_visited.len(),
                        graph_edges(self.graph).dom().len() as int,
                        old_stack.len() as int,
                        out@.len() as int,
                    );
                    assert forall|i: int| 0 <= i < self.current_nodes@.len()
                        implies visited@.contains(#[trigger] self.current_nodes@[i])
                            || stack@.contains(self.current_nodes@[i]) by {
                        let u = self.current_nodes@[i];
                        if old_visited.contains(u) {
                            let j = choose|j: int| 0 <= j < old_visited.len() && old_visited[j] == u;
                            assert(visited@[j] == u);
                        } else if old_stack.contains(u) {
                            let j = choose|j: int| 0 <= j < old_stack.len() && old_stack[j] == u;
                            if j < old_stack.len() - 1 {
                                assert(mid_stack[j] == u);
                                assert(stack@[j] == u);
                            } else {
                                assert(u == n);
                                assert(visited@[visited@.len() - 1] == u);
                            }
                        }
                    }
                    assert forall|i: int, e: int|
                        #![trigger visited@[i], graph_edges(self.graph).dom().contains(e)]
                        0 <= i < visited@.len()
                            && graph_edges(self.graph).dom().contains(e)
                            && graph_edges(self.graph)[e].0 == visited@[i] as int
                        implies seq_has_node(visited@, graph_edges(self.graph)[e].1)
                            || seq_has_node(stack@, graph_edges(self.graph)[e].1) by {
                        let t = graph_edges(self.graph)[e].1;
                        if i < old_visited.len() {
                            if seq_has_node(old_visited, t) {
                                let j = choose|j: int| 0 <= j < old_visited.len()
                                    && old_visited[j] as int == t;
                                assert(visited@[j] as int == t);
                            } else {
                                assert(seq_has_node(old_stack, t));
                                let j = choose|j: int| 0 <= j < old_stack.len()
                                    && old_stack[j] as int == t;
                                if j < old_stack.len() - 1 {
                                    assert(mid_stack[j] as int == t);
                                    assert(stack@[j] as int == t);
                                } else {
                                    assert(t == n as int);
                                    assert(visited@[visited@.len() - 1] as int == t);
                                }
                            }
                        } else {
                            assert(visited@[i] == n);
                            let j = choose|j: int| 0 <= j < out@.len() && out@[j] as int == e;
                            assert(seq_has_node(stack@, graph_edges(self.graph)[out@[j] as int].1));
                        }
                    }
                }
            } else {
                proof {
                    assert forall|i: int| 0 <= i < self.current_nodes@.len()
                        implies visited@.contains(#[trigger] self.current_nodes@[i])
                            || stack@.contains(self.current_nodes@[i]) by {
                        let u = self.current_nodes@[i];
                        if old_stack.contains(u) && !old_visited.contains(u) {
                            let j = choose|j: int| 0 <= j < old_stack.len() && old_stack[j] == u;
                            if j < old_stack.len() - 1 {
                                assert(stack@[j] == u);
                            } else {
                                assert(visited@.contains(n));
                            }
                        }
                    }
                    assert forall|i: int, e: int|
                        #![trigger visited@[i], graph_edges(self.graph).dom().contains(e)]
                        0 <= i < visited@.len()
                            && graph_edges(self.graph).dom().contains(e)
                            && graph_edges(self.graph)[e].0 == visited@[i] as int
                        implies seq_has_node(visited@, graph_edges(self.graph)[e].1)
                            || seq_has_node(stack@, graph_edges(self.graph)[e].1) by {
                        let t = graph_edges(self.graph)[e].1;
                        if !seq_has_node(visited@, t) {
                            assert(seq_has_node(old_stack, t));
                            let j = choose|j: int| 0 <= j < old_stack.len()
                                && old_stack[j] as int == t;
                            if j < old_stack.len() - 1 {
                                assert(stack@[j] as int == t);
                            } else {
                                assert(t == n as int);
                                let jj = choose|jj: int| 0 <= jj < visited@.len()
                                    && visited@[jj] == n;
                                assert(seq_has_node(visited@, t));
                            }
                        }
                    }
                }
            }
        }
        proof {
            assert forall|i: int| 0 <= i < self.spec_frontier().len()
                implies !spec_accepts(
                    self.spec_graph(),
                    #[trigger] self.spec_frontier()[i],
                    point,
                    self.spec_threshold(),
                ) by {
                let u = self.current_nodes@[i];
                assert(visited@.contains(u));
                let j = choose|j: int| 0 <= j < visited@.len() && visited@[j] == u;
            }
            assert forall|n: int| #[trigger] spec_reachable_from(self.graph, frontier, n)
                implies !spec_accepts(self.graph, n, point, self.threshold as int) by {
                let w = choose|w: Seq<int>| #[trigger] spec_is_walk(self.graph, w)
                    && frontier.contains(w[0]) && w.last() == n;
                let j = choose|j: int| 0 <= j < frontier.len() && frontier[j] == w[0];
                assert(self.current_nodes@[j] as int == w[0]);
                assert(visited@.contains(self.current_nodes@[j]));
                let jj = choose|jj: int| 0 <= jj < visited@.len()
                    && visited@[jj] == self.current_nodes@[j];
                assert(seq_has_node(visited@, w[0]));
                lemma_walk_stays(self.graph, w, visited@);
                let jl = choose|jl: int| 0 <= jl < visited@.len() && visited@[jl] as int == w.last();
                assert(!spec_accepts(self.graph, visited@[jl] as int, point, self.threshold as int));
            }
        }
        true
    }
}

/// A walk that starts in a set of nodes closed under outgoing edges stays
/// in that set: its last node is in the set too.
proof fn lemma_walk_stays(g: RouteGraph, w: Seq<int>, visited: Seq<usize>)
    requires
        spec_is_walk(g, w),
        seq_has_node(visited, w[0]),
        forall|i: int, e: int|
            #![trigger visited[i], graph_edges(g).dom().contains(e)]
            0 <= i < visited.len()
                && graph_edges(g).dom().contains(e)
                && graph_edges(g)[e].0 == visited[i] as int
            ==> seq_has_node(visited, graph_edges(g)[e].1),
    ensures
        seq_has_node(visited, w.last()),
    decreases w.len(),
{
    if w.len() == 1 {
        assert(w.last() == w[0]);
    } else {
        assert(spec_step(g, w[0], w[1]));
        let e = choose|e: int| (#[trigger] graph_edges(g).dom().contains(e))
            && graph_edges(g)[e].0 == w[0]
            && graph_edges(g)[e].1 == w[1];
        let i = choose|i: int| 0 <= i < visited.len() && visited[i] as int == w[0];
        assert(seq_has_node(visited, w[1]));
        let w2 = w.subrange(1, w.len() as int);
        assert(w2[0] == w[1]);
        assert forall|j: int, jj: int|
            #![trigger w2[j], w2[jj]]
            0 <= j && jj == j + 1 && jj < w2.len()
            implies spec_step(g, w2[j], w2[jj]) by {
            assert(w2[j] == w[j + 1] && w2[jj] == w[jj + 1]);
            assert(spec_step(g, w[j + 1], w[jj + 1]));
        }
        assert(spec_is_walk(g, w2));
        lemma_walk_stays(g, w2, visited);
        assert(w2.last() == w.last());
    }
}

/// Linear membership test over a vector of node indices.
fn vec_contains(v: &Vec<usize>, x: usize) -> (r: bool)
    ensures
        r == v@.contains(x),
{
    let mut i: usize = 0;
    while i < v.len()
        invariant
            i <= v@.len(),
            forall|k: int| 0 <= k < i ==> v@[k] != x,
        decreases v@.len() - i,
    {
        if v[i] == x {
            return true;
        }
        i = i + 1;
    }
    false
}

/// A sequence of distinct indices all drawn from a finite set is no longer
/// than the set's cardinality.
proof fn lemma_distinct_in_dom_card(s: Seq<usize>, dom: Set<int>)
    requires
        s.no_duplicates(),
        dom.finite(),
        forall|i: int| 0 <= i < s.len() ==> dom.contains(#[trigger] s[i] as int),
    ensures
        s.len() <= dom.len(),
    decreases s.len(),
{
    if s.len() > 0 {
        let last = s[s.len() - 1] as int;
        let rest = s.drop_last();
        assert(forall|i: int| 0 <= i < rest.len() ==> rest[i] == s[i]);
        assert(forall|i: int| 0 <= i < rest.len()
            ==> dom.remove(last).contains(#[trigger] rest[i] as int));
        lemma_distinct_in_dom_card(rest, dom.remove(last));
    }
}

/// A product of nonnegative factors is nonnegative.
proof fn lemma_mul_nonneg(a: int, b: int)
    by (nonlinear_arith)
    requires
        0 <= a,
        0 <= b,
    ensures
        0 <= a * b,
{
}

/// The depth-first search measure strictly decreases when a new node is
/// visited: one fewer unvisited node pays for all the newly pushed edges.
proof fn lemma_measure_step(n_rem: int, e: int, s: int, p: int)
    by (nonlinear_arith)
    requires
        1 <= n_rem,
        0 <= e,
        1 <= s,
        0 <= p <= e,
    ensures
        0 <= (n_rem - 1) * (e + 1) + (s - 1) + p,
        (n_rem - 1) * (e + 1) + (s - 1) + p < n_rem * (e + 1) + s,
{
}

} // verus!
