//! Tests for the detector: frontier construction and the per-point
//! inlier/outlier classification over a route network.

use detour_detect::{Bbox, Detector, Point, RouteGraph};
use petgraph::stable_graph::StableGraph;

fn pt(x: i64, y: i64, t: i64) -> Point {
    Point { x, y, t }
}

fn bbox(x1: i64, x2: i64, y1: i64, y2: i64, t1: i64, t2: i64) -> Bbox {
    Bbox { x1, x2, y1, y2, t1, t2 }
}

#[test]
fn single_root_region_classifies() {
    // One root node whose region covers x, y in [0, 10], any time.
    let mut g: RouteGraph = StableGraph::default();
    g.add_node(bbox(0, 10, 0, 10, 0, i64::MAX));
    let detector = Detector::new(g, 50);
    assert!(!detector.is_outlier(pt(5, 5, 1)));
    assert!(detector.is_outlier(pt(1000, 1000, 1)));
}

#[test]
fn empty_frontier_always_outlier() {
    // An empty network has no roots: every point is an outlier.
    let g: RouteGraph = StableGraph::default();
    let detector = Detector::new(g, 50);
    assert!(detector.is_outlier(pt(0, 0, 0)));
    assert!(detector.is_outlier(pt(5, 5, 1)));
    assert!(detector.is_outlier(pt(-100, 700, 999)));
    // A cycle has no root either, so the frontier is empty even though
    // regions would contain the point.
    let mut c: RouteGraph = StableGraph::default();
    let a = c.add_node(bbox(0, 10, 0, 10, 0, 100));
    let b = c.add_node(bbox(0, 10, 0, 10, 0, 100));
    c.add_edge(a, b, vec![pt(0, 0, 0)]);
    c.add_edge(b, a, vec![pt(0, 0, 0)]);
    let detector = Detector::new(c, 50);
    assert!(detector.is_outlier(pt(5, 5, 1)));
}

#[test]
fn containment_ignores_time_axis() {
    // The per-point test is spatial only: a point outside the region's
    // time window is still an inlier.
    let mut g: RouteGraph = StableGraph::default();
    g.add_node(bbox(0, 10, 0, 10, 0, 100));
    let detector = Detector::new(g, 50);
    assert!(!detector.is_outlier(pt(5, 5, 999_999)));
}

#[test]
fn outgoing_edge_path_accepts() {
    // The root's region misses the point, but its outgoing edge's path
    // passes within the threshold.
    let mut g: RouteGraph = StableGraph::default();
    let root = g.add_node(bbox(0, 10, 0, 10, 0, 100));
    let far = g.add_node(bbox(990, 1000, 0, 10, 0, 100));
    g.add_edge(root, far, vec![pt(0, 0, 0), pt(1000, 0, 100)]);
    let detector = Detector::new(g, 50);
    assert!(!detector.is_outlier(pt(500, 30, 77)));
    assert!(detector.is_outlier(pt(500, 80, 77)));
}

#[test]
fn search_reaches_nodes_behind_edges() {
    // A chain root -> mid -> far; the point lies only in far's region, so
    // the search must follow two edges to accept it.
    let mut g: RouteGraph = StableGraph::default();
    let root = g.add_node(bbox(0, 10, 0, 10, 0, 100));
    let mid = g.add_node(bbox(500, 510, 0, 10, 0, 100));
    let far = g.add_node(bbox(990, 1000, 0, 10, 0, 100));
    g.add_edge(root, mid, vec![pt(0, 0, 0), pt(500, 0, 50)]);
    g.add_edge(mid, far, vec![pt(500, 0, 50), pt(1000, 0, 100)]);
    let detector = Detector::new(g, 1);
    assert!(!detector.is_outlier(pt(995, 5, 0)));
    assert!(detector.is_outlier(pt(995, 500, 0)));
}

#[test]
fn unreachable_components_are_not_searched() {
    // The island node contains the point but no root reaches it, and the
    // island is not a root only if it has an incoming edge; give it one
    // from another island node, forming a cycle aside the root.
    let mut g: RouteGraph = StableGraph::default();
    g.add_node(bbox(0, 10, 0, 10, 0, 100));
    let island_a = g.add_node(bbox(500, 510, 0, 10, 0, 100));
    let island_b = g.add_node(bbox(600, 610, 0, 10, 0, 100));
    g.add_edge(island_a, island_b, vec![pt(505, 5, 0)]);
    g.add_edge(island_b, island_a, vec![pt(605, 5, 0)]);
    let detector = Detector::new(g, 1);
    assert!(detector.is_outlier(pt(505, 5, 0)));
    assert!(!detector.is_outlier(pt(5, 5, 0)));
}

#[test]
fn reversed_region_bounds_starve_the_node() {
    // Reversed bounds are not rejected; containment is simply always false,
    // so the node never accepts.
    let mut g: RouteGraph = StableGraph::default();
    g.add_node(bbox(10, 0, 0, 10, 0, 100));
    let detector = Detector::new(g, 50);
    assert!(detector.is_outlier(pt(5, 5, 50)));
}

#[test]
fn try_new_rejects_out_of_range_inputs() {
    let mut g: RouteGraph = StableGraph::default();
    let a = g.add_node(bbox(0, 10, 0, 10, 0, 100));
    let b = g.add_node(bbox(90, 110, 0, 10, 0, 100));
    g.add_edge(a, b, vec![pt(0, 0, 0), pt(100, 0, 100)]);
    assert!(Detector::try_new(g.clone(), -1).is_none());
    assert!(Detector::try_new(g.clone(), 50).is_some());
    let mut far = g.clone();
    let c = far.add_node(bbox(0, 10, 0, 10, 0, 100));
    far.add_edge(a, c, vec![pt(i64::MAX, 0, 0)]);
    assert!(Detector::try_new(far, 50).is_none());
}

#[test]
fn multiple_roots_all_seed_the_search() {
    let mut g: RouteGraph = StableGraph::default();
    g.add_node(bbox(0, 10, 0, 10, 0, 100));
    g.add_node(bbox(200, 210, 200, 210, 0, 100));
    let detector = Detector::new(g, 50);
    assert!(!detector.is_outlier(pt(5, 5, 0)));
    assert!(!detector.is_outlier(pt(205, 205, 0)));
    assert!(detector.is_outlier(pt(100, 100, 0)));
}
