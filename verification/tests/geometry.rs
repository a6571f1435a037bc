//! Tests for the exact geometry kernel: region containment, point/segment
//! distance, segment intersection and perpendicular projection.

use detour_detect::{Bbox, Line, Point, Point2, euclid_sq, on_trj};

fn pt(x: i64, y: i64, t: i64) -> Point {
    Point { x, y, t }
}

fn bbox(x1: i64, x2: i64, y1: i64, y2: i64, t1: i64, t2: i64) -> Bbox {
    Bbox { x1, x2, y1, y2, t1, t2 }
}

#[test]
fn contains_requires_all_three_axes() {
    let b = bbox(0, 10, 0, 10, 0, 100);
    assert!(b.contains(pt(5, 5, 50)));
    assert!(!b.contains(pt(5, 5, 200)));
    assert!(!b.contains(pt(11, 5, 50)));
    assert!(!b.contains(pt(5, -1, 50)));
}

#[test]
fn contains_is_spatial_and_temporal_conjunction() {
    let b = bbox(-3, 7, 2, 9, 10, 20);
    let samples = [
        pt(0, 5, 15),
        pt(0, 5, 25),
        pt(8, 5, 15),
        pt(-3, 2, 10),
        pt(7, 9, 20),
        pt(-4, 5, 15),
    ];
    for p in samples {
        let spatial = b.spatially_contains(p);
        let temporal = b.t1 <= p.t && p.t <= b.t2;
        assert_eq!(b.contains(p), spatial && temporal);
    }
}

#[test]
fn spatially_contains_ignores_time() {
    let b = bbox(0, 10, 0, 10, 0, 100);
    assert!(b.spatially_contains(pt(5, 5, 999_999)));
    assert!(!b.spatially_contains(pt(50, 5, 50)));
}

#[test]
fn reversed_bounds_never_contain() {
    let b = bbox(10, 0, 0, 10, 0, 100);
    assert!(!b.contains(pt(5, 5, 50)));
    assert!(!b.spatially_contains(pt(5, 5, 50)));
}

#[test]
fn is_after_compares_start_of_window() {
    let b = bbox(0, 10, 0, 10, 100, 200);
    assert!(b.is_after(pt(5, 5, 50)));
    assert!(!b.is_after(pt(5, 5, 100)));
    assert!(!b.is_after(pt(5, 5, 150)));
}

#[test]
fn euclid_sq_exact_values() {
    assert_eq!(euclid_sq(pt(0, 0, 0), pt(3, 4, 77)), 25);
    assert_eq!(euclid_sq(pt(-2, -2, 0), pt(1, 2, 0)), 25);
    assert_eq!(euclid_sq(pt(5, 5, 0), pt(5, 5, 0)), 0);
}

#[test]
fn intersection_of_crossing_segments() {
    let a = Line::from(Point2 { x: 0, y: 0 }, Point2 { x: 10, y: 0 });
    let b = Line::from(Point2 { x: 5, y: -5 }, Point2 { x: 5, y: 5 });
    let r = a.intersection(&b).expect("segments cross");
    // The exact intersection is (5, 0): num_x / den == 5, num_y / den == 0.
    assert_eq!(r.num_x, 5 * r.den);
    assert_eq!(r.num_y, 0);
    assert_ne!(r.den, 0);
}

#[test]
fn intersection_none_when_crossing_point_outside_segments() {
    let a = Line::from(Point2 { x: 0, y: 0 }, Point2 { x: 10, y: 0 });
    let b = Line::from(Point2 { x: 20, y: -5 }, Point2 { x: 20, y: 5 });
    assert!(a.intersection(&b).is_none());
}

#[test]
fn parallel_segments_never_intersect() {
    // Disjoint parallel, overlapping collinear, and identical segments.
    let a = Line::from(Point2 { x: 0, y: 0 }, Point2 { x: 10, y: 10 });
    let b = Line::from(Point2 { x: 0, y: 1 }, Point2 { x: 10, y: 11 });
    assert!(a.intersection(&b).is_none());
    let c = Line::from(Point2 { x: 5, y: 5 }, Point2 { x: 15, y: 15 });
    assert!(a.intersection(&c).is_none());
    assert!(a.intersection(&a).is_none());
}

#[test]
fn projection_finds_foot_within_segment() {
    let l = Line::from(Point2 { x: 0, y: 0 }, Point2 { x: 10, y: 0 });
    let r = l.project_point(pt(5, 3, 0), 4).expect("foot within threshold");
    // The exact foot is (5, 0).
    assert_eq!(r.num_x, 5 * r.den);
    assert_eq!(r.num_y, 0);
    // Out of reach when the threshold is smaller than the distance.
    assert!(l.project_point(pt(5, 3, 0), 2).is_none());
    // No projection when the foot falls outside the segment.
    assert!(l.project_point(pt(20, 1, 0), 4).is_none());
}

#[test]
fn distance_is_exact_squared_fraction() {
    let l = Line::from(Point2 { x: 0, y: 0 }, Point2 { x: 10, y: 0 });
    let d = l.distance(pt(5, 3, 0), 4).expect("projection succeeds");
    // Squared distance 9 = num / den.
    assert_eq!(d.num, 9 * d.den);
    assert!(d.den > 0);
    // Degenerate segment: no projection, infinite distance.
    let z = Line::from(Point2 { x: 1, y: 1 }, Point2 { x: 1, y: 1 });
    assert!(z.distance(pt(1, 2, 0), 100).is_none());
}

#[test]
fn path_proximity_single_segment() {
    let path = vec![pt(0, 0, 0), pt(10, 0, 10)];
    // Smallest positive threshold on the integer grid: a point exactly on
    // the segment is accepted.
    assert!(on_trj(&path, pt(5, 0, 5), 1));
    // Far off the segment: rejected.
    assert!(!on_trj(&path, pt(5, 1000, 5), 1));
    // An exact vertex is accepted for any positive threshold.
    assert!(on_trj(&path, pt(0, 0, 0), 1));
    assert!(on_trj(&path, pt(10, 0, 10), 1));
}

#[test]
fn path_proximity_checks_vertices_and_projection() {
    let path = vec![pt(0, 0, 0), pt(100, 0, 0), pt(100, 100, 0)];
    // Near the middle of the first segment.
    assert!(on_trj(&path, pt(50, 30, 0), 31));
    assert!(!on_trj(&path, pt(50, 30, 0), 30));
    // Near the shared vertex, beyond both segments' perpendicular reach.
    assert!(on_trj(&path, pt(110, -10, 0), 15));
    // Single-vertex path: only the vertex distance applies.
    let single = vec![pt(0, 0, 0)];
    assert!(on_trj(&single, pt(3, 4, 0), 6));
    assert!(!on_trj(&single, pt(3, 4, 0), 5));
    // Empty path: nothing is close.
    let empty: Vec<Point> = vec![];
    assert!(!on_trj(&empty, pt(0, 0, 0), 1000));
}
