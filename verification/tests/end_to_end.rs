//! End-to-end scenario: a one-root network with one outgoing path, a short
//! stream of points, and the debounced alarm.

use detour_detect::{
    AlarmPolicy, Bbox, Detector, Point, RouteGraph, Verdict, time_of_day_ms, verdict,
};
use petgraph::stable_graph::StableGraph;

fn pt(x: i64, y: i64, t: i64) -> Point {
    Point { x, y, t }
}

#[test]
fn detour_raises_alarm_on_third_outlier_of_run() {
    // One root region: a 100 m square around the origin for t in [0, 1000],
    // with one outgoing edge path (0,0,0) -> (100,0,1000).
    let mut g: RouteGraph = StableGraph::default();
    let root = g.add_node(Bbox { x1: -50, x2: 50, y1: -50, y2: 50, t1: 0, t2: 1000 });
    let end = g.add_node(Bbox { x1: 90, x2: 110, y1: -10, y2: 10, t1: 0, t2: 1000 });
    g.add_edge(root, end, vec![pt(0, 0, 0), pt(100, 0, 1000)]);

    let detector = Detector::new(g, 50);
    let mut policy = AlarmPolicy::new(1);

    let stream = [
        (pt(0, 0, 0), false),
        (pt(500, 500, 500), true),
        (pt(600, 600, 600), true),
        (pt(700, 700, 700), true),
    ];

    let mut last_truth: Option<Point> = None;
    let mut classifications = Vec::new();
    for (point, truth) in stream {
        if truth {
            last_truth = Some(point);
        }
        let outlier = detector.is_outlier(point);
        classifications.push(outlier);
        policy.observe(point, outlier);
    }

    // Per-point trace: inlier, then an unbroken run of three outliers.
    assert_eq!(classifications, vec![false, true, true, true]);
    // With sensitivity 1 the alarm fires on the third point of the run
    // (the strict greater-than test is applied before the count grows).
    assert_eq!(policy.first_detection(), Some(pt(700, 700, 700)));
    assert_eq!(verdict(last_truth, policy.first_detection()), Verdict::TruePositive);
}

#[test]
fn clean_run_is_true_negative() {
    let mut g: RouteGraph = StableGraph::default();
    g.add_node(Bbox { x1: -50, x2: 50, y1: -50, y2: 50, t1: 0, t2: 1000 });
    let detector = Detector::new(g, 50);
    let mut policy = AlarmPolicy::new(1);
    for point in [pt(0, 0, 0), pt(10, 10, 100), pt(-20, 5, 200)] {
        let outlier = detector.is_outlier(point);
        assert!(!outlier);
        policy.observe(point, outlier);
    }
    assert_eq!(verdict(None, policy.first_detection()), Verdict::TrueNegative);
}

#[test]
fn time_of_day_converts_to_milliseconds() {
    assert_eq!(time_of_day_ms(0, 0, 0, 0), 0);
    assert_eq!(time_of_day_ms(12, 34, 56, 789), 45_296_789);
    assert_eq!(time_of_day_ms(23, 59, 59, 999), 86_399_999);
}
