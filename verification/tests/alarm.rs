//! Tests for the alarm policy's debounce and the final verdict.

use detour_detect::{AlarmPolicy, Point, Verdict, verdict};

fn pt(x: i64, y: i64, t: i64) -> Point {
    Point { x, y, t }
}

#[test]
fn two_consecutive_outliers_do_not_fire() {
    let mut policy = AlarmPolicy::new(1);
    policy.observe(pt(1, 0, 1), true);
    policy.observe(pt(2, 0, 2), true);
    assert!(policy.first_detection().is_none());
}

#[test]
fn third_consecutive_outlier_fires_with_its_point() {
    let mut policy = AlarmPolicy::new(1);
    policy.observe(pt(1, 0, 1), true);
    policy.observe(pt(2, 0, 2), true);
    policy.observe(pt(3, 0, 3), true);
    assert_eq!(policy.first_detection(), Some(pt(3, 0, 3)));
    // Longer runs keep the first qualifying point.
    policy.observe(pt(4, 0, 4), true);
    assert_eq!(policy.first_detection(), Some(pt(3, 0, 3)));
}

#[test]
fn inlier_resets_the_run() {
    let mut policy = AlarmPolicy::new(1);
    policy.observe(pt(1, 0, 1), true);
    policy.observe(pt(2, 0, 2), true);
    policy.observe(pt(3, 0, 3), false);
    policy.observe(pt(4, 0, 4), true);
    policy.observe(pt(5, 0, 5), true);
    assert!(policy.first_detection().is_none());
    policy.observe(pt(6, 0, 6), true);
    assert_eq!(policy.first_detection(), Some(pt(6, 0, 6)));
}

#[test]
fn detection_is_sticky_across_inliers() {
    let mut policy = AlarmPolicy::new(0);
    policy.observe(pt(1, 0, 1), true);
    policy.observe(pt(2, 0, 2), true);
    assert_eq!(policy.first_detection(), Some(pt(2, 0, 2)));
    policy.observe(pt(3, 0, 3), false);
    assert_eq!(policy.first_detection(), Some(pt(2, 0, 2)));
}

#[test]
fn verdict_covers_all_four_cases() {
    let p = pt(1, 2, 3);
    assert_eq!(verdict(Some(p), Some(p)), Verdict::TruePositive);
    assert_eq!(verdict(Some(p), None), Verdict::FalseNegative);
    assert_eq!(verdict(None, Some(p)), Verdict::FalsePositive);
    assert_eq!(verdict(None, None), Verdict::TrueNegative);
}
