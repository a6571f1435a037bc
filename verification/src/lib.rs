//! Detour detection: classifies a stream of timestamped planar positions as
//! consistent with a known route network (inliers) or off-network (outliers),
//! and raises a debounced anomaly alarm after a run of consecutive outliers.
//!
//! Coordinates are integer planar units (meters) and integer time units
//! (milliseconds); all geometry is exact integer arithmetic.

use vstd::prelude::*;

mod alarm;
mod bbox;
mod edge;
mod outlier_detection;
mod parse;
mod route_graph;

pub use alarm::{AlarmPolicy, Verdict, verdict};
pub use bbox::Bbox;
pub use edge::{Line, Point2, RatPoint, DistSq, euclid_sq, on_trj};
pub use outlier_detection::Detector;
pub use parse::{LoadError, PointRecord, time_of_day_ms};
pub use route_graph::{RouteGraph, paths_bounded};

verus! {

/// Largest magnitude allowed for a planar coordinate or a distance threshold
/// entering the geometry kernel; keeps every intermediate product of the
/// exact integer geometry within `i128`.
pub const COORD_LIMIT: i64 = 1_000_000_000;

/// A timestamped planar position: x and y in planar units, t in time units.
#[derive(Clone, Copy, Debug, PartialEq, Eq, Structural)]
pub struct Point {
    pub x: i64,
    pub y: i64,
    pub t: i64,
}

/// A point whose planar coordinates are small enough for the exact
/// integer geometry to evaluate without overflow.
pub open spec fn pt_bounded(p: Point) -> bool {
    -COORD_LIMIT <= p.x <= COORD_LIMIT && -COORD_LIMIT <= p.y <= COORD_LIMIT
}

} // verus!
