//! Axis-aligned space-time boxes (regions) attached to route nodes.

use vstd::prelude::*;
use crate::Point;

verus! {

/// An axis-aligned box over space and time: a place-and-time window in which
/// the moving object is presumed to be near a known node of the network.
///
/// Reversed bounds (for example `x1 > x2`) are not rejected; containment is
/// then simply always false on that axis.
#[derive(Clone, Copy, Debug, PartialEq, Eq, Structural)]
pub struct Bbox {
    pub x1: i64,
    pub x2: i64,
    pub y1: i64,
    pub y2: i64,
    pub t1: i64,
    pub t2: i64,
}

/// The point lies in the closed spatial intervals of the box, time ignored.
pub open spec fn spec_spatially_contains(b: Bbox, p: Point) -> bool {
    b.x1 <= p.x <= b.x2 && b.y1 <= p.y <= b.y2
}

/// The point lies in the closed spatial and temporal intervals of the box.
pub open spec fn spec_contains(b: Bbox, p: Point) -> bool {
    spec_spatially_contains(b, p) && b.t1 <= p.t <= b.t2
}

impl Bbox {
    /// True iff `point` lies within the box on all three axes.
    pub fn contains(&self, point: Point) -> (r: bool)
        ensures
            r == spec_contains(*self, point),
    {
        let x = self.x1 <= point.x && point.x <= self.x2;
        let y = self.y1 <= point.y && point.y <= self.y2;
        let t = self.t1 <= point.t && point.t <= self.t2;
        x && y && t
    }

    /// True iff `point` lies within the box on the two spatial axes,
    /// ignoring time.
    pub fn spatially_contains(&self, point: Point) -> (r: bool)
        ensures
            r == spec_spatially_contains(*self, point),
    {
        let x = self.x1 <= point.x && point.x <= self.x2;
        let y = self.y1 <= point.y && point.y <= self.y2;
        x && y
    }

    /// True iff the box's time window starts strictly after `point`'s time.
    pub fn is_after(&self, point: Point) -> (r: bool)
        ensures
            r == (point.t < self.t1),
    {
        point.t < self.t1
    }
}

/// Full containment is exactly spatial containment together with the point's
/// time lying in the box's closed time window.
pub proof fn lemma_contains_is_spatial_and_temporal(b: Bbox, p: Point)
    ensures
        spec_contains(b, p) <==> (spec_spatially_contains(b, p) && b.t1 <= p.t <= b.t2),
{
}

} // verus!
