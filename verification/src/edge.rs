//! Exact planar geometry: point/segment distance, segment-segment
//! intersection, perpendicular projection, and the point-to-polyline
//! proximity test used by the detector.
//!
//! All computations are exact: distances are compared through their squares,
//! and points produced by intersection or projection are represented as
//! rational coordinates (numerator / denominator), so no rounding occurs.

use vstd::prelude::*;
use crate::{Point, pt_bounded, COORD_LIMIT};

verus! {

/// A planar point, time ignored.
#[derive(Clone, Copy, Debug, PartialEq, Eq, Structural)]
pub struct Point2 {
    pub x: i64,
    pub y: i64,
}

/// A directed planar line segment.
#[derive(Clone, Copy, Debug, PartialEq, Eq, Structural)]
pub struct Line {
    pub start: Point2,
    pub end: Point2,
}

/// An exact planar point with rational coordinates
/// `(num_x / den, num_y / den)`; `den` is never zero.
#[derive(Clone, Copy, Debug, PartialEq, Eq, Structural)]
pub struct RatPoint {
    pub num_x: i128,
    pub num_y: i128,
    pub den: i128,
}

/// An exact squared distance `num / den`; `den` is positive.
#[derive(Clone, Copy, Debug, PartialEq, Eq, Structural)]
pub struct DistSq {
    pub num: i128,
    pub den: i128,
}

pub open spec fn pt2_bounded(p: Point2) -> bool {
    -COORD_LIMIT <= p.x <= COORD_LIMIT && -COORD_LIMIT <= p.y <= COORD_LIMIT
}

pub open spec fn line_bounded(l: Line) -> bool {
    pt2_bounded(l.start) && pt2_bounded(l.end)
}

/// Squared planar distance between two points, ignoring time.
pub open spec fn spec_dist_sq(p: Point, q: Point) -> int {
    (p.x - q.x) * (p.x - q.x) + (p.y - q.y) * (p.y - q.y)
}

/// Denominator of the parametric segment-intersection formulation; it is
/// the cross product of the two segments' direction vectors, so it is zero
/// exactly when the segments are parallel or degenerate.
pub open spec fn spec_denom(a: Line, b: Line) -> int {
    (a.start.x - a.end.x) * (b.start.y - b.end.y)
        - (a.start.y - a.end.y) * (b.start.x - b.end.x)
}

/// Numerator of the intersection parameter `t` along segment `a`.
pub open spec fn spec_t_num(a: Line, b: Line) -> int {
    (a.start.x - b.start.x) * (b.start.y - b.end.y)
        - (a.start.y - b.start.y) * (b.start.x - b.end.x)
}

/// Numerator of the intersection parameter `u` along segment `b`.
pub open spec fn spec_u_num(a: Line, b: Line) -> int {
    (a.start.x - b.start.x) * (a.start.y - a.end.y)
        - (a.start.y - b.start.y) * (a.start.x - a.end.x)
}

/// The rational `num / den` lies in the closed interval `[0, 1]`
/// (`den` nonzero).
pub open spec fn in_unit_interval(num: int, den: int) -> bool {
    (den > 0 && 0 <= num <= den) || (den < 0 && den <= num <= 0)
}

/// The two segments meet in exactly one point, and that point lies within
/// both segments: the parameters `t` and `u` both lie in `[0, 1]`.
pub open spec fn spec_intersects(a: Line, b: Line) -> bool {
    &&& spec_denom(a, b) != 0
    &&& in_unit_interval(spec_t_num(a, b), spec_denom(a, b))
    &&& in_unit_interval(spec_u_num(a, b), spec_denom(a, b))
}

/// The two segments are parallel (or one of them is degenerate): the cross
/// product of their direction vectors is zero.
pub open spec fn spec_parallel(a: Line, b: Line) -> bool {
    (a.end.x - a.start.x) * (b.end.y - b.start.y)
        == (a.end.y - a.start.y) * (b.end.x - b.start.x)
}

/// Squared length of a segment.
pub open spec fn spec_len_sq(l: Line) -> int {
    (l.end.x - l.start.x) * (l.end.x - l.start.x)
        + (l.end.y - l.start.y) * (l.end.y - l.start.y)
}

/// Numerator of the perpendicular-foot parameter of `p` along `l`
/// (the denominator is `spec_len_sq(l)`).
pub open spec fn spec_t_dot(l: Line, p: Point) -> int {
    (p.x - l.start.x) * (l.end.x - l.start.x)
        + (p.y - l.start.y) * (l.end.y - l.start.y)
}

/// Cross product of `l`'s direction with the vector from `l.start` to `p`;
/// its square over `spec_len_sq(l)` is the squared distance from `p` to the
/// line through `l`.
pub open spec fn spec_cross(l: Line, p: Point) -> int {
    (l.end.x - l.start.x) * (p.y - l.start.y)
        - (l.end.y - l.start.y) * (p.x - l.start.x)
}

/// The perpendicular projection of `p` onto `l` exists: the segment is not
/// degenerate, the foot of the perpendicular lies within the segment, and
/// the foot is within `thr` of `p`.
pub open spec fn spec_projects(l: Line, p: Point, thr: int) -> bool {
    &&& spec_len_sq(l) != 0
    &&& 0 <= spec_t_dot(l, p) <= spec_len_sq(l)
    &&& spec_cross(l, p) * spec_cross(l, p) <= thr * thr * spec_len_sq(l)
}

/// `p` is strictly within `thr` of the vertex `q`, planar distance.
pub open spec fn spec_vertex_close(q: Point, p: Point, thr: int) -> bool {
    spec_dist_sq(p, q) < thr * thr
}

/// The segment from `q1` to `q2` passes strictly within `thr` of `p`,
/// measured through the perpendicular projection.
pub open spec fn spec_seg_close(q1: Point, q2: Point, p: Point, thr: int) -> bool {
    &&& spec_projects(seg_of(q1, q2), p, thr)
    &&& spec_cross(seg_of(q1, q2), p) * spec_cross(seg_of(q1, q2), p)
        < thr * thr * spec_len_sq(seg_of(q1, q2))
}

/// The planar segment between two timestamped path vertices.
pub open spec fn seg_of(q1: Point, q2: Point) -> Line {
    Line { start: Point2 { x: q1.x, y: q1.y }, end: Point2 { x: q2.x, y: q2.y } }
}

/// `p` lies within `thr` of the polyline `s`: strictly within `thr` of some
/// vertex, or strictly within `thr` of some segment through its
/// perpendicular projection.
pub open spec fn spec_path_close(s: Seq<Point>, p: Point, thr: int) -> bool {
    ||| exists|i: int| 0 <= i < s.len() && #[trigger] spec_vertex_close(s[i], p, thr)
    ||| exists|i: int| 0 <= i && i + 1 < s.len() && #[trigger] spec_seg_close(s[i], s[i + 1], p, thr)
}

/// Bounds on a product from bounds on its factors.
pub proof fn lemma_mul_bound(a: int, b: int, ma: int, mb: int)
    by (nonlinear_arith)
    requires
        -ma <= a <= ma,
        -mb <= b <= mb,
    ensures
        -(ma * mb) <= a * b <= ma * mb,
{
}

/// Squared planar distance between two points, exact.
pub fn euclid_sq(p: Point, q: Point) -> (r: i128)
    requires
        pt_bounded(p),
        pt_bounded(q),
    ensures
        r as int == spec_dist_sq(p, q),
        r >= 0,
{
    let dx: i128 = p.x as i128 - q.x as i128;
    let dy: i128 = p.y as i128 - q.y as i128;
    proof {
        lemma_mul_bound(dx as int, dx as int, 2_000_000_000, 2_000_000_000);
        lemma_mul_bound(dy as int, dy as int, 2_000_000_000, 2_000_000_000);
        lemma_sq_nonneg(dx as int);
        lemma_sq_nonneg(dy as int);
    }
    dx * dx + dy * dy
}

/// A product of a value with itself is nonnegative.
pub proof fn lemma_sq_nonneg(a: int)
    by (nonlinear_arith)
    ensures
        a * a >= 0,
{
}

/// The squared length of a bounded segment stays within the range the
/// exact arithmetic relies on.
pub proof fn lemma_len_sq_bound(l: Line)
    requires
        line_bounded(l),
    ensures
        0 <= spec_len_sq(l) <= 8_000_000_000_000_000_000,
{
    lemma_mul_bound(l.end.x - l.start.x, l.end.x - l.start.x, 2_000_000_000, 2_000_000_000);
    lemma_mul_bound(l.end.y - l.start.y, l.end.y - l.start.y, 2_000_000_000, 2_000_000_000);
    lemma_sq_nonneg(l.end.x - l.start.x);
    lemma_sq_nonneg(l.end.y - l.start.y);
}

impl Line {
    /// Creates a planar line segment from two planar points.
    pub fn from(a: Point2, b: Point2) -> (r: Line)
        ensures
            r.start == a,
            r.end == b,
    {
        Line { start: a, end: b }
    }

    /// Determines the intersection point of two line segments, exactly.
    ///
    /// Returns the intersection point (as exact rational coordinates) only
    /// when the segments are not parallel and the intersection parameters
    /// `t` and `u` both lie in `[0, 1]`; parallel, collinear and degenerate
    /// configurations yield `None`.
    pub fn intersection(&self, other: &Line) -> (r: Option<RatPoint>)
        requires
            line_bounded(*self),
            line_bounded(*other),
        ensures
            r.is_some() == spec_intersects(*self, *other),
            r.is_some() ==> {
                &&& r.unwrap().den as int == spec_denom(*self, *other)
                &&& r.unwrap().num_x as int == self.start.x * spec_denom(*self, *other)
                    + spec_t_num(*self, *other) * (self.end.x - self.start.x)
                &&& r.unwrap().num_y as int == self.start.y * spec_denom(*self, *other)
                    + spec_t_num(*self, *other) * (self.end.y - self.start.y)
            },
    {
        let x1 = self.start.x as i128;
        let y1 = self.start.y as i128;
        let x2 = self.end.x as i128;
        let y2 = self.end.y as i128;
        let x3 = other.start.x as i128;
        let y3 = other.start.y as i128;
        let x4 = other.end.x as i128;
        let y4 = other.end.y as i128;
        proof {
            lemma_mul_bound((x1 - x2) as int, (y3 - y4) as int, 2_000_000_000, 2_000_000_000);
            lemma_mul_bound((y1 - y2) as int, (x3 - x4) as int, 2_000_000_000, 2_000_000_000);
            lemma_mul_bound((x1 - x3) as int, (y3 - y4) as int, 2_000_000_000, 2_000_000_000);
            lemma_mul_bound((y1 - y3) as int, (x3 - x4) as int, 2_000_000_000, 2_000_000_000);
            lemma_mul_bound((x1 - x3) as int, (y1 - y2) as int, 2_000_000_000, 2_000_000_000);
            lemma_mul_bound((y1 - y3) as int, (x1 - x2) as int, 2_000_000_000, 2_000_000_000);
        }
        let denom = (x1 - x2) * (y3 - y4) - (y1 - y2) * (x3 - x4);
        if denom == 0 {
            return None;
        }
        let t_num = (x1 - x3) * (y3 - y4) - (y1 - y3) * (x3 - x4);
        let u_num = (x1 - x3) * (y1 - y2) - (y1 - y3) * (x1 - x2);
        let t_ok = if denom > 0 { 0 <= t_num && t_num <= denom } else { denom <= t_num && t_num <= 0 };
        let u_ok = if denom > 0 { 0 <= u_num && u_num <= denom } else { denom <= u_num && u_num <= 0 };
        if t_ok && u_ok {
            proof {
                lemma_mul_bound(x1 as int, denom as int, 1_000_000_000, 8_000_000_000_000_000_000);
                lemma_mul_bound(y1 as int, denom as int, 1_000_000_000, 8_000_000_000_000_000_000);
                lemma_mul_bound(t_num as int, (x2 - x1) as int, 8_000_000_000_000_000_000, 2_000_000_000);
                lemma_mul_bound(t_num as int, (y2 - y1) as int, 8_000_000_000_000_000_000, 2_000_000_000);
            }
            Some(RatPoint {
                num_x: x1 * denom + t_num * (x2 - x1),
                num_y: y1 * denom + t_num * (y2 - y1),
                den: denom,
            })
        } else {
            None
        }
    }

    /// Projects `point` perpendicularly onto this segment, exactly.
    ///
    /// Returns the foot of the perpendicular (as exact rational coordinates)
    /// only when the segment is not degenerate, the foot lies within the
    /// segment, and the foot is within `threshold` of `point`; otherwise
    /// `None`.
    pub fn project_point(&self, point: Point, threshold: i64) -> (r: Option<RatPoint>)
        requires
            line_bounded(*self),
            pt_bounded(point),
            0 <= threshold <= COORD_LIMIT,
        ensures
            r.is_some() == spec_projects(*self, point, threshold as int),
            r.is_some() ==> {
                &&& r.unwrap().den as int == spec_len_sq(*self)
                &&& r.unwrap().num_x as int == self.start.x * spec_len_sq(*self)
                    + spec_t_dot(*self, point) * (self.end.x - self.start.x)
                &&& r.unwrap().num_y as int == self.start.y * spec_len_sq(*self)
                    + spec_t_dot(*self, point) * (self.end.y - self.start.y)
            },
    {
        let x1 = self.start.x as i128;
        let y1 = self.start.y as i128;
        let px = point.x as i128;
        let py = point.y as i128;
        let dx = self.end.x as i128 - x1;
        let dy = self.end.y as i128 - y1;
        proof {
            lemma_mul_bound(dx as int, dx as int, 2_000_000_000, 2_000_000_000);
            lemma_mul_bound(dy as int, dy as int, 2_000_000_000, 2_000_000_000);
            lemma_mul_bound((px - x1) as int, dx as int, 2_000_000_000, 2_000_000_000);
            lemma_mul_bound((py - y1) as int, dy as int, 2_000_000_000, 2_000_000_000);
            lemma_mul_bound(dx as int, (py - y1) as int, 2_000_000_000, 2_000_000_000);
            lemma_mul_bound(dy as int, (px - x1) as int, 2_000_000_000, 2_000_000_000);
            lemma_mul_bound(threshold as int, threshold as int, 1_000_000_000, 1_000_000_000);
        }
        let len_sq = dx * dx + dy * dy;
        if len_sq == 0 {
            return None;
        }
        let t_dot = (px - x1) * dx + (py - y1) * dy;
        if t_dot < 0 || t_dot > len_sq {
            return None;
        }
        let cr = dx * (py - y1) - dy * (px - x1);
        let thr2 = (threshold as i128) * (threshold as i128);
        proof {
            lemma_mul_bound(cr as int, cr as int, 8_000_000_000_000_000_000, 8_000_000_000_000_000_000);
            lemma_mul_bound(thr2 as int, len_sq as int, 1_000_000_000_000_000_000, 8_000_000_000_000_000_000);
        }
        if cr * cr > thr2 * len_sq {
            return None;
        }
        proof {
            lemma_mul_bound(x1 as int, len_sq as int, 1_000_000_000, 8_000_000_000_000_000_000);
            lemma_mul_bound(y1 as int, len_sq as int, 1_000_000_000, 8_000_000_000_000_000_000);
            lemma_mul_bound(t_dot as int, dx as int, 8_000_000_000_000_000_000, 2_000_000_000);
            lemma_mul_bound(t_dot as int, dy as int, 8_000_000_000_000_000_000, 2_000_000_000);
        }
        Some(RatPoint {
            num_x: x1 * len_sq + t_dot * dx,
            num_y: y1 * len_sq + t_dot * dy,
            den: len_sq,
        })
    }

    /// Squared distance from `point` to its perpendicular projection onto
    /// this segment, as the exact fraction `num / den`.
    ///
    /// Returns `None` when the projection fails (callers treat that as an
    /// infinite distance and fall back to the direct vertex distances).
    pub fn distance(&self, point: Point, threshold: i64) -> (r: Option<DistSq>)
        requires
            line_bounded(*self),
            pt_bounded(point),
            0 <= threshold <= COORD_LIMIT,
        ensures
            r.is_some() == spec_projects(*self, point, threshold as int),
            r.is_some() ==> {
                &&& r.unwrap().num as int == spec_cross(*self, point) * spec_cross(*self, point)
                &&& r.unwrap().den as int == spec_len_sq(*self)
                &&& r.unwrap().den > 0
            },
    {
        let x1 = self.start.x as i128;
        let y1 = self.start.y as i128;
        let px = point.x as i128;
        let py = point.y as i128;
        let dx = self.end.x as i128 - x1;
        let dy = self.end.y as i128 - y1;
        proof {
            lemma_mul_bound(dx as int, dx as int, 2_000_000_000, 2_000_000_000);
            lemma_mul_bound(dy as int, dy as int, 2_000_000_000, 2_000_000_000);
            lemma_mul_bound((px - x1) as int, dx as int, 2_000_000_000, 2_000_000_000);
            lemma_mul_bound((py - y1) as int, dy as int, 2_000_000_000, 2_000_000_000);
            lemma_mul_bound(dx as int, (py - y1) as int, 2_000_000_000, 2_000_000_000);
            lemma_mul_bound(dy as int, (px - x1) as int, 2_000_000_000, 2_000_000_000);
            lemma_mul_bound(threshold as int, threshold as int, 1_000_000_000, 1_000_000_000);
            lemma_sq_nonneg(dx as int);
            lemma_sq_nonneg(dy as int);
        }
        let len_sq = dx * dx + dy * dy;
        if len_sq == 0 {
            return None;
        }
        let t_dot = (px - x1) * dx + (py - y1) * dy;
        if t_dot < 0 || t_dot > len_sq {
            return None;
        }
        let cr = dx * (py - y1) - dy * (px - x1);
        let thr2 = (threshold as i128) * (threshold as i128);
        proof {
            lemma_mul_bound(cr as int, cr as int, 8_000_000_000_000_000_000, 8_000_000_000_000_000_000);
            lemma_mul_bound(thr2 as int, len_sq as int, 1_000_000_000_000_000_000, 8_000_000_000_000_000_000);
        }
        let num = cr * cr;
        if num > thr2 * len_sq {
            return None;
        }
        Some(DistSq { num, den: len_sq })
    }
}

/// Parallel segments never intersect: the intersection denominator is the
/// cross product of the direction vectors, so it vanishes exactly for
/// parallel (or degenerate) segments, and `Line::intersection` then
/// returns `None`.
pub proof fn lemma_parallel_segments_never_intersect(a: Line, b: Line)
    requires
        spec_parallel(a, b),
    ensures
        spec_denom(a, b) == 0,
        !spec_intersects(a, b),
{
    assert(spec_denom(a, b) == 0) by (nonlinear_arith)
        requires
            (a.end.x - a.start.x) * (b.end.y - b.start.y)
                == (a.end.y - a.start.y) * (b.end.x - b.start.x),
            spec_denom(a, b) == (a.start.x - a.end.x) * (b.start.y - b.end.y)
                - (a.start.y - a.end.y) * (b.start.x - b.end.x),
    {
    }
}

/// `point` lies within `threshold` of the polyline `path`: for every
/// consecutive pair of vertices, the distance from `point` to either vertex
/// and the perpendicular-projection distance to the segment between them
/// are checked; any one strictly below `threshold` accepts.
pub fn on_trj(path: &Vec<Point>, point: Point, threshold: i64) -> (r: bool)
    requires
        0 <= threshold <= COORD_LIMIT,
        pt_bounded(point),
        forall|k: int| 0 <= k < path@.len() ==> pt_bounded(#[trigger] path@[k]),
    ensures
        r == spec_path_close(path@, point, threshold as int),
{
    proof {
        lemma_mul_bound(threshold as int, threshold as int, 1_000_000_000, 1_000_000_000);
    }
    let thr2: i128 = (threshold as i128) * (threshold as i128);
    let n = path.len();
    let mut i: usize = 0;
    while i < n
        invariant
            n == path@.len(),
            i <= n,
            0 <= threshold <= COORD_LIMIT,
            pt_bounded(point),
            forall|k: int| 0 <= k < path@.len() ==> pt_bounded(#[trigger] path@[k]),
            thr2 as int == (threshold as int) * (threshold as int),
            forall|k: int| 0 <= k < i ==> !(#[trigger] spec_vertex_close(path@[k], point, threshold as int)),
            forall|k: int| 0 <= k < i && k + 1 < path@.len()
                ==> !(#[trigger] spec_seg_close(path@[k], path@[k + 1], point, threshold as int)),
        decreases n - i,
    {
        let q1 = path[i];
        let d1 = euclid_sq(point, q1);
        if d1 < thr2 {
            assert(spec_vertex_close(path@[i as int], point, threshold as int));
            return true;
        }
        if i + 1 < n {
            let q2 = path[i + 1];
            let d2 = euclid_sq(point, q2);
            if d2 < thr2 {
                assert(spec_vertex_close(path@[i + 1], point, threshold as int));
                return true;
            }
            let line = Line::from(Point2 { x: q1.x, y: q1.y }, Point2 { x: q2.x, y: q2.y });
            if let Some(d) = line.distance(point, threshold) {
                proof {
                    lemma_len_sq_bound(line);
                    lemma_mul_bound(threshold as int, threshold as int, 1_000_000_000, 1_000_000_000);
                    lemma_mul_bound(thr2 as int, d.den as int, 1_000_000_000_000_000_000, 8_000_000_000_000_000_000);
                }
                if d.num < thr2 * d.den {
                    assert(spec_seg_close(path@[i as int], path@[i + 1], point, threshold as int));
                    return true;
                }
            }
        }
        i = i + 1;
    }
    false
}

} // verus!
