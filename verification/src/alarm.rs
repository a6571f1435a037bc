//! The alarm policy: counts consecutive outlier classifications and fires a
//! one-shot anomaly detection once the run exceeds the configured
//! sensitivity, plus the final verdict against ground truth.

use vstd::prelude::*;
use crate::Point;

verus! {

/// Debounced one-shot alarm over the detector's boolean stream.
///
/// An outlier observation made while the consecutive-outlier count already
/// exceeds the sensitivity sets the detection point, once; an inlier
/// observation resets the count but never clears a detection.
pub struct AlarmPolicy {
    sensitivity: u32,
    consecutive_outliers: u32,
    first_detection: Option<Point>,
}

impl AlarmPolicy {
    /// The configured number of consecutive outliers tolerated.
    pub closed spec fn spec_sensitivity(&self) -> u32 {
        self.sensitivity
    }

    /// The current count of consecutive outlier observations.
    pub closed spec fn spec_consecutive(&self) -> u32 {
        self.consecutive_outliers
    }

    /// The point of the first qualifying detection, sticky once set.
    pub closed spec fn spec_first_detection(&self) -> Option<Point> {
        self.first_detection
    }

    /// A fresh policy: no outliers seen, no detection.
    pub fn new(sensitivity: u32) -> (r: AlarmPolicy)
        ensures
            r.spec_sensitivity() == sensitivity,
            r.spec_consecutive() == 0,
            r.spec_first_detection() is None,
    {
        AlarmPolicy { sensitivity, consecutive_outliers: 0, first_detection: None }
    }

    /// Consumes one classification. On an outlier: if no detection is set
    /// yet and the count of consecutive outliers already exceeds the
    /// sensitivity, the detection is set to this point; the count then
    /// grows by one. On an inlier: the count resets to zero; a detection
    /// already set is kept.
    pub fn observe(&mut self, point: Point, outlier: bool)
        requires
            outlier ==> old(self).spec_consecutive() < u32::MAX,
        ensures
            final(self).spec_sensitivity() == old(self).spec_sensitivity(),
            outlier ==> final(self).spec_consecutive() == old(self).spec_consecutive() + 1,
            !outlier ==> final(self).spec_consecutive() == 0,
            final(self).spec_first_detection() == if outlier
                    && old(self).spec_first_detection() is None
                    && old(self).spec_consecutive() > old(self).spec_sensitivity() {
                Some(point)
            } else {
                old(self).spec_first_detection()
            },
    {
        if outlier {
            if self.first_detection.is_none() && self.consecutive_outliers > self.sensitivity {
                self.first_detection = Some(point);
            }
            self.consecutive_outliers = self.consecutive_outliers + 1;
        } else {
            self.consecutive_outliers = 0;
        }
    }

    /// The detection point, if the alarm has fired.
    pub fn first_detection(&self) -> (r: Option<Point>)
        ensures
            r == self.spec_first_detection(),
    {
        self.first_detection
    }

    /// The current count of consecutive outlier observations.
    pub fn consecutive_outliers(&self) -> (r: u32)
        ensures
            r == self.spec_consecutive(),
    {
        self.consecutive_outliers
    }
}

/// Final verdict of a run against ground truth: whether a real anomaly was
/// present and whether a detection fired.
#[derive(Clone, Copy, Debug, PartialEq, Eq, Structural)]
pub enum Verdict {
    /// A ground-truth anomaly occurred and a detection fired.
    TruePositive,
    /// A ground-truth anomaly occurred but no detection fired.
    FalseNegative,
    /// A detection fired with no ground-truth anomaly.
    FalsePositive,
    /// Neither a ground-truth anomaly nor a detection.
    TrueNegative,
}

/// Assembles the final verdict from the last ground-truth anomaly point
/// and the first detection point.
pub fn verdict(anomaly: Option<Point>, detection: Option<Point>) -> (r: Verdict)
    ensures
        r == Verdict::TruePositive <==> (anomaly is Some && detection is Some),
        r == Verdict::FalseNegative <==> (anomaly is Some && detection is None),
        r == Verdict::FalsePositive <==> (anomaly is None && detection is Some),
        r == Verdict::TrueNegative <==> (anomaly is None && detection is None),
{
    match (anomaly, detection) {
        (Some(_), Some(_)) => Verdict::TruePositive,
        (Some(_), None) => Verdict::FalseNegative,
        (None, Some(_)) => Verdict::FalsePositive,
        (None, None) => Verdict::TrueNegative,
    }
}

} // verus!
