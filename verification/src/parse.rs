//! Plain-value computations behind the evaluation-data loader, and the
//! error classification surfaced when loading fails.

use vstd::prelude::*;
use crate::Point;

verus! {

/// One evaluation record: a point plus its ground-truth outlier flag.
pub type PointRecord = (Point, bool);

/// Why loading the network or the evaluation data failed; loading is fatal,
/// and the caller aborts with this classification.
#[derive(Clone, Copy, Debug, PartialEq, Eq, Structural)]
pub enum LoadError {
    /// The file could not be read.
    IoFailure,
    /// The file was read but does not have the expected shape.
    SchemaMismatch,
    /// A field was present but its value could not be parsed.
    ValueParseFailure,
}

/// Milliseconds of day from a wall-clock time of day split into hours,
/// minutes, seconds, and milliseconds.
pub fn time_of_day_ms(hours: u32, minutes: u32, seconds: u32, millis: u32) -> (r: u64)
    ensures
        r as int == hours * 3_600_000 + minutes * 60_000 + seconds * 1000 + millis,
{
    (hours as u64) * 3_600_000 + (minutes as u64) * 60_000 + (seconds as u64) * 1000
        + (millis as u64)
}

} // verus!
