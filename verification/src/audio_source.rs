//! Measure-range selection for audio rendering.

use vstd::prelude::*;

verus! {

/// A measure range to synthesize, and how its end measure is resolved when
/// it recurs later in the performance: through its last occurrence when
/// `extend_to_last_occurrence` is set, otherwise at its first occurrence at
/// or after the start.
pub struct MeasureRangeSelection {
    pub range: std::ops::RangeInclusive<usize>,
    pub extend_to_last_occurrence: bool,
}

} // verus!
