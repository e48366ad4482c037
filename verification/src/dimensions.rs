//! Inclusive ranges over image widths and heights, and the test of a probed
//! size against them.

use vstd::prelude::*;

verus! {

/// An inclusive pair of optional bounds on an unsigned value.
///
/// A bound that is absent does not constrain; a range whose lower bound
/// exceeds its upper bound admits nothing.
#[derive(Clone, Copy, Debug, PartialEq, Eq, Structural)]
pub struct Range {
    pub min: Option<u64>,
    pub max: Option<u64>,
}

/// The width and height of an image, in pixels.
#[derive(Clone, Copy, Debug, PartialEq, Eq, Structural)]
pub struct Dimensions {
    pub width: u64,
    pub height: u64,
}

impl Range {
    /// Whether `value` lies within the bounds that are present.
    pub open spec fn admits(self, value: u64) -> bool {
        &&& (self.min matches Some(lo) ==> lo <= value)
        &&& (self.max matches Some(hi) ==> value <= hi)
    }
}

/// Whether `value` satisfies a range that may be absent; an absent range
/// constrains nothing.
pub open spec fn optional_range_admits(range: Option<Range>, value: u64) -> bool {
    range matches Some(r) ==> r.admits(value)
}

/// Whether any of the two dimension ranges is set.
pub open spec fn dimension_filter_active(
    width_range: Option<Range>,
    height_range: Option<Range>,
) -> bool {
    width_range is Some || height_range is Some
}

/// Whether an image whose probe gave `dims` passes the two ranges.
///
/// With no range set every image passes, probed or not. With a range set an
/// image whose size is unknown fails, and a known size must satisfy each
/// range that is present.
pub open spec fn dims_match(
    dims: Option<Dimensions>,
    width_range: Option<Range>,
    height_range: Option<Range>,
) -> bool {
    if dimension_filter_active(width_range, height_range) {
        &&& dims matches Some(d)
        &&& optional_range_admits(width_range, d.width)
        &&& optional_range_admits(height_range, d.height)
    } else {
        true
    }
}

/// Decides whether `value` satisfies `range`.
pub fn in_range(value: u64, range: &Range) -> (accepted: bool)
    ensures
        accepted == range.admits(value),
{
    let above = match range.min {
        Some(lo) => lo <= value,
        None => true,
    };
    let below = match range.max {
        Some(hi) => value <= hi,
        None => true,
    };
    above && below
}

/// Decides whether an image with the probed size `dims` (`None` when the
/// probe failed) passes the width and height ranges.
pub fn matches_dims(
    dims: Option<Dimensions>,
    width_range: &Option<Range>,
    height_range: &Option<Range>,
) -> (matched: bool)
    ensures
        matched == dims_match(dims, *width_range, *height_range),
{
    if width_range.is_none() && height_range.is_none() {
        return true;
    }
    match dims {
        None => false,
        Some(d) => {
            let width_ok = match width_range {
                Some(r) => in_range(d.width, r),
                None => true,
            };
            let height_ok = match height_range {
                Some(r) => in_range(d.height, r),
                None => true,
            };
            width_ok && height_ok
        },
    }
}

/// A range without bounds admits every value.
pub proof fn lemma_unconstrained_range_admits_all(value: u64)
    ensures
        (Range { min: None, max: None }).admits(value),
        optional_range_admits(None, value),
{
}

/// An image whose size could not be probed fails as soon as one range is
/// set, whatever the bounds of the ranges are.
pub proof fn lemma_unprobed_image_fails_closed(
    width_range: Option<Range>,
    height_range: Option<Range>,
)
    requires
        dimension_filter_active(width_range, height_range),
    ensures
        !dims_match(None, width_range, height_range),
{
}

} // verus!
