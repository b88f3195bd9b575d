//! Curve interpolation support: the linear interpolator and the arithmetic
//! it rests on.
//!
//! Curve storage and date handling live with the caller; this module holds
//! the verified numeric step: given two nodes and a query point on the same
//! axis, the linearly interpolated value between them.

use crate::calendar::{CalType, Convention};
use crate::fixed::{add_v, in_range, mul_v, sub_v, Fixed, SCALE};
use vstd::prelude::*;

verus! {

/// The fraction of the way from `x1` to `x2` at which `x` sits, in
/// fixed-point units, rounded toward negative infinity.
pub open spec fn ratio_v(x1: int, x2: int, x: int) -> int {
    ((x - x1) * SCALE) / (x2 - x1)
}

/// The linearly interpolated value at `x` between nodes `(x1, y1)` and
/// `(x2, y2)`.
pub open spec fn linear_interp_v(x1: int, y1: int, x2: int, y2: int, x: int) -> int {
    add_v(y1, mul_v(ratio_v(x1, x2, x), sub_v(y2, y1)))
}

/// Linear interpolation between two nodes keyed by plain integer axis
/// values, such as timestamps.
pub fn linear_interp(x1: i64, y1: Fixed, x2: i64, y2: Fixed, x: i64) -> (r: Fixed)
    requires
        x1 < x2,
    ensures
        r@ == linear_interp_v(x1 as int, y1@, x2 as int, y2@, x as int),
{
    let span = (x2 as i128) - (x1 as i128);
    let offset = (x as i128) - (x1 as i128);
    let scaled = match offset.checked_mul(SCALE) {
        Some(p) => p,
        None => {
            proof {
                assert(in_range((x as int - x1 as int) * SCALE)) by (nonlinear_arith)
                    requires
                        -18_446_744_073_709_551_616 < (x as int) - (x1 as int),
                        ((x as int) - (x1 as int)) < 18_446_744_073_709_551_616,
                        SCALE == 1_000_000_000_000,
                {
                }
                assert(false);
            }
            0
        },
    };
    proof {
        crate::fixed::lemma_div_keeps_range(scaled as int, span as int);
    }
    let q = match scaled.checked_div_euclid(span) {
        Some(v) => v,
        None => {
            proof {
                assert(false);
            }
            0
        },
    };
    let ratio = Fixed { m: q };
    y1.add(ratio.mul(y2.sub(y1)))
}

/// A linear interpolator over a curve's nodes, carrying the calendar and
/// day-count convention its caller resolves dates with.
pub struct LinearInterpolator {
    pub calendar: CalType,
    pub convention: Convention,
}

impl LinearInterpolator {
    /// Create a linear interpolator for the given calendar and convention.
    pub fn new(calendar: CalType, convention: Convention) -> (r: LinearInterpolator)
        ensures
            r.calendar == calendar,
            r.convention == convention,
    {
        LinearInterpolator { calendar, convention }
    }
}

} // verus!
