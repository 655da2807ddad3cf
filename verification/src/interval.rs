//! Ranges of numbers, used to bound hit distances and colour channels.

use vstd::prelude::*;
use crate::scalar::Scalar;

verus! {

/// Encoding of `0.999`, the brightest intensity a channel may keep.
pub const INTENSITY_MAX_BITS: u32 = 0x3f7f_be77;

/// The range from `min` to `max`. Either bound may be infinite.
#[derive(Clone, Copy, Debug, PartialEq, Eq, Structural)]
pub struct Interval {
    pub min: Scalar,
    pub max: Scalar,
}

impl Interval {
    /// `min <= x <= max`.
    pub open spec fn contains_spec(self, x: Scalar) -> bool {
        self.min.le_spec(x) && x.le_spec(self.max)
    }

    /// `min < x < max`.
    pub open spec fn surrounds_spec(self, x: Scalar) -> bool {
        self.min.lt_spec(x) && x.lt_spec(self.max)
    }

    /// `x` pulled into the range: a bound where `x` lies beyond it, else `x`.
    pub open spec fn clamp_spec(self, x: Scalar) -> Scalar {
        if x.lt_spec(self.min) {
            self.min
        } else if self.max.lt_spec(x) {
            self.max
        } else {
            x
        }
    }

    pub fn new(min: Scalar, max: Scalar) -> (iv: Interval)
        ensures
            iv.min == min,
            iv.max == max,
    {
        Interval { min, max }
    }

    /// The range of colour intensities, `0` to `0.999`.
    pub fn intensity() -> (iv: Interval)
        ensures
            iv.min.bits == 0,
            iv.max.bits == INTENSITY_MAX_BITS,
    {
        Interval { min: Scalar::zero(), max: Scalar::from_bits(INTENSITY_MAX_BITS) }
    }

    pub fn contains(&self, x: Scalar) -> (r: bool)
        ensures
            r == self.contains_spec(x),
    {
        self.min.le(x) && x.le(self.max)
    }

    pub fn surrounds(&self, x: Scalar) -> (r: bool)
        ensures
            r == self.surrounds_spec(x),
    {
        self.min.lt(x) && x.lt(self.max)
    }

    pub fn clamp(&self, x: Scalar) -> (r: Scalar)
        ensures
            r == self.clamp_spec(x),
    {
        if x.lt(self.min) {
            self.min
        } else if self.max.lt(x) {
            self.max
        } else {
            x
        }
    }
}

/// Clamping a number into a range whose bounds are ordered numbers gives a
/// number inside the range, and leaves a number inside the range as it is.
pub proof fn lemma_clamp_saturates(iv: Interval, x: Scalar)
    requires
        iv.min.le_spec(iv.max),
        !x.is_nan_spec(),
    ensures
        iv.contains_spec(iv.clamp_spec(x)),
        iv.contains_spec(x) ==> iv.clamp_spec(x) == x,
{
}

} // verus!
