//! Triples of numbers: directions, points and colours.

use vstd::prelude::*;
use crate::scalar::{Scalar, ONE_BITS};

verus! {

/// Encoding of `1e-8`, below which a component counts as vanished.
pub const NEAR_ZERO_BITS: u32 = 0x322b_cc77;

/// Encoding of `1e-12`, the least squared length a sample may have and still
/// be scaled to unit length.
pub const UNIT_SAMPLE_MIN_BITS: u32 = 0x2b8c_bccc;

/// Three numbers. Used for directions, for points and for colours alike.
#[derive(Clone, Copy, Debug, PartialEq, Eq, Structural)]
pub struct Vec3 {
    pub x: Scalar,
    pub y: Scalar,
    pub z: Scalar,
}

pub type Point3 = Vec3;

pub type Color = Vec3;

impl Vec3 {
    /// The triple with every sign flipped.
    pub open spec fn invert_spec(self) -> Vec3 {
        Vec3 { x: self.x.neg_spec(), y: self.y.neg_spec(), z: self.z.neg_spec() }
    }

    /// Every component is a number smaller than `1e-8` in magnitude.
    pub open spec fn near_zero_spec(self) -> bool {
        let s = Scalar { bits: NEAR_ZERO_BITS };
        self.x.abs_spec().lt_spec(s) && self.y.abs_spec().lt_spec(s) && self.z.abs_spec().lt_spec(
            s,
        )
    }

    /// The component at `index`: `x`, `y`, `z` for 0, 1, 2.
    pub open spec fn component_spec(self, index: int) -> Scalar {
        if index == 0 {
            self.x
        } else if index == 1 {
            self.y
        } else {
            self.z
        }
    }

    pub fn new(x: Scalar, y: Scalar, z: Scalar) -> (v: Vec3)
        ensures
            v.x == x,
            v.y == y,
            v.z == z,
    {
        Vec3 { x, y, z }
    }

    pub fn zero() -> (v: Vec3)
        ensures
            v.x.bits == 0,
            v.y.bits == 0,
            v.z.bits == 0,
    {
        Vec3 { x: Scalar::zero(), y: Scalar::zero(), z: Scalar::zero() }
    }

    pub fn invert(&self) -> (v: Vec3)
        ensures
            v == self.invert_spec(),
    {
        Vec3 { x: self.x.neg(), y: self.y.neg(), z: self.z.neg() }
    }

    pub fn near_zero(&self) -> (r: bool)
        ensures
            r == self.near_zero_spec(),
    {
        let s = Scalar::from_bits(NEAR_ZERO_BITS);
        self.x.abs().lt(s) && self.y.abs().lt(s) && self.z.abs().lt(s)
    }

}

impl core::ops::Index<usize> for Vec3 {
    type Output = Scalar;

    /// The component at `index`, which must name one.
    fn index(&self, index: usize) -> (c: &Scalar)
        ensures
            *c == self.component_spec(index as int),
    {
        if index == 0 {
            &self.x
        } else if index == 1 {
            &self.y
        } else {
            &self.z
        }
    }
}

impl vstd::std_specs::core::IndexSpecImpl<usize> for Vec3 {
    open spec fn index_req(&self, index: &usize) -> bool {
        *index < 3
    }
}

impl core::ops::Neg for Vec3 {
    type Output = Vec3;

    fn neg(self) -> (v: Vec3) {
        self.invert()
    }
}

impl vstd::std_specs::ops::NegSpecImpl for Vec3 {
    open spec fn obeys_neg_spec() -> bool {
        true
    }

    open spec fn neg_req(self) -> bool {
        true
    }

    open spec fn neg_spec(self) -> Vec3 {
        self.invert_spec()
    }
}

/// Whether a sample from the cube about the origin, of squared length
/// `length_squared`, is kept for a random unit vector: it is when it lies in
/// the unit ball and not so near the origin that scaling it would fail.
pub fn accepts_unit_sample(length_squared: Scalar) -> (r: bool)
    ensures
        r == (length_squared.le_spec(Scalar { bits: ONE_BITS }) && (Scalar {
            bits: UNIT_SAMPLE_MIN_BITS,
        }).lt_spec(length_squared)),
{
    length_squared.le(Scalar::one()) && Scalar::from_bits(UNIT_SAMPLE_MIN_BITS).lt(length_squared)
}

/// Whether a sample from the square about the origin, of squared length
/// `length_squared`, is kept for a random point of the unit disk.
pub fn accepts_disk_sample(length_squared: Scalar) -> (r: bool)
    ensures
        r == length_squared.lt_spec(Scalar { bits: ONE_BITS }),
{
    length_squared.lt(Scalar::one())
}

/// Turns a random unit vector into the hemisphere about a normal.
/// `dot_with_normal` is the dot product of the two: where it is above zero
/// the vector is in that hemisphere already, else its opposite is.
pub fn random_on_hemisphere(on_unit_sphere: Vec3, dot_with_normal: Scalar) -> (v: Vec3)
    ensures
        v == if (Scalar { bits: 0 }).lt_spec(dot_with_normal) {
            on_unit_sphere
        } else {
            on_unit_sphere.invert_spec()
        },
{
    if Scalar::zero().lt(dot_with_normal) {
        on_unit_sphere
    } else {
        on_unit_sphere.invert()
    }
}

} // verus!
