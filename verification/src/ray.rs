//! Half-lines through the scene.

use vstd::prelude::*;
use crate::vec3::{Point3, Vec3};

verus! {

/// A ray: the points `origin + t * direction`. The direction need not have
/// unit length.
#[derive(Clone, Copy, Debug, PartialEq, Eq, Structural)]
pub struct Ray {
    pub origin: Point3,
    pub direction: Vec3,
}

impl Ray {
    pub fn new(origin: Point3, direction: Vec3) -> (r: Ray)
        ensures
            r.origin == origin,
            r.direction == direction,
    {
        Ray { origin, direction }
    }
}

} // verus!
