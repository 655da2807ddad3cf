//! Spheres, and which of a ray's two crossings counts as the hit.

use vstd::prelude::*;
use crate::hit_record::HitRecord;
use crate::interval::Interval;
use crate::material::Material;
use crate::scalar::Scalar;
use crate::vec3::{Point3, Vec3};

verus! {

/// A sphere of one material. Its radius is a number and not negative.
#[derive(Clone, Copy, Debug, PartialEq, Eq, Structural)]
pub struct Sphere {
    pub center: Point3,
    pub radius: Scalar,
    pub material: Material,
}

impl Sphere {
    /// The radius kept: the greater of `radius` and zero, which is zero
    /// also where `radius` is not a number.
    pub open spec fn radius_spec(radius: Scalar) -> Scalar {
        radius.max_spec(Scalar { bits: 0 })
    }

    /// The radius is a number and not below zero.
    pub open spec fn wf(self) -> bool {
        (Scalar { bits: 0 }).le_spec(self.radius)
    }

    /// The distance at which a ray hits: none where the discriminant of the
    /// crossing equation is negative; else the near root where the range
    /// surrounds it; else the far root where the range surrounds that.
    pub open spec fn select_root_spec(
        discriminant: Scalar,
        near_root: Scalar,
        far_root: Scalar,
        interval: Interval,
    ) -> Option<Scalar> {
        if discriminant.lt_spec(Scalar { bits: 0 }) {
            None
        } else if interval.surrounds_spec(near_root) {
            Some(near_root)
        } else if interval.surrounds_spec(far_root) {
            Some(far_root)
        } else {
            None
        }
    }

    pub fn new(center: Point3, radius: Scalar, material: Material) -> (s: Sphere)
        ensures
            s.center == center,
            s.radius == Self::radius_spec(radius),
            s.material == material,
            s.wf(),
    {
        Sphere { center, radius: radius.max(Scalar::zero()), material }
    }

    /// Chooses the hit among the roots of the crossing equation
    /// `a t^2 - 2 h t + c = 0`, whose discriminant is `h^2 - a c` and whose
    /// roots are `(h - sqrt(discriminant)) / a` and
    /// `(h + sqrt(discriminant)) / a`.
    pub fn select_root(
        discriminant: Scalar,
        near_root: Scalar,
        far_root: Scalar,
        interval: Interval,
    ) -> (root: Option<Scalar>)
        ensures
            root == Self::select_root_spec(discriminant, near_root, far_root, interval),
            root matches Some(t) ==> interval.surrounds_spec(t),
    {
        if discriminant.lt(Scalar::zero()) {
            return None;
        }
        if interval.surrounds(near_root) {
            Some(near_root)
        } else if interval.surrounds(far_root) {
            Some(far_root)
        } else {
            None
        }
    }

    /// The record of a hit at distance `t`, at the point `p` of the ray.
    /// `outward_normal_vec` is `(p - center) / radius`, and
    /// `direction_dot_normal` its dot product with the ray's direction, by
    /// which the normal is oriented. The record carries the sphere's material.
    pub fn record(
        &self,
        t: Scalar,
        p: Point3,
        outward_normal_vec: Vec3,
        direction_dot_normal: Scalar,
    ) -> (rec: HitRecord)
        ensures
            rec.t == t,
            rec.p == p,
            rec.material == Some(self.material),
            rec.front_face == direction_dot_normal.lt_spec(Scalar { bits: 0 }),
            rec.normal_vec == if rec.front_face {
                outward_normal_vec
            } else {
                outward_normal_vec.invert_spec()
            },
    {
        let mut rec = HitRecord::new(p, outward_normal_vec, t, false);
        rec.material = Some(self.material);
        rec.set_face_normal_vec(direction_dot_normal, outward_normal_vec);
        rec
    }
}

/// Where the far root is not below the near one, the hit chosen is the
/// nearest root inside the range: it is one of the two, the range surrounds
/// it, and no root that the range surrounds is nearer.
pub proof fn lemma_nearest_root(
    discriminant: Scalar,
    near_root: Scalar,
    far_root: Scalar,
    interval: Interval,
)
    requires
        !far_root.lt_spec(near_root),
    ensures
        Sphere::select_root_spec(discriminant, near_root, far_root, interval) matches Some(t) ==> {
            &&& t == near_root || t == far_root
            &&& interval.surrounds_spec(t)
            &&& interval.surrounds_spec(near_root) ==> t.le_spec(near_root)
            &&& interval.surrounds_spec(far_root) ==> t.le_spec(far_root)
        },
        Sphere::select_root_spec(discriminant, near_root, far_root, interval) is None ==> {
            ||| discriminant.lt_spec(Scalar { bits: 0 })
            ||| !interval.surrounds_spec(near_root) && !interval.surrounds_spec(far_root)
        },
{
}

/// Where the far root is not below the near one, narrowing the range from
/// above changes the hit chosen only by losing it: the hit chosen inside
/// the narrower range is the hit chosen inside the whole range, and where
/// the narrower range holds none, the whole range holds none below `limit`.
/// So a sphere answers with its nearest crossing, as the closest-hit law
/// asks of the members of a scene.
pub proof fn lemma_select_root_narrows(
    discriminant: Scalar,
    near_root: Scalar,
    far_root: Scalar,
    whole: Interval,
    limit: Scalar,
)
    requires
        !far_root.lt_spec(near_root),
        limit.le_spec(whole.max),
    ensures
        match Sphere::select_root_spec(
            discriminant,
            near_root,
            far_root,
            Interval { min: whole.min, max: limit },
        ) {
            Some(t) => Sphere::select_root_spec(discriminant, near_root, far_root, whole) == Some(
                t,
            ),
            None => Sphere::select_root_spec(discriminant, near_root, far_root, whole) matches Some(
                t,
            ) ==> !t.lt_spec(limit),
        },
{
}

} // verus!
