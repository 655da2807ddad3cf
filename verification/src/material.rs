//! The three surface laws and the decisions each takes when light scatters.

use vstd::prelude::*;
use crate::ray::Ray;
use crate::scalar::{Scalar, ONE_BITS};
use crate::vec3::{Color, Point3, Vec3};

verus! {

/// A diffuse surface: scatters about the normal, keeps `albedo` of the light.
#[derive(Clone, Copy, Debug, PartialEq, Eq, Structural)]
pub struct Lambertian {
    pub albedo: Color,
}

/// A mirror-like surface, roughened by `fuzz` (at most one).
#[derive(Clone, Copy, Debug, PartialEq, Eq, Structural)]
pub struct Metal {
    pub albedo: Color,
    pub fuzz: Scalar,
}

/// A clear surface such as glass, known by its index of refraction.
#[derive(Clone, Copy, Debug, PartialEq, Eq, Structural)]
pub struct Dielectric {
    refraction_index: Scalar,
}

/// What a surface is made of.
#[derive(Clone, Copy, Debug, PartialEq, Eq, Structural)]
pub enum Material {
    Lambertian(Lambertian),
    Metal(Metal),
    Dielectric(Dielectric),
}

impl Lambertian {
    pub fn new(albedo: Color) -> (m: Lambertian)
        ensures
            m.albedo == albedo,
    {
        Lambertian { albedo }
    }

    /// Scatters at `point` on a surface with unit normal `normal_vec`.
    /// `scatter_direction` is the normal plus a random unit vector; where the
    /// two cancelled, the ray leaves along the normal instead. The
    /// attenuation is the albedo, whatever came in.
    pub fn scatter(&self, point: Point3, normal_vec: Vec3, scatter_direction: Vec3) -> (out: (
        Ray,
        Color,
    ))
        ensures
            out.1 == self.albedo,
            out.0.origin == point,
            out.0.direction == if scatter_direction.near_zero_spec() {
                normal_vec
            } else {
                scatter_direction
            },
    {
        let direction = if scatter_direction.near_zero() {
            normal_vec
        } else {
            scatter_direction
        };
        (Ray::new(point, direction), self.albedo)
    }
}

impl Metal {
    /// The fuzz kept: the lesser of `fuzz` and one, which is one also where
    /// `fuzz` is not a number.
    pub open spec fn fuzz_spec(fuzz: Scalar) -> Scalar {
        fuzz.min_spec(Scalar { bits: ONE_BITS })
    }

    pub fn new(albedo: Color, fuzz: Scalar) -> (m: Metal)
        ensures
            m.albedo == albedo,
            m.fuzz == Self::fuzz_spec(fuzz),
            !m.fuzz.is_nan_spec(),
            m.fuzz.le_spec(Scalar { bits: ONE_BITS }),
    {
        Metal { albedo, fuzz: fuzz.min(Scalar::one()) }
    }

    /// Scatters at `point` along `reflected`, the mirrored direction after
    /// roughening. The attenuation is the albedo, whatever came in.
    pub fn scatter(&self, point: Point3, reflected: Vec3) -> (out: (Ray, Color))
        ensures
            out.1 == self.albedo,
            out.0.origin == point,
            out.0.direction == reflected,
    {
        (Ray::new(point, reflected), self.albedo)
    }
}

impl Dielectric {
    pub closed spec fn index(self) -> Scalar {
        self.refraction_index
    }

    pub fn new(refraction_index: Scalar) -> (m: Dielectric)
        ensures
            m.index() == refraction_index,
    {
        Dielectric { refraction_index }
    }

    pub fn refraction_index(&self) -> (i: Scalar)
        ensures
            i == self.index(),
    {
        self.refraction_index
    }

    /// The ratio of indices that a ray meets at the surface. Inside the
    /// medium, where the hit shows no front face, it is `reciprocal`, which
    /// the caller computed as one over the material's index; from outside it
    /// is the index itself.
    pub fn refraction_ratio(&self, front_face: bool, reciprocal: Scalar) -> (r: Scalar)
        ensures
            r == if front_face {
                self.index()
            } else {
                reciprocal
            },
    {
        if front_face {
            self.refraction_index
        } else {
            reciprocal
        }
    }

    /// The cosine of the angle of incidence: the dot product of the reversed
    /// unit direction with the unit normal, which rounding may have carried
    /// past one, held to one at most.
    pub fn clamp_cosine(dot: Scalar) -> (cosine: Scalar)
        ensures
            cosine == dot.min_spec(Scalar { bits: ONE_BITS }),
            !cosine.is_nan_spec(),
            cosine.le_spec(Scalar { bits: ONE_BITS }),
    {
        dot.min(Scalar::one())
    }

    /// Total internal reflection: no refracted ray exists when the ratio of
    /// indices times the sine of the angle of incidence exceeds one.
    pub fn cannot_refract(ratio_times_sine: Scalar) -> (r: bool)
        ensures
            r == (Scalar { bits: ONE_BITS }).lt_spec(ratio_times_sine),
    {
        Scalar::one().lt(ratio_times_sine)
    }

    /// Where a refracted ray exists, the ray is reflected all the same when
    /// the uniform `draw` falls below the surface's `reflectance`.
    pub fn reflects(reflectance: Scalar, draw: Scalar) -> (r: bool)
        ensures
            r == draw.lt_spec(reflectance),
    {
        draw.lt(reflectance)
    }

    /// Scatters at `point` along `direction`, reflected or refracted. Glass
    /// absorbs nothing: the attenuation is white.
    pub fn scatter(&self, point: Point3, direction: Vec3) -> (out: (Ray, Color))
        ensures
            out.0.origin == point,
            out.0.direction == direction,
            out.1.x.bits == ONE_BITS,
            out.1.y.bits == ONE_BITS,
            out.1.z.bits == ONE_BITS,
    {
        let one = Scalar::one();
        (Ray::new(point, direction), Vec3::new(one, one, one))
    }
}

impl Material {
    /// What the material makes of a ray that hit at `point`, where the unit
    /// normal is `normal_vec`. `direction` is the direction that the caller
    /// computed by the material's law: for a diffuse surface the normal plus
    /// a random unit vector, for metal the roughened mirror direction, for
    /// glass the reflected or refracted one. A material may decline to
    /// scatter, which absorbs the ray; none of these three does.
    pub fn scatter(&self, point: Point3, normal_vec: Vec3, direction: Vec3) -> (out: Option<
        (Ray, Color),
    >)
        ensures
            out matches Some((ray, attenuation)) && ray.origin == point && match *self {
                Material::Lambertian(m) => attenuation == m.albedo && ray.direction == if direction.near_zero_spec() {
                    normal_vec
                } else {
                    direction
                },
                Material::Metal(m) => attenuation == m.albedo && ray.direction == direction,
                Material::Dielectric(m) => attenuation == (Vec3 {
                    x: Scalar { bits: ONE_BITS },
                    y: Scalar { bits: ONE_BITS },
                    z: Scalar { bits: ONE_BITS },
                }) && ray.direction == direction,
            },
    {
        match self {
            Material::Lambertian(m) => Some(m.scatter(point, normal_vec, direction)),
            Material::Metal(m) => Some(m.scatter(point, direction)),
            Material::Dielectric(m) => Some(m.scatter(point, direction)),
        }
    }
}

} // verus!
