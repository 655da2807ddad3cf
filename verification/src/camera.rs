//! The camera: its settings, the frame derived from them, and what becomes
//! of a ray that it casts.

use vstd::prelude::*;
use crate::hit_record::{may_answer, HitRecord, Hittable, HittableList};
use crate::interval::Interval;
use crate::material::Material;
use crate::ray::Ray;
use crate::scalar::{Scalar, INFINITY_BITS, ONE_BITS};
use crate::vec3::{Point3, Vec3};

verus! {

/// Encoding of `0.0001`, the nearest distance at which a bounced ray may
/// hit: nearer hits are the surface it has just left.
pub const TRACE_MIN_BITS: u32 = 0x38d1_b717;

/// Encoding of `10.0`, the focus distance a new camera has.
pub const FOCUS_DISTANCE_BITS: u32 = 0x4120_0000;

/// Encoding of `90.0`, the vertical field of view of the default camera.
pub const DEFAULT_VFOV_BITS: u32 = 0x42b4_0000;

/// Encoding of `10.0`, the samples that the default camera takes of a pixel.
pub const DEFAULT_SAMPLES_BITS: u32 = 0x4120_0000;

/// Encoding of `-1.0`.
pub const MINUS_ONE_BITS: u32 = 0xbf80_0000;

/// What a render derives from the camera's settings before the first ray.
#[derive(Clone, Copy, Debug, PartialEq, Eq, Structural)]
pub struct Frame {
    /// Where rays start when nothing is defocused.
    pub center: Point3,
    /// The centre of the pixel in the top left corner.
    pub pixel00_location: Point3,
    /// From one pixel to the next in its row.
    pub pixel_delta_u: Vec3,
    /// From one pixel to the one below.
    pub pixel_delta_v: Vec3,
    /// One over the number of samples of a pixel.
    pub pixel_samples_scale: Scalar,
    /// The camera's right, up and backward unit vectors.
    pub u: Vec3,
    pub v: Vec3,
    pub w: Vec3,
    /// The horizontal and vertical radius of the defocus disk.
    pub defocus_disk_u: Vec3,
    pub defocus_disk_v: Vec3,
}

/// A camera: its settings, and the image height and the frame that a render
/// derives from them, all at once, when it begins.
#[derive(Clone, Copy, Debug)]
pub struct Camera {
    pub aspect_ratio: Scalar,
    pub image_width: u32,
    /// Samples taken of each pixel; the whole part counts.
    pub samples_per_pixel: Scalar,
    /// Vertical field of view, in degrees.
    pub vfov: Scalar,
    pub lookfrom: Point3,
    pub lookat: Point3,
    pub vup: Vec3,
    /// Angle of the cone of rays through a pixel, in degrees.
    pub defocus_angle: Scalar,
    pub focus_distance: Scalar,
    pub max_depth: u32,
    /// Rows of the image; zero until a render begins.
    pub image_height: u32,
    pub frame: Frame,
}

/// What a cast ray contributes.
#[derive(Clone, Copy, Debug, PartialEq, Eq, Structural)]
pub enum Shade {
    /// Nothing: the bounces are used up, or the surface has no material.
    Black,
    /// The ray left the scene: the colour of the sky in its direction.
    Background,
    /// The ray hit `material` at `record`: what the material lets through of
    /// the scattered ray, which has `depth` bounces left.
    Bounce { record: HitRecord, material: Material, depth: u32 },
}

impl Frame {
    /// The frame in which every number is zero.
    pub fn zero() -> (f: Frame)
        ensures
            f == Self::zero_spec(),
    {
        let o = Vec3::zero();
        Frame {
            center: o,
            pixel00_location: o,
            pixel_delta_u: o,
            pixel_delta_v: o,
            pixel_samples_scale: Scalar::zero(),
            u: o,
            v: o,
            w: o,
            defocus_disk_u: o,
            defocus_disk_v: o,
        }
    }

    pub open spec fn zero_spec() -> Frame {
        let z = Scalar { bits: 0 };
        let o = Vec3 { x: z, y: z, z: z };
        Frame {
            center: o,
            pixel00_location: o,
            pixel_delta_u: o,
            pixel_delta_v: o,
            pixel_samples_scale: z,
            u: o,
            v: o,
            w: o,
            defocus_disk_u: o,
            defocus_disk_v: o,
        }
    }
}

impl Camera {
    /// The settings, without what is derived from them.
    pub open spec fn same_settings(self, other: Camera) -> bool {
        &&& self.aspect_ratio == other.aspect_ratio
        &&& self.image_width == other.image_width
        &&& self.samples_per_pixel == other.samples_per_pixel
        &&& self.vfov == other.vfov
        &&& self.lookfrom == other.lookfrom
        &&& self.lookat == other.lookat
        &&& self.vup == other.vup
        &&& self.defocus_angle == other.defocus_angle
        &&& self.focus_distance == other.focus_distance
        &&& self.max_depth == other.max_depth
    }

    /// The range of distances searched for a hit: above `0.0001`, unbounded.
    pub open spec fn trace_window_spec() -> Interval {
        Interval { min: Scalar { bits: TRACE_MIN_BITS }, max: Scalar { bits: INFINITY_BITS } }
    }

    /// What a ray with `depth` bounces left contributes when the scene
    /// answers `hit`.
    pub open spec fn shade_spec(depth: u32, hit: Option<HitRecord>) -> Shade {
        if depth == 0 {
            Shade::Black
        } else {
            match hit {
                None => Shade::Background,
                Some(record) => match record.material {
                    None => Shade::Black,
                    Some(material) => Shade::Bounce {
                        record,
                        material,
                        depth: (depth - 1) as u32,
                    },
                },
            }
        }
    }

    /// A camera without defocus, focused at distance 10.
    pub fn new(
        aspect_ratio: Scalar,
        image_width: u32,
        vfov: Scalar,
        samples_per_pixel: Scalar,
        max_depth: u32,
        lookfrom: Point3,
        lookat: Point3,
        vup: Vec3,
    ) -> (c: Camera)
        ensures
            c.aspect_ratio == aspect_ratio,
            c.image_width == image_width,
            c.vfov == vfov,
            c.samples_per_pixel == samples_per_pixel,
            c.max_depth == max_depth,
            c.lookfrom == lookfrom,
            c.lookat == lookat,
            c.vup == vup,
            c.defocus_angle.bits == 0,
            c.focus_distance.bits == FOCUS_DISTANCE_BITS,
            c.image_height == 0,
            c.frame == Frame::zero_spec(),
    {
        Camera {
            aspect_ratio,
            image_width,
            samples_per_pixel,
            vfov,
            lookfrom,
            lookat,
            vup,
            defocus_angle: Scalar::zero(),
            focus_distance: Scalar::from_bits(FOCUS_DISTANCE_BITS),
            max_depth,
            image_height: 0,
            frame: Frame::zero(),
        }
    }

    /// A square image 100 pixels wide, 10 samples a pixel and 10 bounces a
    /// ray, seen from the origin down the negative z axis with y up, through
    /// 90 degrees.
    pub fn default() -> (c: Camera)
        ensures
            c.aspect_ratio.bits == ONE_BITS,
            c.image_width == 100,
            c.vfov.bits == DEFAULT_VFOV_BITS,
            c.samples_per_pixel.bits == DEFAULT_SAMPLES_BITS,
            c.max_depth == 10,
            c.lookfrom == Frame::zero_spec().center,
            c.lookat == (Vec3 {
                x: Scalar { bits: 0 },
                y: Scalar { bits: 0 },
                z: Scalar { bits: MINUS_ONE_BITS },
            }),
            c.vup == (Vec3 {
                x: Scalar { bits: 0 },
                y: Scalar { bits: ONE_BITS },
                z: Scalar { bits: 0 },
            }),
            c.defocus_angle.bits == 0,
            c.focus_distance.bits == FOCUS_DISTANCE_BITS,
            c.image_height == 0,
            c.frame == Frame::zero_spec(),
    {
        let zero = Scalar::zero();
        Camera::new(
            Scalar::one(),
            100,
            Scalar::from_bits(DEFAULT_VFOV_BITS),
            Scalar::from_bits(DEFAULT_SAMPLES_BITS),
            10,
            Vec3::zero(),
            Vec3::new(zero, zero, Scalar::from_bits(MINUS_ONE_BITS)),
            Vec3::new(zero, Scalar::one(), zero),
        )
    }

    /// The height of an image: `quotient`, which is the width divided by the
    /// aspect ratio, with its fraction cut off; but at least one row.
    pub open spec fn image_height_spec(quotient: Scalar) -> int {
        if quotient.to_u32_spec() < 1 {
            1
        } else {
            quotient.to_u32_spec()
        }
    }

    /// The height of an image whose width divided by the aspect ratio is
    /// `quotient`.
    pub fn image_height_for(quotient: Scalar) -> (h: u32)
        ensures
            h >= 1,
            h == Self::image_height_spec(quotient),
    {
        let whole: u32 = quotient.to_u32();
        if whole < 1 {
            1
        } else {
            whole
        }
    }

    /// Installs what a render derives from the settings, all of it at once:
    /// the image height, from `quotient`, which is the width divided by the
    /// aspect ratio, and the frame.
    pub fn initialize(&mut self, quotient: Scalar, frame: Frame)
        ensures
            final(self).same_settings(*old(self)),
            final(self).image_height >= 1,
            final(self).image_height == Self::image_height_spec(quotient),
            final(self).frame == frame,
    {
        self.image_height = Self::image_height_for(quotient);
        self.frame = frame;
    }

    /// How many samples a render takes of each pixel: the whole part of
    /// `samples_per_pixel`.
    pub fn sample_count(&self) -> (n: u32)
        ensures
            n == self.samples_per_pixel.to_u32_spec(),
    {
        self.samples_per_pixel.to_u32()
    }

    /// Whether rays start on the defocus disk and not at the centre: so it
    /// is unless the defocus angle is zero or below.
    pub fn samples_lens(&self) -> (r: bool)
        ensures
            r == !self.defocus_angle.le_spec(Scalar { bits: 0 }),
    {
        !self.defocus_angle.le(Scalar::zero())
    }

    /// The range of distances searched for a hit.
    pub fn trace_window() -> (w: Interval)
        ensures
            w == Self::trace_window_spec(),
    {
        Interval::new(Scalar::from_bits(TRACE_MIN_BITS), Scalar::infinity())
    }

    /// What a ray with `depth` bounces left contributes when the scene
    /// answers `hit`.
    pub fn shade(depth: u32, hit: Option<HitRecord>) -> (shade: Shade)
        ensures
            shade == Self::shade_spec(depth, hit),
    {
        if depth == 0 {
            return Shade::Black;
        }
        match hit {
            None => Shade::Background,
            Some(record) => match record.material {
                None => Shade::Black,
                Some(material) => Shade::Bounce { record, material, depth: depth - 1 },
            },
        }
    }

    /// Casts `ray` into `world` with `depth` bounces left. A ray without
    /// bounces left is black whatever the scene holds, and the scene is not
    /// searched. Otherwise the scene is searched beyond `0.0001`, and the
    /// ray's contribution follows from the closest hit as `shade` says; an
    /// empty scene gives the background.
    pub fn ray_color<H: Hittable>(&self, ray: &Ray, depth: u32, world: &HittableList<H>) -> (shade:
        Shade)
        ensures
            depth == 0 ==> shade is Black,
            depth > 0 && world.objects@.len() == 0 ==> shade is Background,
            depth > 0 ==> exists|hit: Option<HitRecord>|
                {
                    &&& may_answer(*world, *ray, Self::trace_window_spec(), hit)
                    &&& shade == #[trigger] Self::shade_spec(depth, hit)
                },
            shade matches Shade::Bounce { record, material, depth: left } ==> {
                &&& left < depth
                &&& record.material == Some(material)
                &&& Self::trace_window_spec().surrounds_spec(record.t)
            },
    {
        if depth == 0 {
            return Shade::Black;
        }
        let hit = world.hit(ray, Self::trace_window());
        let shade = Self::shade(depth, hit);
        assert(shade == Self::shade_spec(depth, hit));
        shade
    }
}

} // verus!
