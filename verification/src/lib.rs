//! The exact core of a path tracer for scenes of spheres.
//!
//! A renderer of this kind is rounding arithmetic and random draws held
//! together by decisions: which root of the crossing equation is the hit,
//! which member of the scene is hit first, when a path ends, what a glass
//! surface does with a ray, which integer a colour becomes, what the image
//! file says. This crate holds the decisions, each with a contract proved
//! over integers, and leaves the arithmetic and the draws to its caller.
//!
//! Numbers are carried by their binary encoding ([`scalar::Scalar`]), on
//! which order, sign and whole part are exact integer computations. The
//! caller converts to and from hardware numbers bit for bit.
//!
//! - [`scalar`], [`interval`], [`vec3`], [`ray`]: numbers, ranges, triples
//!   and rays.
//! - [`hit_record`], [`sphere`]: hits, the geometry contract, the search for
//!   the closest hit and the laws it obeys.
//! - [`material`]: the three surface laws.
//! - [`camera`]: settings, frame, and the fate of a cast ray.
//! - [`color`], [`ppm`]: from colours to integers, and the image text with
//!   its parser.

pub mod scalar;
pub mod interval;
pub mod vec3;
pub mod ray;
pub mod material;
pub mod hit_record;
pub mod sphere;
pub mod color;
pub mod ppm;
pub mod camera;
