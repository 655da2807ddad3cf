use pathtracer::interval::Interval;
use pathtracer::material::{Lambertian, Material};
use pathtracer::scalar::Scalar;
use pathtracer::sphere::Sphere;
use pathtracer::vec3::Vec3;

fn enc(x: f32) -> Scalar {
    Scalar::from_bits(x.to_bits())
}

fn num(s: Scalar) -> f32 {
    f32::from_bits(s.to_bits())
}

fn v(x: f32, y: f32, z: f32) -> Vec3 {
    Vec3::new(enc(x), enc(y), enc(z))
}

fn grey() -> Material {
    Material::Lambertian(Lambertian::new(v(0.5, 0.5, 0.5)))
}

fn iv(min: f32, max: f32) -> Interval {
    Interval::new(enc(min), enc(max))
}

#[test]
fn new_keeps_center_and_material() {
    let s = Sphere::new(v(0.0, 0.0, -1.0), enc(0.5), grey());
    assert_eq!(s.center, v(0.0, 0.0, -1.0));
    assert_eq!(num(s.radius), 0.5);
    assert_eq!(s.material, grey());
}

#[test]
fn negative_radius_becomes_zero() {
    assert_eq!(num(Sphere::new(v(0.0, 0.0, 0.0), enc(-2.0), grey()).radius), 0.0);
    assert_eq!(num(Sphere::new(v(0.0, 0.0, 0.0), enc(f32::NEG_INFINITY), grey()).radius), 0.0);
    assert_eq!(num(Sphere::new(v(0.0, 0.0, 0.0), enc(f32::NAN), grey()).radius), 0.0);
    assert_eq!(num(Sphere::new(v(0.0, 0.0, 0.0), enc(0.0), grey()).radius), 0.0);
    assert_eq!(num(Sphere::new(v(0.0, 0.0, 0.0), enc(100.0), grey()).radius), 100.0);
}

#[test]
fn radius_agrees_with_hardware_max() {
    for k in -20..20 {
        let r = k as f32 * 0.125;
        assert_eq!(num(Sphere::new(v(0.0, 0.0, 0.0), enc(r), grey()).radius), r.max(0f32));
    }
}

#[test]
fn negative_discriminant_is_a_miss() {
    let t = Sphere::select_root(enc(-0.25), enc(1.0), enc(2.0), iv(0.0, 10.0));
    assert_eq!(t, None);
}

#[test]
fn near_root_is_preferred() {
    let t = Sphere::select_root(enc(0.25), enc(1.0), enc(2.0), iv(0.0, 10.0));
    assert_eq!(t.map(num), Some(1.0));
}

#[test]
fn far_root_when_near_is_outside() {
    let t = Sphere::select_root(enc(0.25), enc(-0.5), enc(0.5), iv(0.0001, f32::INFINITY));
    assert_eq!(t.map(num), Some(0.5));
    let t = Sphere::select_root(enc(0.25), enc(1.0), enc(2.0), iv(1.0, 10.0));
    assert_eq!(t.map(num), Some(2.0));
}

#[test]
fn no_root_in_range_is_a_miss() {
    assert_eq!(Sphere::select_root(enc(0.25), enc(1.0), enc(2.0), iv(3.0, 10.0)), None);
    assert_eq!(Sphere::select_root(enc(0.25), enc(1.0), enc(2.0), iv(0.0, 1.0)), None);
    assert_eq!(Sphere::select_root(enc(0.25), enc(1.0), enc(2.0), iv(1.0, 2.0)), None);
    assert_eq!(
        Sphere::select_root(enc(0.0), enc(f32::NAN), enc(f32::NAN), iv(0.0, 10.0)),
        None
    );
}

#[test]
fn tangent_ray_hits_once() {
    let t = Sphere::select_root(enc(0.0), enc(1.5), enc(1.5), iv(0.0, 10.0));
    assert_eq!(t.map(num), Some(1.5));
}

#[test]
fn record_from_outside_is_a_front_face() {
    let s = Sphere::new(v(0.0, 0.0, -1.0), enc(0.5), grey());
    let outward = v(0.0, 0.0, 1.0);
    let rec = s.record(enc(0.5), v(0.0, 0.0, -0.5), outward, enc(-1.0));
    assert!(rec.front_face);
    assert_eq!(rec.normal_vec, outward);
    assert_eq!(num(rec.t), 0.5);
    assert_eq!(rec.p, v(0.0, 0.0, -0.5));
    assert_eq!(rec.material, Some(grey()));
}

#[test]
fn record_from_inside_turns_the_normal() {
    let s = Sphere::new(v(0.0, 0.0, -1.0), enc(0.5), grey());
    let outward = v(0.0, 0.0, -1.0);
    let rec = s.record(enc(0.5), v(0.0, 0.0, -1.5), outward, enc(1.0));
    assert!(!rec.front_face);
    assert_eq!(rec.normal_vec, outward.invert());
    assert_eq!(num(rec.normal_vec.z), 1.0);
    let grazing = s.record(enc(0.5), v(0.0, 0.0, -1.5), outward, enc(0.0));
    assert!(!grazing.front_face);
}
