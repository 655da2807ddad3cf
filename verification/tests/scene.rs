use pathtracer::camera::{Camera, Frame, Shade};
use pathtracer::color::to_rgb;
use pathtracer::hit_record::{HitRecord, HitScan, Hittable, HittableList};
use pathtracer::interval::Interval;
use pathtracer::material::{Dielectric, Lambertian, Material, Metal};
use pathtracer::ppm::{encode, parse, Image, Rgb};
use pathtracer::ray::Ray;
use pathtracer::scalar::Scalar;
use pathtracer::sphere::Sphere;
use pathtracer::vec3::{accepts_unit_sample, Vec3};
use rand::distr::Uniform;
use rand::rngs::StdRng;
use rand::{Rng, SeedableRng};

type F3 = (f32, f32, f32);

type Scene = HittableList<Box<dyn Hittable>>;

fn enc(x: f32) -> Scalar {
    Scalar::from_bits(x.to_bits())
}

fn num(s: Scalar) -> f32 {
    f32::from_bits(s.to_bits())
}

fn v(a: F3) -> Vec3 {
    Vec3::new(enc(a.0), enc(a.1), enc(a.2))
}

fn f(a: Vec3) -> F3 {
    (num(a.x), num(a.y), num(a.z))
}

fn add(a: F3, b: F3) -> F3 {
    (a.0 + b.0, a.1 + b.1, a.2 + b.2)
}

fn sub(a: F3, b: F3) -> F3 {
    (a.0 - b.0, a.1 - b.1, a.2 - b.2)
}

fn scale(k: f32, a: F3) -> F3 {
    (a.0 * k, a.1 * k, a.2 * k)
}

fn times(a: F3, b: F3) -> F3 {
    (a.0 * b.0, a.1 * b.1, a.2 * b.2)
}

fn dot(a: F3, b: F3) -> f32 {
    a.0 * b.0 + a.1 * b.1 + a.2 * b.2
}

fn cross(a: F3, b: F3) -> F3 {
    (a.1 * b.2 - a.2 * b.1, a.2 * b.0 - a.0 * b.2, a.0 * b.1 - a.1 * b.0)
}

fn length(a: F3) -> f32 {
    dot(a, a).sqrt()
}

fn unit(a: F3) -> F3 {
    scale(1.0 / length(a), a)
}

fn reflect(a: F3, n: F3) -> F3 {
    sub(a, scale(2.0 * dot(a, n), n))
}

fn refract(uv: F3, n: F3, ratio: f32) -> F3 {
    let cos_theta = dot(scale(-1.0, uv), n).min(1.0);
    let perp = scale(ratio, add(uv, scale(cos_theta, n)));
    let parallel = scale(-((1.0 - dot(perp, perp)).abs().sqrt()), n);
    add(perp, parallel)
}

fn at(r: &Ray, t: f32) -> F3 {
    add(f(r.origin), scale(t, f(r.direction)))
}

fn ray(origin: F3, direction: F3) -> Ray {
    Ray::new(v(origin), v(direction))
}

fn iv(min: f32, max: f32) -> Interval {
    Interval::new(enc(min), enc(max))
}

struct Ball(Sphere);

impl Hittable for Ball {
    fn hit(&self, r: &Ray, interval: Interval) -> Option<HitRecord> {
        let center = f(self.0.center);
        let radius = num(self.0.radius);
        let direction = f(r.direction);
        let oc = sub(center, f(r.origin));
        let a = dot(direction, direction);
        let h = dot(direction, oc);
        let c = dot(oc, oc) - radius * radius;
        let discriminant = h * h - a * c;
        let sqrtd = discriminant.sqrt();
        let near = (h - sqrtd) / a;
        let far = (h + sqrtd) / a;
        let t = Sphere::select_root(enc(discriminant), enc(near), enc(far), interval)?;
        let p = at(r, num(t));
        let outward = scale(1.0 / radius, sub(p, center));
        Some(self.0.record(t, v(p), v(outward), enc(dot(direction, outward))))
    }
}

fn lambertian(albedo: F3) -> Material {
    Material::Lambertian(Lambertian::new(v(albedo)))
}

fn ball(center: F3, radius: f32, material: Material) -> Box<dyn Hittable> {
    Box::new(Ball(Sphere::new(v(center), enc(radius), material)))
}

fn tone(k: usize) -> Material {
    lambertian((k as f32 * 0.1, 0.5, 0.5))
}

#[test]
fn empty_scene_has_no_hit() {
    let world = Scene::new();
    for direction in [(0.0, 0.0, -1.0), (1.0, 2.0, 3.0), (-1.0, 0.0, 0.0)] {
        let r = ray((0.0, 0.0, 0.0), direction);
        assert!(world.hit(&r, iv(0.0001, f32::INFINITY)).is_none());
        assert!(world.hit(&r, iv(f32::NEG_INFINITY, f32::INFINITY)).is_none());
    }
}

#[test]
fn add_keeps_insertion_order_and_clear_empties() {
    let mut world = Scene::new();
    world.add(ball((0.0, 0.0, -1.0), 0.5, tone(1)));
    world.add(ball((0.0, 0.0, -3.0), 0.5, tone(2)));
    assert_eq!(world.objects.len(), 2);
    let r = ray((0.0, 0.0, 0.0), (0.0, 0.0, -1.0));
    let window = iv(0.0001, f32::INFINITY);
    assert_eq!(world.objects[0].hit(&r, window).map(|h| num(h.t)), Some(0.5));
    assert_eq!(world.objects[1].hit(&r, window).map(|h| num(h.t)), Some(2.5));
    assert!(world.hit(&r, iv(0.0001, f32::INFINITY)).is_some());
    world.clear();
    assert_eq!(world.objects.len(), 0);
    assert!(world.hit(&r, iv(0.0001, f32::INFINITY)).is_none());
}

#[test]
fn closest_hit_among_spheres_along_a_ray() {
    let r = ray((0.0, 0.0, 0.0), (0.0, 0.0, -1.0));
    let orders: [[usize; 4]; 5] =
        [[0, 1, 2, 3], [3, 2, 1, 0], [2, 0, 3, 1], [1, 3, 0, 2], [3, 0, 1, 2]];
    for order in orders {
        let mut world = Scene::new();
        for k in order {
            world.add(ball((0.0, 0.0, -2.0 - 1.5 * k as f32), 1.0, tone(k)));
        }
        let rec = world.hit(&r, iv(0.0001, f32::INFINITY)).unwrap();
        assert_eq!(num(rec.t), 1.0);
        assert_eq!(rec.material, Some(tone(0)));
        assert_eq!(f(rec.p), (0.0, 0.0, -1.0));

        let rec = world.hit(&r, iv(1.0, f32::INFINITY)).unwrap();
        assert_eq!(num(rec.t), 2.5);
        assert_eq!(rec.material, Some(tone(1)));

        let rec = world.hit(&r, iv(5.75, f32::INFINITY)).unwrap();
        assert_eq!(num(rec.t), 6.0);
        assert_eq!(rec.material, Some(tone(2)));
        assert!(!rec.front_face);

        let rec = world.hit(&r, iv(6.0, f32::INFINITY)).unwrap();
        assert_eq!(num(rec.t), 7.5);
        assert_eq!(rec.material, Some(tone(3)));

        assert!(world.hit(&r, iv(7.5, 8.0)).is_none());
        assert!(world.hit(&r, iv(0.0001, 1.0)).is_none());
    }
}

#[test]
fn closest_hit_is_the_minimum_of_what_members_answer() {
    let centers: [F3; 6] = [
        (0.3, 0.1, -9.0),
        (0.0, 0.0, -4.0),
        (-0.2, 0.4, -6.5),
        (5.0, 5.0, -1.0),
        (0.1, -0.3, -2.5),
        (0.0, 0.2, -12.0),
    ];
    let r = ray((0.0, 0.0, 0.0), (0.02, 0.01, -1.0));
    let window = iv(0.0001, f32::INFINITY);
    let mut world = Scene::new();
    let mut least: Option<f32> = None;
    for (k, c) in centers.iter().enumerate() {
        let b = ball(*c, 0.75, tone(k));
        if let Some(rec) = b.hit(&r, window) {
            least = Some(least.map_or(num(rec.t), |m| m.min(num(rec.t))));
        }
        world.add(b);
    }
    let found = world.hit(&r, window).unwrap();
    assert_eq!(Some(num(found.t)), least);
    assert_eq!(found.material, Some(tone(4)));
}

#[test]
fn a_scene_of_one_kind_needs_no_boxes() {
    let r = ray((0.0, 0.0, 0.0), (0.0, 0.0, -1.0));
    let mut world: HittableList<Ball> = HittableList::new();
    world.add(Ball(Sphere::new(v((0.0, 0.0, -5.0)), enc(1.0), tone(1))));
    world.add(Ball(Sphere::new(v((0.0, 0.0, -3.0)), enc(1.0), tone(2))));
    let rec = world.hit(&r, iv(0.0001, f32::INFINITY)).unwrap();
    assert_eq!(num(rec.t), 2.0);
    assert_eq!(rec.material, Some(tone(2)));
    assert_eq!(f(world.objects[0].0.center), (0.0, 0.0, -5.0));
    assert_eq!(f(world.objects[1].0.center), (0.0, 0.0, -3.0));
}

#[test]
fn boxed_geometry_answers_as_its_content() {
    let plain = Ball(Sphere::new(v((0.2, -0.1, -4.0)), enc(1.5), tone(5)));
    let boxed: Box<Ball> = Box::new(Ball(Sphere::new(v((0.2, -0.1, -4.0)), enc(1.5), tone(5))));
    let any: Box<dyn Hittable> = ball((0.2, -0.1, -4.0), 1.5, tone(5));
    for k in 0..40 {
        let r = ray((0.0, 0.0, 0.0), (k as f32 * 0.05 - 1.0, 0.1, -1.0));
        for window in [iv(0.0001, f32::INFINITY), iv(3.0, 5.0), iv(0.0001, 2.0)] {
            let expected = plain.hit(&r, window);
            assert_eq!(Hittable::hit(&boxed, &r, window), expected);
            assert_eq!(Hittable::hit(&any, &r, window), expected);
        }
    }
    let r = ray((0.0, 0.0, 0.0), (0.0, 0.0, -1.0));
    assert!(Hittable::hit(&boxed, &r, iv(0.0001, f32::INFINITY)).is_some());
}

#[test]
fn a_scene_is_geometry_too() {
    let r = ray((0.0, 0.0, 0.0), (0.0, 0.0, -1.0));
    let mut far = Scene::new();
    far.add(ball((0.0, 0.0, -9.0), 1.0, tone(1)));
    far.add(ball((0.0, 0.0, -6.0), 1.0, tone(2)));
    let mut world = Scene::new();
    world.add(Box::new(far));
    world.add(ball((0.0, 0.0, -7.0), 0.5, tone(3)));
    let rec = world.hit(&r, iv(0.0001, f32::INFINITY)).unwrap();
    assert_eq!(num(rec.t), 5.0);
    assert_eq!(rec.material, Some(tone(2)));
    let rec = world.hit(&r, iv(5.0, f32::INFINITY)).unwrap();
    assert_eq!(num(rec.t), 6.5);
    assert_eq!(rec.material, Some(tone(3)));
}

fn same_hit(a: &Option<HitRecord>, b: &Option<HitRecord>) -> bool {
    a == b
}

#[test]
fn narrowing_the_range_only_loses_the_hit() {
    let r = ray((0.0, 0.0, 0.0), (0.0, 0.0, -1.0));
    let single = ball((0.0, 0.0, -3.0), 1.0, tone(1));
    let mut world = Scene::new();
    world.add(ball((0.0, 0.0, -8.0), 1.0, tone(2)));
    world.add(ball((0.0, 0.0, -3.0), 1.0, tone(1)));
    world.add(ball((0.0, 0.0, -5.0), 0.5, tone(3)));
    let members: [&dyn Hittable; 2] = [&single, &world];
    for member in members {
        for low in [0.0001f32, 2.0, 3.5, 4.6] {
            let whole = member.hit(&r, iv(low, f32::INFINITY));
            for k in 0..60 {
                let limit = 1.0 + k as f32 * 0.2;
                let narrow = member.hit(&r, iv(low, limit));
                match (&narrow, &whole) {
                    (Some(_), _) => assert!(same_hit(&narrow, &whole), "{low} {limit}"),
                    (None, Some(g)) => assert!(!(num(g.t) < limit), "{low} {limit}"),
                    (None, None) => {}
                }
            }
        }
    }
}

#[test]
fn scan_keeps_the_last_answer_and_narrows() {
    let window = iv(0.0001, f32::INFINITY);
    let mut scan = HitScan::begin(window);
    assert_eq!(scan.window(), window);
    assert_eq!(scan.found, None);
    scan.offer(None);
    assert_eq!(scan.window(), window);
    let far = HitRecord::new(v((0.0, 0.0, -5.0)), v((0.0, 0.0, 1.0)), enc(5.0), true);
    scan.offer(Some(far));
    assert_eq!(scan.found, Some(far));
    assert_eq!(scan.window(), iv(0.0001, 5.0));
    scan.offer(None);
    assert_eq!(scan.found, Some(far));
    let near = HitRecord::new(v((0.0, 0.0, -2.0)), v((0.0, 0.0, 1.0)), enc(2.0), true);
    scan.offer(Some(near));
    assert_eq!(scan.found, Some(near));
    assert_eq!(scan.window(), iv(0.0001, 2.0));
}

#[test]
fn hit_point_lies_on_the_sphere() {
    let centers: [F3; 4] = [(0.0, 0.0, -1.0), (0.4, -0.2, -3.0), (-1.0, 0.5, -2.0), (0.0, -100.5, -1.0)];
    let radii = [0.5f32, 1.25, 0.75, 100.0];
    for (c, radius) in centers.iter().zip(radii) {
        let b = ball(*c, radius, tone(0));
        for k in 0..50 {
            let direction = (k as f32 * 0.02 - 0.5, (k % 7) as f32 * 0.05 - 0.4, -1.0);
            let r = ray((0.0, 0.0, 0.0), direction);
            if let Some(rec) = b.hit(&r, iv(0.0001, f32::INFINITY)) {
                let distance = length(sub(at(&r, num(rec.t)), *c));
                assert!((distance - radius).abs() <= 1.0e-3 * radius.max(1.0), "{distance} {radius}");
                assert!(num(rec.t) > 0.0001);
                assert!((length(f(rec.normal_vec)) - 1.0).abs() < 1.0e-3);
            }
        }
    }
}

#[test]
fn faces_from_outside_and_inside() {
    let c = (0.0, 0.0, -1.0);
    let b = ball(c, 0.5, tone(0));
    let outside = ray((0.0, 0.0, 0.0), (0.0, 0.0, -1.0));
    let rec = b.hit(&outside, iv(0.0001, f32::INFINITY)).unwrap();
    assert!(rec.front_face);
    assert_eq!(num(rec.t), 0.5);
    assert!(dot(f(rec.normal_vec), sub(f(rec.p), c)) > 0.0);
    assert!(dot(f(rec.normal_vec), f(outside.direction)) < 0.0);

    let inside = ray(c, (0.0, 0.0, -1.0));
    let rec = b.hit(&inside, iv(0.0001, f32::INFINITY)).unwrap();
    assert!(!rec.front_face);
    assert_eq!(num(rec.t), 0.5);
    assert!(dot(f(rec.normal_vec), sub(f(rec.p), c)) < 0.0);
    assert!(dot(f(rec.normal_vec), f(inside.direction)) < 0.0);
}

#[test]
fn set_face_normal_vec_by_the_sign_of_the_dot_product() {
    let outward = v((0.0, 1.0, 0.0));
    let mut rec = HitRecord::new(v((1.0, 2.0, 3.0)), v((0.0, 0.0, 0.0)), enc(4.0), false);
    rec.set_face_normal_vec(enc(-0.25), outward);
    assert!(rec.front_face);
    assert_eq!(rec.normal_vec, outward);
    rec.set_face_normal_vec(enc(0.25), outward);
    assert!(!rec.front_face);
    assert_eq!(f(rec.normal_vec), (-0.0, -1.0, -0.0));
    rec.set_face_normal_vec(enc(0.0), outward);
    assert!(!rec.front_face);
    rec.set_face_normal_vec(enc(f32::NAN), outward);
    assert!(!rec.front_face);
    assert_eq!(f(rec.p), (1.0, 2.0, 3.0));
    assert_eq!(num(rec.t), 4.0);
    assert_eq!(rec.material, None);
}

#[test]
fn new_record_has_no_material() {
    let rec = HitRecord::new(v((1.0, 2.0, 3.0)), v((0.0, 1.0, 0.0)), enc(4.0), true);
    assert_eq!(rec.material, None);
    assert!(rec.front_face);
    assert_eq!(f(rec.normal_vec), (0.0, 1.0, 0.0));
}

#[test]
fn ray_without_depth_is_black_whatever_the_scene() {
    let camera = Camera::default();
    let mut world = Scene::new();
    let r = ray((0.0, 0.0, 0.0), (0.0, 0.0, -1.0));
    assert_eq!(camera.ray_color(&r, 0, &world), Shade::Black);
    world.add(ball((0.0, 0.0, -1.0), 0.5, tone(1)));
    assert_eq!(camera.ray_color(&r, 0, &world), Shade::Black);
    let away = ray((0.0, 0.0, 0.0), (0.0, 1.0, 0.0));
    assert_eq!(camera.ray_color(&away, 0, &world), Shade::Black);
}

#[test]
fn empty_scene_gives_the_background() {
    let camera = Camera::default();
    let world = Scene::new();
    for k in 0..40 {
        let direction = (k as f32 * 0.1 - 2.0, (k % 5) as f32 - 2.0, -1.0);
        let r = ray((0.0, 0.0, 0.0), direction);
        for depth in [1u32, 2, 10, u32::MAX] {
            assert_eq!(camera.ray_color(&r, depth, &world), Shade::Background);
        }
    }
}

#[test]
fn ray_that_hits_bounces_with_one_bounce_less() {
    let camera = Camera::default();
    let mut world = Scene::new();
    world.add(ball((0.0, 0.0, -1.0), 0.5, tone(1)));
    let r = ray((0.0, 0.0, 0.0), (0.0, 0.0, -1.0));
    match camera.ray_color(&r, 10, &world) {
        Shade::Bounce { record, material, depth } => {
            assert_eq!(depth, 9);
            assert_eq!(material, tone(1));
            assert_eq!(num(record.t), 0.5);
        }
        other => panic!("{other:?}"),
    }
    let away = ray((0.0, 0.0, 0.0), (0.0, 1.0, 0.0));
    assert_eq!(camera.ray_color(&away, 10, &world), Shade::Background);
}

#[test]
fn bounce_does_not_hit_the_surface_it_left() {
    let camera = Camera::default();
    let mut world = Scene::new();
    world.add(ball((0.0, 0.0, -1.0), 0.5, tone(1)));
    let leaving = ray((0.0, 0.0, -0.5), (0.0, 0.0, 1.0));
    assert_eq!(camera.ray_color(&leaving, 3, &world), Shade::Background);
}

#[test]
fn glass_of_index_one_does_not_bend_light() {
    let m = Dielectric::new(enc(1.0));
    let n = (0.0, 0.0, 1.0);
    for k in 0..30 {
        let d = unit((k as f32 * 0.05 - 0.7, (k % 4) as f32 * 0.1, -1.0));
        for front_face in [true, false] {
            let ratio = num(m.refraction_ratio(front_face, enc(1.0 / num(m.refraction_index()))));
            let cos_theta = dot(scale(-1.0, d), n).min(1.0);
            let sin_theta = (1.0 - cos_theta * cos_theta).sqrt();
            assert!(!Dielectric::cannot_refract(enc(ratio * sin_theta)));
            let out = refract(d, n, ratio);
            assert!(length(sub(out, d)) < 1.0e-5, "{out:?} {d:?}");
        }
    }
}

struct Sampler {
    rng: StdRng,
    dist: Uniform<f32>,
}

impl Sampler {
    fn seeded(seed: u64) -> Sampler {
        Sampler { rng: StdRng::seed_from_u64(seed), dist: Uniform::new(0.0, 1.0).unwrap() }
    }

    fn draw(&mut self) -> f32 {
        self.rng.sample(self.dist)
    }

    fn range(&mut self, min: f32, max: f32) -> f32 {
        min + (max - min) * self.draw()
    }

    fn unit_vector(&mut self) -> F3 {
        loop {
            let p = (self.range(-1.0, 1.0), self.range(-1.0, 1.0), self.range(-1.0, 1.0));
            let lensq = dot(p, p);
            if accepts_unit_sample(enc(lensq)) {
                return scale(1.0 / lensq.sqrt(), p);
            }
        }
    }
}

fn reflectance(cosine: f32, index: f32) -> f32 {
    let r0 = (1.0 - index) / (1.0 + index);
    let r0 = r0 * r0;
    r0 + (1.0 - r0) * (1.0 - cosine).powi(5)
}

fn scatter(material: &Material, ray_in: &Ray, rec: &HitRecord, sampler: &mut Sampler) -> Option<(Ray, F3)> {
    let normal = f(rec.normal_vec);
    let direction = match material {
        Material::Lambertian(_) => add(normal, sampler.unit_vector()),
        Material::Metal(m) => {
            let reflected = reflect(unit(f(ray_in.direction)), normal);
            add(unit(reflected), scale(num(m.fuzz), sampler.unit_vector()))
        }
        Material::Dielectric(m) => {
            let ratio = num(m.refraction_ratio(rec.front_face, enc(1.0 / num(m.refraction_index()))));
            let d = unit(f(ray_in.direction));
            let cos_theta = num(Dielectric::clamp_cosine(enc(dot(scale(-1.0, d), normal))));
            let sin_theta = (1.0 - cos_theta * cos_theta).sqrt();
            if Dielectric::cannot_refract(enc(ratio * sin_theta))
                || Dielectric::reflects(enc(reflectance(cos_theta, ratio)), enc(sampler.draw()))
            {
                reflect(d, normal)
            } else {
                refract(d, normal, ratio)
            }
        }
    };
    let (out, attenuation) = material.scatter(rec.p, rec.normal_vec, v(direction))?;
    Some((out, f(attenuation)))
}

fn background(r: &Ray) -> F3 {
    let a = 0.5 * (unit(f(r.direction)).1 + 1.0);
    add(scale(1.0 - a, (1.0, 1.0, 1.0)), scale(a, (0.5, 0.7, 1.0)))
}

fn colour(camera: &Camera, r: Ray, depth: u32, world: &Scene, sampler: &mut Sampler) -> F3 {
    match camera.ray_color(&r, depth, world) {
        Shade::Black => (0.0, 0.0, 0.0),
        Shade::Background => background(&r),
        Shade::Bounce { record, material, depth } => match scatter(&material, &r, &record, sampler) {
            Some((scattered, attenuation)) => {
                times(attenuation, colour(camera, scattered, depth, world, sampler))
            }
            None => (0.0, 0.0, 0.0),
        },
    }
}

fn initialize(camera: &mut Camera) {
    let quotient = enc(camera.image_width as f32 / num(camera.aspect_ratio));
    let height = Camera::image_height_for(quotient);
    let center = f(camera.lookfrom);
    let focus = num(camera.focus_distance);
    let h = (num(camera.vfov).to_radians() / 2.0).tan();
    let viewport_height = 2.0 * h * focus;
    let viewport_width = viewport_height * (camera.image_width as f32 / height as f32);
    let w = unit(sub(f(camera.lookfrom), f(camera.lookat)));
    let u = unit(cross(f(camera.vup), w));
    let up = cross(w, u);
    let viewport_u = scale(viewport_width, u);
    let viewport_v = scale(-viewport_height, up);
    let delta_u = scale(1.0 / camera.image_width as f32, viewport_u);
    let delta_v = scale(1.0 / height as f32, viewport_v);
    let upper_left =
        sub(sub(sub(center, scale(focus, w)), scale(0.5, viewport_u)), scale(0.5, viewport_v));
    let mut frame = Frame::zero();
    frame.center = v(center);
    frame.pixel00_location = v(add(upper_left, scale(0.5, add(delta_u, delta_v))));
    frame.pixel_delta_u = v(delta_u);
    frame.pixel_delta_v = v(delta_v);
    frame.pixel_samples_scale = enc(1.0 / num(camera.samples_per_pixel));
    frame.u = v(u);
    frame.v = v(up);
    frame.w = v(w);
    camera.initialize(quotient, frame);
}

fn render(camera: &mut Camera, world: &Scene, seed: u64) -> Image {
    initialize(camera);
    let mut sampler = Sampler::seeded(seed);
    let mut pixels = Vec::new();
    for j in 0..camera.image_height {
        for i in 0..camera.image_width {
            let mut sum = (0.0, 0.0, 0.0);
            for _ in 0..camera.sample_count() {
                let offset = (sampler.draw() - 0.5, sampler.draw() - 0.5);
                let sample = add(
                    add(
                        f(camera.frame.pixel00_location),
                        scale(i as f32 + offset.0, f(camera.frame.pixel_delta_u)),
                    ),
                    scale(j as f32 + offset.1, f(camera.frame.pixel_delta_v)),
                );
                assert!(!camera.samples_lens());
                let origin = f(camera.frame.center);
                let r = ray(origin, sub(sample, origin));
                sum = add(sum, colour(camera, r, camera.max_depth, world, &mut sampler));
            }
            let c = scale(num(camera.frame.pixel_samples_scale), sum);
            pixels.push(to_rgb(v(c), v((c.0.sqrt(), c.1.sqrt(), c.2.sqrt()))));
        }
    }
    Image { width: camera.image_width, height: camera.image_height, pixels }
}

fn small_camera(max_depth: u32) -> Camera {
    let d = Camera::default();
    Camera::new(enc(1.0), 2, d.vfov, enc(1.0), max_depth, d.lookfrom, d.lookat, d.vup)
}

fn one_sphere() -> Scene {
    let mut world = Scene::new();
    world.add(ball((0.0, 0.0, -1.0), 0.5, lambertian((0.1, 0.2, 0.5))));
    world
}

#[test]
fn seeded_render_is_reproducible() {
    let world = one_sphere();
    let first = render(&mut small_camera(1), &world, 5464);
    let second = render(&mut small_camera(1), &world, 5464);
    assert_eq!((first.width, first.height), (2, 2));
    assert_eq!(first.pixels.len(), 4);
    assert_eq!(first.pixels, second.pixels);
    assert_eq!(encode(&first), encode(&second));
    let back = parse(&encode(&first)).unwrap();
    assert_eq!(back.pixels, first.pixels);
}

#[test]
fn seeded_render_of_the_sky() {
    let world = Scene::new();
    let image = render(&mut small_camera(1), &world, 5464);
    assert_eq!(image.pixels.len(), 4);
    for p in &image.pixels {
        assert_eq!(p.b, 255);
        assert!(p.r <= p.g && p.g <= p.b);
        assert!(p.r >= 181);
    }
    assert!(image.pixels[0].r < image.pixels[2].r);
}

#[test]
fn render_without_bounces_is_black() {
    let world = one_sphere();
    let image = render(&mut small_camera(0), &world, 5464);
    assert_eq!(image.pixels, vec![Rgb { r: 0, g: 0, b: 0 }; 4]);
}

#[test]
fn seeded_render_of_a_lit_scene_is_reproducible() {
    let mut world = one_sphere();
    world.add(ball((-1.0, 0.0, -1.0), 0.5, Material::Dielectric(Dielectric::new(enc(1.5)))));
    world.add(ball((1.0, 0.0, -1.0), 0.5, Material::Metal(Metal::new(v((0.8, 0.6, 0.2)), enc(1.0)))));
    world.add(ball((0.0, -100.5, -1.0), 100.0, lambertian((0.8, 0.8, 0.0))));
    let camera = || {
        let d = Camera::default();
        let mut c = Camera::new(enc(2.0), 8, d.vfov, enc(4.0), 10, d.lookfrom, d.lookat, d.vup);
        c.focus_distance = enc(1.0);
        c
    };
    let first = render(&mut camera(), &world, 5464);
    let second = render(&mut camera(), &world, 5464);
    assert_eq!((first.width, first.height), (8, 4));
    assert_eq!(first.pixels, second.pixels);
    let other = render(&mut camera(), &world, 5465);
    assert_ne!(first.pixels, other.pixels);
    assert!(first.pixels.iter().any(|p| *p != first.pixels[0]));
}
