use raytracer::fixed::SCALE;
use raytracer::hittable::{HitRecord, Sphere, World};
use raytracer::interval::{Interval, INFINITY, NEG_INFINITY};
use raytracer::material::{Lambertian, Material};
use raytracer::ray::Ray;
use raytracer::vector::{dot, Vector3};

fn v(x: i128, y: i128, z: i128) -> Vector3 {
    Vector3::new(x, y, z)
}

fn grey() -> Material {
    Material::Lambertian(Lambertian::new(v(SCALE / 2, SCALE / 2, SCALE / 2)))
}

#[test]
fn interval_membership() {
    let i = Interval::new(0, SCALE);
    assert!(i.contains(0) && i.contains(SCALE) && i.contains(SCALE / 2));
    assert!(!i.contains(-1) && !i.contains(SCALE + 1));
    assert!(i.surrounds(1) && i.surrounds(SCALE - 1));
    assert!(!i.surrounds(0) && !i.surrounds(SCALE));
}

#[test]
fn interval_clamp() {
    let i = Interval::new(0, SCALE);
    assert_eq!(i.clamp(-5), 0);
    assert_eq!(i.clamp(SCALE + 5), SCALE);
    assert_eq!(i.clamp(7), 7);
}

#[test]
fn interval_default_is_universe() {
    let d = Interval::default();
    assert_eq!(d, Interval::universe());
    assert_eq!(d.min, NEG_INFINITY);
    assert_eq!(d.max, INFINITY);
}

#[test]
fn interval_empty_holds_nothing() {
    let e = Interval::empty();
    assert!(!e.contains(0) && !e.contains(SCALE) && !e.contains(-SCALE));
}

#[test]
fn ray_at_points() {
    let r = Ray::new(v(0, 0, 0), v(0, SCALE, 0));
    assert_eq!(r.at(0), v(0, 0, 0));
    assert_eq!(r.at(SCALE), v(0, SCALE, 0));
    let r2 = Ray::new(v(5 * SCALE, 5 * SCALE, 0), v(10 * SCALE, 0, 0));
    assert_eq!(r2.at(SCALE / 2), v(10 * SCALE, 5 * SCALE, 0));
    assert_eq!(r2.at(-SCALE / 2), v(0, 5 * SCALE, 0));
}

#[test]
fn hit_record_orients_normal() {
    let ray = Ray::new(v(0, 0, 0), v(SCALE, SCALE, 0));
    let cases: [(Vector3, bool); 6] = [
        (v(3 * SCALE, 0, 0), false),
        (v(-3 * SCALE, 0, 0), true),
        (v(0, 10 * SCALE, 0), false),
        (v(3 * SCALE, -5 * SCALE, 0), true),
        (v(-2 * SCALE, -SCALE, 0), true),
        (v(-SCALE / 2, 4 * SCALE, SCALE / 5), false),
    ];
    for (outward, expected) in cases {
        let mut rec = HitRecord::new(v(0, 0, 0), v(0, SCALE, 0), 0);
        rec.set_face_normal(&ray, outward);
        assert_eq!(rec.front_face, expected);
        if expected {
            assert_eq!(rec.normal, outward);
        } else {
            assert_eq!(rec.normal, outward.neg());
        }
    }
}

#[test]
fn sphere_head_on_hit() {
    // a unit-diameter sphere one unit away, hit straight on
    let s = Sphere::new(SCALE / 2, v(0, 0, -SCALE), grey());
    let r = Ray::new(v(0, 0, 0), v(0, 0, -SCALE));
    let rec = s.hit(&r, Interval::new(1_000_000, INFINITY)).expect("must hit");
    assert_eq!(rec.t, SCALE / 2);
    assert_eq!(rec.position, v(0, 0, -SCALE / 2));
    assert_eq!(rec.normal, v(0, 0, SCALE));
    assert!(rec.front_face);
    assert!(rec.material.is_some());
}

#[test]
fn sphere_hit_t_inside_interval_and_normal_faces_ray() {
    let s = Sphere::new(SCALE / 2, v(0, 0, -SCALE), grey());
    let r = Ray::new(v(0, 0, 0), v(0, 0, -SCALE));
    let itv = Interval::new(1_000_000, INFINITY);
    let rec = s.hit(&r, itv).expect("must hit");
    assert!(itv.surrounds(rec.t));
    assert!(dot(r.direction(), rec.normal) <= 0);
}

#[test]
fn sphere_miss_returns_none() {
    // discriminant negative: ray points away from the sphere's axis
    let s = Sphere::new(SCALE / 2, v(0, 0, -SCALE), grey());
    let r = Ray::new(v(0, 0, 0), v(0, SCALE, 0));
    assert!(s.hit(&r, Interval::new(1_000_000, INFINITY)).is_none());
    assert!(s.hit(&r, Interval::new(NEG_INFINITY, INFINITY)).is_none());
}

#[test]
fn sphere_far_root_when_near_excluded() {
    let s = Sphere::new(SCALE / 2, v(0, 0, -SCALE), grey());
    let r = Ray::new(v(0, 0, 0), v(0, 0, -SCALE));
    let rec = s.hit(&r, Interval::new(600_000_000, INFINITY)).expect("far root");
    assert_eq!(rec.t, 3 * SCALE / 2);
    assert_eq!(rec.position, v(0, 0, -3 * SCALE / 2));
    assert_eq!(rec.normal, v(0, 0, SCALE));
    assert!(!rec.front_face);
}

#[test]
fn world_returns_closest_of_two_spheres() {
    let near = Sphere::new(SCALE / 4, v(0, 0, -SCALE), grey());
    let far = Sphere::new(SCALE / 4, v(0, 0, -2 * SCALE), grey());
    let r = Ray::new(v(0, 0, 0), v(0, 0, -SCALE));
    let itv = Interval::new(1_000_000, INFINITY);

    let mut w1 = World::new();
    w1.push(near);
    w1.push(far);
    let rec1 = w1.hit(&r, itv).expect("hit");
    assert_eq!(rec1.t, 3 * SCALE / 4);

    let mut w2 = World::new();
    w2.push(far);
    w2.push(near);
    let rec2 = w2.hit(&r, itv).expect("hit");
    assert_eq!(rec2.t, 3 * SCALE / 4);
}

#[test]
fn empty_world_hits_nothing() {
    let w = World::new();
    let r = Ray::new(v(0, 0, 0), v(0, 0, -SCALE));
    assert!(w.hit(&r, Interval::new(1_000_000, INFINITY)).is_none());
}

#[test]
fn world_tie_goes_to_first_member() {
    // two spheres with identical geometry: the record carries the
    // material of whichever member is scanned first
    let red = Material::Lambertian(Lambertian::new(v(SCALE, 0, 0)));
    let blue = Material::Lambertian(Lambertian::new(v(0, 0, SCALE)));
    let a = Sphere::new(SCALE / 2, v(0, 0, -SCALE), red);
    let b = Sphere::new(SCALE / 2, v(0, 0, -SCALE), blue);
    let r = Ray::new(v(0, 0, 0), v(0, 0, -SCALE));
    let itv = Interval::new(1_000_000, INFINITY);

    let mut w = World::new();
    w.push(a);
    w.push(b);
    let rec = w.hit(&r, itv).expect("hit");
    assert_eq!(rec.material, Some(red));

    let mut w2 = World::new();
    w2.push(b);
    w2.push(a);
    let rec2 = w2.hit(&r, itv).expect("hit");
    assert_eq!(rec2.material, Some(blue));
}
