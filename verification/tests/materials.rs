use raytracer::fixed::SCALE;
use raytracer::hittable::HitRecord;
use raytracer::material::{Dielectric, Lambertian, Metal};
use raytracer::random::RandomSource;
use raytracer::ray::Ray;
use raytracer::vector::{dot, reflect, Vector3};

fn v(x: i128, y: i128, z: i128) -> Vector3 {
    Vector3::new(x, y, z)
}

fn ground_record() -> HitRecord {
    let mut rec = HitRecord::new(v(0, 0, 0), v(0, SCALE, 0), SCALE);
    rec.front_face = true;
    rec
}

#[test]
fn lambertian_always_scatters_with_albedo() {
    let albedo = v(SCALE / 2, SCALE / 4, SCALE / 8);
    let mat = Lambertian::new(albedo);
    let rec = ground_record();
    let in_ray = Ray::new(v(0, SCALE, 0), v(0, -SCALE, 0));
    for seed in 0..20u64 {
        let mut rng = RandomSource::new(seed);
        let (att, sc) = mat.scatter(&mut rng, &in_ray, &rec).expect("always scatters");
        assert_eq!(att, albedo);
        assert_eq!(sc.position(), rec.position);
        // the direction is normal + unit sample (or the bare normal):
        // subtracting the normal leaves a vector of length one, or zero;
        // the sample comes from normalizing a sub-unit vector, where the
        // squared length lands within 4e-7 of one
        let u = sc.direction().sub(rec.normal);
        let l2 = u.length_squared();
        assert!(l2 == 0 || (l2 - SCALE).abs() <= 400, "sample length {l2}");
    }
}

#[test]
fn metal_mirror_reflects_exactly() {
    let albedo = v(800_000_000, 600_000_000, 200_000_000);
    let mat = Metal::new(albedo, 0);
    let rec = ground_record();
    let in_ray = Ray::new(v(-SCALE, SCALE, 0), v(SCALE, -SCALE, 0));
    let unit_in = in_ray.direction().into_unit();
    let expected = reflect(unit_in, rec.normal);
    for seed in 0..20u64 {
        let mut rng = RandomSource::new(seed);
        let (att, sc) = mat.scatter(&mut rng, &in_ray, &rec).expect("grazing-up reflection");
        assert_eq!(att, albedo);
        assert_eq!(sc.direction(), expected);
        assert!(dot(sc.direction(), rec.normal) > 0);
    }
}

#[test]
fn metal_absorbs_into_surface() {
    // reflected direction pointing along the surface: dot with the
    // normal is zero, so the ray is absorbed
    let mat = Metal::new(v(SCALE, SCALE, SCALE), 0);
    let rec = ground_record();
    let in_ray = Ray::new(v(-SCALE, 0, 0), v(SCALE, 0, 0));
    let mut rng = RandomSource::new(7);
    assert!(mat.scatter(&mut rng, &in_ray, &rec).is_none());
}

#[test]
fn dielectric_always_scatters_white() {
    let mat = Dielectric::new(1_500_000_000);
    let rec = ground_record();
    let in_ray = Ray::new(v(0, SCALE, 0), v(0, -SCALE, 0));
    let mut rng = RandomSource::new(3);
    let (att, _sc) = mat.scatter(&mut rng, &in_ray, &rec).expect("always scatters");
    assert_eq!(att, v(SCALE, SCALE, SCALE));
}

#[test]
fn dielectric_total_internal_reflection_ignores_draw() {
    // leaving glass (back face, ratio = 1.5) at a grazing angle:
    // ratio * sin(theta) > 1 forces reflection for every random draw
    let mat = Dielectric::new(1_500_000_000);
    let mut rec = HitRecord::new(v(0, 0, 0), v(0, SCALE, 0), SCALE);
    rec.front_face = false;
    let direction = v(SCALE, -200_000_000, 0);
    let in_ray = Ray::new(v(-SCALE, 200_000_000, 0), direction);
    let expected = reflect(direction.into_unit(), rec.normal);
    for seed in 0..20u64 {
        let mut rng = RandomSource::new(seed);
        let (att, sc) = mat.scatter(&mut rng, &in_ray, &rec).expect("always scatters");
        assert_eq!(att, v(SCALE, SCALE, SCALE));
        assert_eq!(sc.direction(), expected, "seed {seed} must still reflect");
    }
}

#[test]
fn metal_fuzzy_scatter_stays_above_surface() {
    // with a nonzero fuzz radius the perturbed direction may vary, but
    // an accepted scatter always leaves the surface
    let mat = Metal::new(v(SCALE, SCALE, SCALE), SCALE / 2);
    let rec = ground_record();
    let in_ray = Ray::new(v(-SCALE, SCALE, 0), v(SCALE, -SCALE, 0));
    for seed in 0..50u64 {
        let mut rng = RandomSource::new(seed);
        if let Some((_att, sc)) = mat.scatter(&mut rng, &in_ray, &rec) {
            assert!(dot(sc.direction(), rec.normal) > 0);
        }
    }
}

#[test]
fn dielectric_straight_entry_passes_through() {
    // perpendicular entry: Snell's law leaves the ray unchanged when it
    // refracts, and mirrors it when the Schlick draw reflects
    let mat = Dielectric::new(1_500_000_000);
    let mut rec = HitRecord::new(v(0, 0, 0), v(0, SCALE, 0), SCALE);
    rec.front_face = true;
    let in_ray = Ray::new(v(0, SCALE, 0), v(0, -SCALE, 0));
    let mut seen_refraction = false;
    for seed in 0..50u64 {
        let mut rng = RandomSource::new(seed);
        let (_att, sc) = mat.scatter(&mut rng, &in_ray, &rec).expect("always scatters");
        let d = sc.direction();
        assert!(d == v(0, -SCALE, 0) || d == v(0, SCALE, 0), "direction {d:?}");
        if d == v(0, -SCALE, 0) {
            seen_refraction = true;
        }
    }
    assert!(seen_refraction);
}
