use raytracer::colour::{colour_to_pixel, Pixel};
use raytracer::fixed::SCALE;
use raytracer::random::RandomSource;
use raytracer::vector::{dot, Vector3};
use raytracer::RaytracerError;

fn v(x: i128, y: i128, z: i128) -> Vector3 {
    Vector3::new(x, y, z)
}

#[test]
fn pixel_new_stores_channels() {
    let p = Pixel::new(0, 10, 255);
    assert_eq!(p.r, 0);
    assert_eq!(p.g, 10);
    assert_eq!(p.b, 255);
}

#[test]
fn colour_to_pixel_black_and_white() {
    assert_eq!(colour_to_pixel(&v(0, 0, 0), 1), Pixel::new(0, 0, 0));
    assert_eq!(colour_to_pixel(&v(SCALE, SCALE, SCALE), 1), Pixel::new(255, 255, 255));
}

#[test]
fn colour_to_pixel_gamma_values() {
    // 0.33, 0.4 and 0.7 gamma-correct to 146, 161 and 213
    let p = colour_to_pixel(&v(330_000_000, 400_000_000, 700_000_000), 1);
    assert_eq!(p, Pixel::new(146, 161, 213));
}

#[test]
fn colour_to_pixel_clamps_overbright() {
    assert_eq!(colour_to_pixel(&v(5 * SCALE, 5 * SCALE, 5 * SCALE), 1), Pixel::new(255, 255, 255));
}

#[test]
fn colour_to_pixel_negative_is_black() {
    assert_eq!(colour_to_pixel(&v(-SCALE, -5, -SCALE / 2), 1), Pixel::new(0, 0, 0));
}

#[test]
fn colour_to_pixel_averages_samples() {
    // a sum of two full-white samples averages back to white
    assert_eq!(colour_to_pixel(&v(2 * SCALE, 2 * SCALE, 2 * SCALE), 2), Pixel::new(255, 255, 255));
    // four quarter-unit samples average to 1/16, whose root is 1/4
    assert_eq!(colour_to_pixel(&v(SCALE / 4, SCALE / 4, SCALE / 4), 4), Pixel::new(63, 63, 63));
}

#[test]
fn next_in_spans_exactly_the_range() {
    let mut rng = RandomSource::new(1);
    // a one-wide range pins the draw completely
    assert_eq!(rng.next_in(5, 6), 5);
    assert_eq!(rng.next_in(-3, -2), -3);
    for _ in 0..1000 {
        let x = rng.next_in(-7, 9);
        assert!((-7..9).contains(&x));
    }
}

#[test]
fn same_seed_same_stream() {
    let mut a = RandomSource::new(99);
    let mut b = RandomSource::new(99);
    for _ in 0..100 {
        assert_eq!(a.next_in(0, SCALE), b.next_in(0, SCALE));
    }
}

#[test]
fn random_vector_ranges() {
    let mut rng = RandomSource::new(4);
    for _ in 0..50 {
        let a = Vector3::random(&mut rng);
        assert!(0 <= a.x && a.x < SCALE && 0 <= a.y && a.y < SCALE && 0 <= a.z && a.z < SCALE);
        let b = Vector3::random_range(&mut rng, -100, 100);
        assert!((-100..=100).contains(&b.x));
        assert!((-100..=100).contains(&b.y));
        assert!((-100..=100).contains(&b.z));
    }
}

#[test]
fn random_in_unit_sphere_lands_in_band() {
    let mut rng = RandomSource::new(4);
    for _ in 0..100 {
        let p = Vector3::random_in_unit_sphere(&mut rng);
        let l2 = p.length_squared();
        assert!((10_000_000..SCALE).contains(&l2), "length squared {l2}");
    }
}

#[test]
fn random_unit_vector_is_normalized() {
    // the sphere samples have length between 0.1 and 1, where the
    // normalized squared length lands within 4e-7 of one
    let mut rng = RandomSource::new(4);
    for _ in 0..100 {
        let u = Vector3::random_unit_vector(&mut rng);
        let l2 = u.length_squared();
        assert!((l2 - SCALE).abs() <= 400, "length squared {l2}");
    }
}

#[test]
fn random_on_hemisphere_agrees_with_normal() {
    let mut rng = RandomSource::new(4);
    let normal = v(0, SCALE, 0);
    for _ in 0..100 {
        let u = Vector3::random_on_hemisphere(&mut rng, normal);
        assert!(dot(u, normal) >= 0);
    }
}

#[test]
fn error_variants_are_distinct() {
    assert_ne!(RaytracerError::SceneRenderError, RaytracerError::SceneSaveError);
    assert_eq!(RaytracerError::SceneSaveError, RaytracerError::SceneSaveError);
}
