use raytracer::camera::Camera;
use raytracer::fixed::{fmul, SCALE};
use raytracer::hittable::{Sphere, World};
use raytracer::material::{Lambertian, Material};
use raytracer::random::RandomSource;
use raytracer::ray::Ray;
use raytracer::scene::{generate_world, test_pattern_colour};
use raytracer::vector::Vector3;

fn v(x: i128, y: i128, z: i128) -> Vector3 {
    Vector3::new(x, y, z)
}

#[test]
fn camera_viewport_wide() {
    // width 10 at 16:9 gives 0.4-unit pixel steps from (-1.8, 0.8, -1)
    let camera = Camera::new(10, 1_777_777_777);
    assert_eq!(camera.config.image_height, 5);
    assert_eq!(camera.config.pixel_dx, v(400_000_000, 0, 0));
    assert_eq!(camera.config.pixel_dy, v(0, -400_000_000, 0));
    assert_eq!(camera.config.first_pixel, v(-1_800_000_000, 800_000_000, -SCALE));
}

#[test]
fn camera_viewport_two_to_one() {
    let camera = Camera::new(500, 2 * SCALE);
    assert_eq!(camera.config.image_height, 250);
    assert_eq!(camera.config.pixel_dx, v(8_000_000, 0, 0));
    assert_eq!(camera.config.pixel_dy, v(0, -8_000_000, 0));
    assert_eq!(camera.config.first_pixel, v(-1_996_000_000, 996_000_000, -SCALE));
}

#[test]
fn camera_narrow_image_keeps_one_row() {
    let camera = Camera::new(10, 100_000_000_000);
    assert_eq!(camera.config.image_height, 1);
}

#[test]
fn get_ray_starts_at_center_and_aims_at_plane() {
    let camera = Camera::new(10, 1_777_777_777);
    let mut rng = RandomSource::new(11);
    for i in 0..10 {
        for j in 0..5 {
            let ray = camera.get_ray(&mut rng, i, j);
            assert_eq!(ray.position(), v(0, 0, 0));
            // the jitter moves only within the focal plane
            assert_eq!(ray.direction().z, -SCALE);
        }
    }
}

#[test]
fn ray_colour_depth_zero_is_black() {
    let (camera, world) = generate_world();
    let mut rng = RandomSource::new(5);
    let ray = Ray::new(v(0, 0, 0), v(0, 0, -SCALE));
    let c = camera.ray_colour(&mut rng, &ray, &world, 0);
    assert_eq!(c, v(0, 0, 0));
}

#[test]
fn ray_colour_miss_is_background_gradient() {
    let mut world = World::new();
    let grey = Material::Lambertian(Lambertian::new(v(SCALE / 2, SCALE / 2, SCALE / 2)));
    world.push(Sphere::new(SCALE, v(0, -100 * SCALE, 0), grey));
    let camera = Camera::new(10, 1_777_777_777);
    let mut rng = RandomSource::new(5);
    let direction = v(SCALE, 3 * SCALE, 0);
    let ray = Ray::new(v(0, 0, 0), direction);

    let unit = direction.into_unit();
    let a = fmul(500_000_000, unit.y + SCALE);
    let expected = v(SCALE, SCALE, SCALE)
        .scale(SCALE - a)
        .add(v(500_000_000, 700_000_000, SCALE).scale(a));

    let c = camera.ray_colour(&mut rng, &ray, &world, 10);
    assert_eq!(c, expected);
}

#[test]
fn ray_colour_stays_bounded() {
    let (camera, world) = generate_world();
    let mut rng = RandomSource::new(42);
    for i in 0..5 {
        let ray = camera.get_ray(&mut rng, 400 + i, 300);
        let c = camera.ray_colour(&mut rng, &ray, &world, 8);
        assert!(c.x.abs() <= 10 * SCALE && c.y.abs() <= 10 * SCALE && c.z.abs() <= 10 * SCALE);
    }
}

#[test]
fn generate_world_shape() {
    let (camera, world) = generate_world();
    assert_eq!(camera.config.image_width, 1000);
    assert_eq!(camera.config.image_height, 562);
    assert_eq!(world.objects.len(), 4);
}

#[test]
fn render_produces_full_pixel_grid() {
    let mut world = World::new();
    let grey = Material::Lambertian(Lambertian::new(v(SCALE / 2, SCALE / 2, SCALE / 2)));
    world.push(Sphere::new(SCALE / 2, v(0, 0, -SCALE), grey));
    let camera = Camera::new(4, 2 * SCALE);
    assert_eq!(camera.config.image_height, 2);
    let mut rng = RandomSource::new(1);
    let pixels = camera.render(&mut rng, &world, 4);
    assert_eq!(pixels.len(), 8);
}

#[test]
fn test_pattern_spans_gradient() {
    assert_eq!(test_pattern_colour(0, 0, 10, 5), v(-SCALE, -SCALE, 0));
    assert_eq!(test_pattern_colour(10, 5, 10, 5), v(0, 0, 0));
    assert_eq!(test_pattern_colour(5, 1, 10, 5), v(-SCALE / 2, -800_000_000, 0));
}
