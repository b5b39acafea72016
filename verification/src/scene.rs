use vstd::prelude::*;

use crate::camera::{camera_wf, Camera};
use crate::colour::Colour;
use crate::fixed::{fdiv, sdiv, SCALE};
use crate::hittable::{world_wf, Sphere, World};
use crate::material::{lemma_tdiv_quot_bound, Dielectric, Lambertian, Material, Metal};
use crate::vector::{SpecVec, Vector3};

verus! {

/// The showcase scene: a large ground sphere and three small ones with a
/// diffuse, a refractive and a metallic surface, seen by a wide camera.
pub fn generate_world() -> (r: (Camera, World))
    ensures
        camera_wf(r.0),
        world_wf(r.1),
        r.1.objects@.len() == 4,
{
    let camera: Camera = Camera::new(1000, 1_777_777_777);
    let material_ground: Material = Material::Lambertian(
        Lambertian::new(Vector3::new(800_000_000, 800_000_000, 0)),
    );
    let material_center: Material = Material::Lambertian(
        Lambertian::new(Vector3::new(700_000_000, 300_000_000, 300_000_000)),
    );
    let material_left: Material = Material::Dielectric(Dielectric::new(1_500_000_000));
    let material_right: Material = Material::Metal(
        Metal::new(Vector3::new(800_000_000, 600_000_000, 200_000_000), 0),
    );
    let mut world: World = World::new();
    world.push(
        Sphere::new(100 * SCALE, Vector3::new(0, -100_500_000_000, -SCALE), material_ground),
    );
    world.push(Sphere::new(500_000_000, Vector3::new(0, 0, -SCALE), material_center));
    world.push(Sphere::new(500_000_000, Vector3::new(-SCALE, 0, -SCALE), material_left));
    world.push(Sphere::new(500_000_000, Vector3::new(SCALE, 0, -SCALE), material_right));
    (camera, world)
}


/// The diagnostic test pattern: pixel `(i, j)` of a `width` by `height`
/// image gets the linear colour `(i / width - 1, j / height - 1, 0)`.
pub fn test_pattern_colour(i: usize, j: usize, width: usize, height: usize) -> (c: Colour)
    requires
        1 <= width <= 1_000_000,
        1 <= height <= 1_000_000,
        i <= width,
        j <= height,
    ensures
        c@ == (SpecVec {
            x: sdiv(i as int * SCALE, width as int * SCALE) - SCALE,
            y: sdiv(j as int * SCALE, height as int * SCALE) - SCALE,
            z: 0,
        }),
{
    let i_f: i128 = (i as i128) * SCALE;
    let j_f: i128 = (j as i128) * SCALE;
    let w_f: i128 = (width as i128) * SCALE;
    let h_f: i128 = (height as i128) * SCALE;
    let qx: i128 = fdiv(i_f, w_f);
    let qy: i128 = fdiv(j_f, h_f);
    proof {
        lemma_tdiv_quot_bound(qx as int, (i_f * SCALE) as int, w_f as int,
            1_000_000_000_000_000_000_000_000, 1_000_000_000, 1_000_000_000_000_000);
        lemma_tdiv_quot_bound(qy as int, (j_f * SCALE) as int, h_f as int,
            1_000_000_000_000_000_000_000_000, 1_000_000_000, 1_000_000_000_000_000);
    }
    Vector3::new(qx - SCALE, qy - SCALE, 0)
}

} // verus!
