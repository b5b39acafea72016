use vstd::prelude::*;

use crate::colour::{colour_to_pixel, Colour, Pixel, CHANNEL_SUM_MAX};
use crate::fixed::{
    abs_i, fdiv, fmul, lemma_tdiv_mul_exact, lemma_tdiv_zero, sdiv, smul, tdiv, SCALE,
};
use crate::hittable::{spec_world_hit, world_wf, World};
use crate::interval::{Interval, INFINITY};
use crate::material::lemma_tdiv_quot_bound;
use crate::random::RandomSource;
use crate::ray::{Ray, SpecRay};
use crate::vector::{
    lemma_pair_fit, lemma_tdiv_le, lemma_tdiv_nonneg, lemma_unit_bounded, sv_add, sv_bounded,
    sv_div, sv_in_range, sv_scale, sv_sub, sv_unit, SpecVec, Vector3,
};

verus! {

/// The self-intersection epsilon: hits closer than this (0.001) are
/// ignored so a scattered ray does not immediately re-hit its surface.
pub const RAY_EPS: i128 = 1_000_000;

/// Half of one unit, the pixel-jitter amplitude.
pub const HALF_UNIT: i128 = 500_000_000;

/// No shaded colour channel leaves this band (ten units).
pub const COLOUR_MAX: i128 = 10_000_000_000;

/// The derived viewport geometry and sampling parameters of a camera.
#[derive(Debug, Clone, Copy, PartialEq, Eq, Structural)]
pub struct Config {
    pub aspect_ratio: i128,
    pub image_width: usize,
    pub image_height: usize,
    pub viewport_width: i128,
    pub viewport_height: i128,
    pub focal_length: i128,
    pub first_pixel: Vector3,
    pub pixel_dx: Vector3,
    pub pixel_dy: Vector3,
    pub samples_per_pixel: usize,
}

/// A virtual pinhole camera at the origin, looking along `-z`.
#[derive(Debug, Clone, Copy, PartialEq, Eq, Structural)]
pub struct Camera {
    pub center: Vector3,
    pub config: Config,
}

/// The image height derived from a width and an aspect ratio, at least
/// one row.
pub open spec fn cam_height(w: int, aspect: int) -> int {
    let hf = sdiv(w * SCALE, aspect);
    if hf < SCALE {
        1
    } else {
        tdiv(hf, SCALE as int)
    }
}

/// The width-over-height ratio actually used, from the integral sizes.
pub open spec fn cam_ratio(w: int, aspect: int) -> int {
    sdiv(w * SCALE, cam_height(w, aspect) * SCALE)
}

/// The viewport width: the fixed viewport height of two, widened by the
/// integral aspect ratio.
pub open spec fn cam_viewport_width(w: int, aspect: int) -> int {
    smul(2 * SCALE, cam_ratio(w, aspect))
}

/// The per-pixel horizontal step.
pub open spec fn cam_dx(w: int, aspect: int) -> SpecVec {
    sv_div(SpecVec { x: cam_viewport_width(w, aspect), y: 0, z: 0 }, w * SCALE)
}

/// The per-pixel vertical step (downward).
pub open spec fn cam_dy(w: int, aspect: int) -> SpecVec {
    sv_div(SpecVec { x: 0, y: -2 * SCALE, z: 0 }, cam_height(w, aspect) * SCALE)
}

/// The world position of the centre of pixel `(0, 0)`: the viewport's
/// upper-left corner, offset by half a pixel step in each axis.
pub open spec fn cam_first_pixel(w: int, aspect: int) -> SpecVec {
    let vw = cam_viewport_width(w, aspect);
    let ul = sv_sub(
        sv_sub(
            sv_sub(SpecVec { x: 0, y: 0, z: 0 }, SpecVec { x: 0, y: 0, z: SCALE as int }),
            sv_div(SpecVec { x: vw, y: 0, z: 0 }, 2 * SCALE),
        ),
        sv_div(SpecVec { x: 0, y: -2 * SCALE, z: 0 }, 2 * SCALE),
    );
    sv_add(ul, sv_scale(sv_add(cam_dx(w, aspect), cam_dy(w, aspect)), HALF_UNIT as int))
}

/// The invariant every constructed camera satisfies: the bounds that
/// keep all generated primary rays inside the representable range.
pub open spec fn camera_wf(c: Camera) -> bool {
    &&& c.center@ == (SpecVec { x: 0, y: 0, z: 0 })
    &&& 1 <= c.config.image_width <= 1000
    &&& 1 <= c.config.image_height <= 10_000
    &&& 1 <= c.config.samples_per_pixel <= 1_000_000
    &&& sv_bounded(c.config.first_pixel@, 4_000_000_000_000)
    &&& sv_bounded(c.config.pixel_dx@, 2_000_000_000_000)
    &&& sv_bounded(c.config.pixel_dy@, 2_000_000_000_000)
    &&& abs_i(c.config.pixel_dx@.x) * c.config.image_width <= 2_000_000_000_000
    &&& abs_i(c.config.pixel_dx@.y) * c.config.image_width <= 2_000_000_000_000
    &&& abs_i(c.config.pixel_dx@.z) * c.config.image_width <= 2_000_000_000_000
    &&& abs_i(c.config.pixel_dy@.x) * c.config.image_height <= 2_000_000_000_000
    &&& abs_i(c.config.pixel_dy@.y) * c.config.image_height <= 2_000_000_000_000
    &&& abs_i(c.config.pixel_dy@.z) * c.config.image_height <= 2_000_000_000_000
}

/// The centre of pixel `(i, j)` in world space.
pub open spec fn cam_pixel_center(c: Camera, i: int, j: int) -> SpecVec {
    sv_add(
        sv_add(c.config.first_pixel@, sv_scale(c.config.pixel_dx@, i * SCALE)),
        sv_scale(c.config.pixel_dy@, j * SCALE),
    )
}

/// The background gradient: white blended toward sky blue by the
/// unit direction's height.
pub open spec fn spec_background(r: SpecRay) -> SpecVec {
    let u = sv_unit(r.direction);
    let a = smul(HALF_UNIT as int, u.y + SCALE);
    sv_add(
        sv_scale(SpecVec { x: SCALE as int, y: SCALE as int, z: SCALE as int }, SCALE - a),
        sv_scale(SpecVec { x: HALF_UNIT as int, y: 700_000_000, z: SCALE as int }, a),
    )
}

impl Camera {
    /// Derive the viewport geometry from an image width and an aspect
    /// ratio. A zero width is a programmer error and is excluded; the
    /// width and ratio bands are the fixed-point range limits.
    #[verifier::rlimit(60)]
    #[verifier::spinoff_prover]
    pub fn new(image_width: usize, aspect_ratio: i128) -> (r: Self)
        requires
            1 <= image_width <= 1000,
            100_000_000 <= aspect_ratio <= 100_000_000_000,
        ensures
            camera_wf(r),
            r.center@ == (SpecVec { x: 0, y: 0, z: 0 }),
            r.config.image_width == image_width,
            r.config.aspect_ratio == aspect_ratio,
            r.config.image_height as int == cam_height(image_width as int, aspect_ratio as int),
            r.config.viewport_height == 2 * SCALE,
            r.config.focal_length == SCALE,
            r.config.samples_per_pixel == 100,
            r.config.viewport_width as int == cam_viewport_width(
                image_width as int,
                aspect_ratio as int,
            ),
            r.config.pixel_dx@ == cam_dx(image_width as int, aspect_ratio as int),
            r.config.pixel_dy@ == cam_dy(image_width as int, aspect_ratio as int),
            r.config.first_pixel@ == cam_first_pixel(image_width as int, aspect_ratio as int),
    {
        let ghost wi: int = image_width as int;
        let ghost ai: int = aspect_ratio as int;
        let focal_length: i128 = SCALE;
        let samples_per_pixel: usize = 100;
        let viewport_height: i128 = 2 * SCALE;
        let wf: i128 = (image_width as i128) * SCALE;
        assert(1_000_000_000 <= wf <= 1_000_000_000_000);
        proof {
            lemma_pair_fit(wf as int, SCALE as int, 1_000_000_000_000, 1_000_000_000,
                1_000_000_000_000);
        }
        let hf: i128 = fdiv(wf, aspect_ratio);
        proof {
            lemma_tdiv_nonneg((wf * SCALE) as int, aspect_ratio as int);
            lemma_tdiv_quot_bound(hf as int, (wf * SCALE) as int, aspect_ratio as int,
                1_000_000_000_000_000_000_000, 100_000_000, 10_000_000_000_000);
        }
        let image_height: usize = if hf < SCALE {
            1
        } else {
            let q: i128 = crate::fixed::div_trunc(hf, SCALE);
            proof {
                lemma_tdiv_quot_bound(q as int, hf as int, SCALE as int, 10_000_000_000_000,
                    1_000_000_000, 10_000);
                lemma_tdiv_nonneg(hf as int, SCALE as int);
            }
            q as usize
        };
        assert(1 <= image_height <= 10_000);
        assert(image_height as int == cam_height(wi, ai));
        let center: Vector3 = Vector3::new(0, 0, 0);
        let hi: i128 = (image_height as i128) * SCALE;
        assert(1_000_000_000 <= hi <= 10_000_000_000_000);
        proof {
            lemma_pair_fit(wf as int, SCALE as int, 1_000_000_000_000, 1_000_000_000,
                1_000_000_000_000);
        }
        let ratio: i128 = fdiv(wf, hi);
        proof {
            lemma_tdiv_quot_bound(ratio as int, (wf * SCALE) as int, hi as int,
                1_000_000_000_000_000_000_000, 1_000_000_000, 1_000_000_000_000);
            lemma_pair_fit(2 * SCALE as int, ratio as int, 2_000_000_000, 1_000_000_000_000,
                2_000_000_000_000);
        }
        let viewport_width: i128 = fmul(2 * SCALE, ratio);
        assert(viewport_width as int == cam_viewport_width(wi, ai));
        assert(abs_i(viewport_width as int) <= 2_000_000_000_000);
        let viewport_x: Vector3 = Vector3::new(viewport_width, 0, 0);
        let viewport_y: Vector3 = Vector3::new(0, -viewport_height, 0);
        proof {
            lemma_pair_fit(viewport_width as int, SCALE as int, 2_000_000_000_000, 1_000_000_000,
                2_000_000_000_000);
            lemma_tdiv_zero(wf as int);
            lemma_tdiv_zero(hi as int);
            lemma_tdiv_zero(2 * SCALE as int);
        }
        let pixel_dx: Vector3 = viewport_x.div(wf);
        let pixel_dy: Vector3 = viewport_y.div(hi);
        proof {
            lemma_tdiv_le((viewport_width * SCALE) as int, wf as int,
                abs_i((viewport_width * SCALE) as int));
            assert(abs_i(pixel_dx@.x) * image_width <= 2_000_000_000_000
                && abs_i(pixel_dx@.x) <= 2_000_000_000_000) by (nonlinear_arith)
                requires
                    abs_i(pixel_dx@.x) * wf <= abs_i((viewport_width * SCALE) as int),
                    abs_i((viewport_width * SCALE) as int) == abs_i(viewport_width as int) * SCALE,
                    abs_i(viewport_width as int) <= 2_000_000_000_000,
                    wf == image_width * SCALE,
                    1 <= image_width <= 1000,
                    SCALE == 1_000_000_000i128,
            {}
            lemma_pair_fit(viewport_width as int, SCALE as int, 2_000_000_000_000, 1_000_000_000,
                2_000_000_000_000);
            lemma_tdiv_le((-viewport_height * SCALE) as int, hi as int,
                abs_i((-viewport_height * SCALE) as int));
            assert(abs_i(pixel_dy@.y) * image_height <= 2_000_000_000_000
                && abs_i(pixel_dy@.y) <= 2_000_000_000_000) by (nonlinear_arith)
                requires
                    abs_i(pixel_dy@.y) * hi <= abs_i((-viewport_height * SCALE) as int),
                    abs_i((-viewport_height * SCALE) as int) == 2_000_000_000 * SCALE,
                    hi == image_height * SCALE,
                    1 <= image_height <= 10_000,
                    SCALE == 1_000_000_000i128,
            {}
        }
        proof {
            lemma_tdiv_quot_bound(sdiv(viewport_width as int, 2 * SCALE as int),
                (viewport_width * SCALE) as int, 2 * SCALE as int, 2_000_000_000_000_000_000_000,
                2_000_000_000, 1_000_000_000_000);
        }
        let half_vx: Vector3 = viewport_x.div(2 * SCALE);
        let half_vy: Vector3 = viewport_y.div(2 * SCALE);
        let viewport_upper_left: Vector3 = center.sub(Vector3::new(0, 0, focal_length)).sub(
            half_vx,
        ).sub(half_vy);
        let step: Vector3 = pixel_dx.add(pixel_dy);
        proof {
            lemma_pair_fit(step@.x, HALF_UNIT as int, 4_000_000_000_000, 500_000_000,
                2_000_000_000_000);
            lemma_pair_fit(step@.y, HALF_UNIT as int, 4_000_000_000_000, 500_000_000,
                2_000_000_000_000);
            lemma_pair_fit(step@.z, HALF_UNIT as int, 4_000_000_000_000, 500_000_000,
                2_000_000_000_000);
        }
        let first_pixel: Vector3 = viewport_upper_left.add(step.scale(HALF_UNIT));
        let config: Config = Config {
            aspect_ratio,
            image_width,
            image_height,
            viewport_width,
            viewport_height,
            focal_length,
            first_pixel,
            pixel_dx,
            pixel_dy,
            samples_per_pixel,
        };
        Self { center, config }
    }

    /// A primary ray through pixel `(i, j)`, jittered inside the pixel
    /// square for antialiasing.
    pub fn get_ray(&self, rng: &mut RandomSource, i: usize, j: usize) -> (r: Ray)
        requires
            camera_wf(*self),
            i < self.config.image_width,
            j < self.config.image_height,
        ensures
            r@.position == self.center@,
            sv_in_range(r@.direction),
            exists|px: int, py: int|
                -HALF_UNIT <= px < HALF_UNIT && -HALF_UNIT <= py < HALF_UNIT && r@.direction
                    == sv_sub(
                    sv_add(
                        cam_pixel_center(*self, i as int, j as int),
                        sv_add(
                            sv_scale(self.config.pixel_dx@, px),
                            sv_scale(self.config.pixel_dy@, py),
                        ),
                    ),
                    self.center@,
                ),
    {
        let dx: Vector3 = self.config.pixel_dx;
        let dy: Vector3 = self.config.pixel_dy;
        let i_f: i128 = (i as i128) * SCALE;
        let j_f: i128 = (j as i128) * SCALE;
        proof {
            lemma_pair_fit(dx@.x, i_f as int, 2_000_000_000_000, 1_000_000_000_000,
                2_000_000_000_000_000);
            lemma_pair_fit(dx@.y, i_f as int, 2_000_000_000_000, 1_000_000_000_000,
                2_000_000_000_000_000);
            lemma_pair_fit(dx@.z, i_f as int, 2_000_000_000_000, 1_000_000_000_000,
                2_000_000_000_000_000);
            assert(dx@.x * (i_f as int) == (i as int * dx@.x) * SCALE
                && dx@.y * (i_f as int) == (i as int * dx@.y) * SCALE
                && dx@.z * (i_f as int) == (i as int * dx@.z) * SCALE) by (nonlinear_arith)
                requires
                    i_f == i as int * SCALE,
            {}
            lemma_tdiv_mul_exact(i as int * dx@.x, SCALE as int);
            lemma_tdiv_mul_exact(i as int * dx@.y, SCALE as int);
            lemma_tdiv_mul_exact(i as int * dx@.z, SCALE as int);
            lemma_step_exact(dx@.x, i as int, self.config.image_width as int);
            lemma_step_exact(dx@.y, i as int, self.config.image_width as int);
            lemma_step_exact(dx@.z, i as int, self.config.image_width as int);
        }
        let idx: Vector3 = dx.scale(i_f);
        assert(sv_bounded(idx@, 2_000_000_000_000));
        proof {
            lemma_pair_fit(dy@.x, j_f as int, 2_000_000_000_000, 10_000_000_000_000,
                20_000_000_000_000_000);
            lemma_pair_fit(dy@.y, j_f as int, 2_000_000_000_000, 10_000_000_000_000,
                20_000_000_000_000_000);
            lemma_pair_fit(dy@.z, j_f as int, 2_000_000_000_000, 10_000_000_000_000,
                20_000_000_000_000_000);
            assert(dy@.x * (j_f as int) == (j as int * dy@.x) * SCALE
                && dy@.y * (j_f as int) == (j as int * dy@.y) * SCALE
                && dy@.z * (j_f as int) == (j as int * dy@.z) * SCALE) by (nonlinear_arith)
                requires
                    j_f == j as int * SCALE,
            {}
            lemma_tdiv_mul_exact(j as int * dy@.x, SCALE as int);
            lemma_tdiv_mul_exact(j as int * dy@.y, SCALE as int);
            lemma_tdiv_mul_exact(j as int * dy@.z, SCALE as int);
            lemma_step_exact(dy@.x, j as int, self.config.image_height as int);
            lemma_step_exact(dy@.y, j as int, self.config.image_height as int);
            lemma_step_exact(dy@.z, j as int, self.config.image_height as int);
        }
        let jdy: Vector3 = dy.scale(j_f);
        assert(sv_bounded(jdy@, 2_000_000_000_000));
        let pixel_center: Vector3 = self.config.first_pixel.add(idx).add(jdy);
        assert(sv_bounded(pixel_center@, 8_000_000_000_000));
        let jitter: Vector3 = self.pixel_sample_square(rng);
        let pixel_sample: Vector3 = pixel_center.add(jitter);
        let ray_origin: Vector3 = self.center;
        let ray_direction: Vector3 = pixel_sample.sub(ray_origin);
        Ray::new(ray_origin, ray_direction)
    }

    /// A random offset inside the pixel square: `px * dx + py * dy` with
    /// both factors drawn uniformly from `[-0.5, 0.5)`.
    pub fn pixel_sample_square(&self, rng: &mut RandomSource) -> (r: Vector3)
        requires
            camera_wf(*self),
        ensures
            sv_bounded(r@, 2_000_000_000_000),
            exists|px: int, py: int|
                -HALF_UNIT <= px < HALF_UNIT && -HALF_UNIT <= py < HALF_UNIT && r@ == sv_add(
                    sv_scale(self.config.pixel_dx@, px),
                    sv_scale(self.config.pixel_dy@, py),
                ),
    {
        let px: i128 = -HALF_UNIT + rng.next_in(0, SCALE);
        let py: i128 = -HALF_UNIT + rng.next_in(0, SCALE);
        let dx: Vector3 = self.config.pixel_dx;
        let dy: Vector3 = self.config.pixel_dy;
        proof {
            lemma_pair_fit(dx@.x, px as int, 2_000_000_000_000, 500_000_000, 1_000_000_000_000);
            lemma_pair_fit(dx@.y, px as int, 2_000_000_000_000, 500_000_000, 1_000_000_000_000);
            lemma_pair_fit(dx@.z, px as int, 2_000_000_000_000, 500_000_000, 1_000_000_000_000);
            lemma_pair_fit(dy@.x, py as int, 2_000_000_000_000, 500_000_000, 1_000_000_000_000);
            lemma_pair_fit(dy@.y, py as int, 2_000_000_000_000, 500_000_000, 1_000_000_000_000);
            lemma_pair_fit(dy@.z, py as int, 2_000_000_000_000, 500_000_000, 1_000_000_000_000);
        }
        let vx: Vector3 = dx.scale(px);
        let vy: Vector3 = dy.scale(py);
        let r: Vector3 = vx.add(vy);
        proof {
            let pxw: int = px as int;
            let pyw: int = py as int;
            assert(-HALF_UNIT <= pxw < HALF_UNIT && -HALF_UNIT <= pyw < HALF_UNIT && r@ == sv_add(
                sv_scale(self.config.pixel_dx@, pxw),
                sv_scale(self.config.pixel_dy@, pyw),
            ));
        }
        r
    }
}

/// A per-pixel step taken at most the full image span stays inside the
/// viewport bound.
proof fn lemma_step_exact(d: int, k: int, n: int)
    by (nonlinear_arith)
    requires
        0 <= k < n,
        abs_i(d) * n <= 2_000_000_000_000,
    ensures
        abs_i(k * d) <= 2_000_000_000_000,
{
}


impl Camera {
    /// The recursive radiance function. At depth zero the energy budget
    /// is exhausted and the result is black; a ray that hits nothing
    /// yields the background gradient; a hit defers to the material,
    /// whose attenuation tints the recursive radiance of the scattered
    /// ray, and absorption yields black.
    pub fn ray_colour(
        &self,
        rng: &mut RandomSource,
        r: &Ray,
        world: &World,
        depth: usize,
    ) -> (c: Colour)
        requires
            world_wf(*world),
            sv_in_range(r@.position),
            sv_in_range(r@.direction),
        ensures
            sv_bounded(c@, COLOUR_MAX as int),
            depth == 0 ==> c@ == (SpecVec { x: 0, y: 0, z: 0 }),
            depth > 0 && spec_world_hit(
                world.objects@,
                r@,
                RAY_EPS as int,
                INFINITY as int,
            ) is None ==> c@ == spec_background(r@),
        decreases depth,
    {
        if depth == 0 {
            return Vector3::new(0, 0, 0);
        }
        let itv: Interval = Interval::new(RAY_EPS, INFINITY);
        match world.hit(r, itv) {
            Some(rec) => {
                match rec.material {
                    Some(m) => {
                        match m.scatter(rng, r, &rec) {
                            Some((att, sc)) => {
                                let c0: Colour = self.ray_colour(rng, &sc, world, depth - 1);
                                proof {
                                    lemma_pair_fit(att@.x, c0@.x, 1_000_000_000,
                                        10_000_000_000, 10_000_000_000);
                                    lemma_pair_fit(att@.y, c0@.y, 1_000_000_000,
                                        10_000_000_000, 10_000_000_000);
                                    lemma_pair_fit(att@.z, c0@.z, 1_000_000_000,
                                        10_000_000_000, 10_000_000_000);
                                }
                                att.mul(c0)
                            },
                            None => Vector3::new(0, 0, 0),
                        }
                    },
                    None => Vector3::new(0, 0, 0),
                }
            },
            None => {
                proof {
                    lemma_unit_bounded(r@.direction);
                }
                let u: Vector3 = r.direction().into_unit();
                proof {
                    lemma_pair_fit(HALF_UNIT as int, u@.y + SCALE, 500_000_000, 4_000_000_000,
                        2_000_000_000);
                }
                let a: i128 = fmul(HALF_UNIT, u.y + SCALE);
                let white: Vector3 = Vector3::new(SCALE, SCALE, SCALE);
                let sky: Vector3 = Vector3::new(HALF_UNIT, 700_000_000, SCALE);
                proof {
                    lemma_pair_fit(SCALE as int, SCALE - a as int, 1_000_000_000, 3_000_000_000,
                        3_000_000_000);
                    lemma_pair_fit(HALF_UNIT as int, a as int, 500_000_000, 2_000_000_000,
                        1_000_000_000);
                    lemma_pair_fit(700_000_000, a as int, 700_000_000, 2_000_000_000,
                        1_400_000_000);
                    lemma_pair_fit(SCALE as int, a as int, 1_000_000_000, 2_000_000_000,
                        2_000_000_000);
                }
                let c: Vector3 = white.scale(SCALE - a).add(sky.scale(a));
                assert(c@ == spec_background(r@));
                c
            },
        }
    }

    /// The linear colour of pixel `(i, j)`: the sum of the radiance of
    /// `samples_per_pixel` independently jittered primary rays (the
    /// averaging happens during quantization).
    pub fn render_pixel(
        &self,
        rng: &mut RandomSource,
        world: &World,
        i: usize,
        j: usize,
        max_depth: usize,
    ) -> (c: Colour)
        requires
            camera_wf(*self),
            world_wf(*world),
            i < self.config.image_width,
            j < self.config.image_height,
        ensures
            sv_bounded(c@, CHANNEL_SUM_MAX as int),
    {
        let samples: usize = self.config.samples_per_pixel;
        let mut sum: Colour = Vector3::new(0, 0, 0);
        let mut s: usize = 0;
        while s < samples
            invariant
                0 <= s <= samples,
                samples <= 1_000_000,
                camera_wf(*self),
                world_wf(*world),
                i < self.config.image_width,
                j < self.config.image_height,
                sv_bounded(sum@, (s as int) * COLOUR_MAX),
            decreases samples - s,
        {
            let ray: Ray = self.get_ray(rng, i, j);
            let c1: Colour = self.ray_colour(rng, &ray, world, max_depth);
            proof {
                assert(abs_i(sum@.x + c1@.x) <= ((s + 1) as int) * COLOUR_MAX
                    && abs_i(sum@.y + c1@.y) <= ((s + 1) as int) * COLOUR_MAX
                    && abs_i(sum@.z + c1@.z) <= ((s + 1) as int) * COLOUR_MAX) by (nonlinear_arith)
                    requires
                        sv_bounded(sum@, (s as int) * COLOUR_MAX),
                        sv_bounded(c1@, COLOUR_MAX as int),
                        COLOUR_MAX == 10_000_000_000i128,
                        0 <= s,
                {}
                assert(((s + 1) as int) * COLOUR_MAX <= i128::MAX) by (nonlinear_arith)
                    requires
                        s < 1_000_000,
                        COLOUR_MAX == 10_000_000_000i128,
                {}
            }
            sum = sum.add(c1);
            s = s + 1;
        }
        proof {
            assert((s as int) * COLOUR_MAX <= CHANNEL_SUM_MAX) by (nonlinear_arith)
                requires
                    s <= 1_000_000,
                    COLOUR_MAX == 10_000_000_000i128,
                    CHANNEL_SUM_MAX == 10_000_000_000_000_000i128,
            {}
        }
        sum
    }

    /// Produce the full pixel stream, row-major, top to bottom: each
    /// pixel's summed linear colour, gamma-corrected and quantized.
    pub fn render(&self, rng: &mut RandomSource, world: &World, max_depth: usize)
        -> (pixels: Vec<Pixel>)
        requires
            camera_wf(*self),
            world_wf(*world),
        ensures
            pixels@.len() == (self.config.image_height as int) * (self.config.image_width as int),
    {
        let w: usize = self.config.image_width;
        let h: usize = self.config.image_height;
        let mut pixels: Vec<Pixel> = Vec::new();
        let mut j: usize = 0;
        while j < h
            invariant
                0 <= j <= h,
                w == self.config.image_width,
                h == self.config.image_height,
                camera_wf(*self),
                world_wf(*world),
                pixels@.len() == (j as int) * (w as int),
            decreases h - j,
        {
            let mut i: usize = 0;
            while i < w
                invariant
                    0 <= i <= w,
                    0 <= j < h,
                    w == self.config.image_width,
                    h == self.config.image_height,
                    camera_wf(*self),
                    world_wf(*world),
                    pixels@.len() == (j as int) * (w as int) + (i as int),
                decreases w - i,
            {
                proof {
                    assert((j as int) * (w as int) + (i as int) < 10_000_000) by (nonlinear_arith)
                        requires
                            0 <= j < h <= 10_000,
                            0 <= i < w <= 1000,
                    {}
                }
                let sum: Colour = self.render_pixel(rng, world, i, j, max_depth);
                let p: Pixel = colour_to_pixel(&sum, self.config.samples_per_pixel);
                pixels.push(p);
                i = i + 1;
            }
            proof {
                assert(((j + 1) as int) * (w as int) == (j as int) * (w as int) + (w as int))
                    by (nonlinear_arith);
            }
            j = j + 1;
        }
        pixels
    }
}

} // verus!
