use vstd::prelude::*;

use crate::fixed::{abs_i, fdiv, fmul, fsqrt, lemma_smul_zero, lemma_ssqrt_bounds, sdiv, smul, ssqrt, tdiv, SCALE};
use crate::hittable::{HitRecord, SpecHit, NORMAL_MAX};
use crate::random::RandomSource;
use crate::ray::{Ray, SpecRay};
use crate::vector::{
    dot, is_unit_sample, lemma_pair_fit, lemma_unit_bounded, near_zero, reflect, refract,
    sv_add, sv_bounded, sv_dot, sv_in_range, sv_near_zero, sv_neg, sv_reflect, sv_refract,
    sv_refract_cos, sv_scale, sv_unit, SpecVec, Vector3,
};

verus! {

/// A colour channel is valid when it lies in `[0, 1]`; attenuations obey
/// this so recursive shading stays bounded.
pub open spec fn colour_wf(c: SpecVec) -> bool {
    0 <= c.x <= SCALE && 0 <= c.y <= SCALE && 0 <= c.z <= SCALE
}

/// Diffuse surface: scatters around the normal, tinted by its albedo.
#[derive(Debug, Clone, Copy, PartialEq, Eq, Structural)]
pub struct Lambertian {
    pub albedo: Vector3,
}

/// Specular surface: reflects, blurred by a fuzz radius in `[0, 1]`.
#[derive(Debug, Clone, Copy, PartialEq, Eq, Structural)]
pub struct Metal {
    pub albedo: Vector3,
    pub fuzz_radius: i128,
}

/// Transparent refractive surface with an index of refraction.
#[derive(Debug, Clone, Copy, PartialEq, Eq, Structural)]
pub struct Dielectric {
    pub refraction_index: i128,
}

/// The closed set of scattering behaviours a surface can have.
#[derive(Debug, Clone, Copy, PartialEq, Eq, Structural)]
pub enum Material {
    Lambertian(Lambertian),
    Metal(Metal),
    Dielectric(Dielectric),
}

/// Validity of a material's parameters. The dielectric index is kept in
/// `[0.1, 10]`: outside that band the fixed-point Snell arithmetic would
/// overflow its intermediate range.
pub open spec fn mat_wf(m: Material) -> bool {
    match m {
        Material::Lambertian(l) => colour_wf(l.albedo@),
        Material::Metal(mt) => colour_wf(mt.albedo@) && 0 <= mt.fuzz_radius <= SCALE,
        Material::Dielectric(d) => 100_000_000 <= d.refraction_index <= 10_000_000_000,
    }
}

impl Lambertian {
    pub fn new(albedo: Vector3) -> (r: Self)
        requires
            colour_wf(albedo@),
        ensures
            r.albedo == albedo,
            mat_wf(Material::Lambertian(r)),
    {
        Self { albedo }
    }
}

impl Metal {
    pub fn new(albedo: Vector3, fuzz_radius: i128) -> (r: Self)
        requires
            colour_wf(albedo@),
            0 <= fuzz_radius <= SCALE,
        ensures
            r.albedo == albedo,
            r.fuzz_radius == fuzz_radius,
            mat_wf(Material::Metal(r)),
    {
        Self { albedo, fuzz_radius }
    }
}

impl Dielectric {
    pub fn new(refraction_index: i128) -> (r: Self)
        requires
            100_000_000 <= refraction_index <= 10_000_000_000,
        ensures
            r.refraction_index == refraction_index,
            mat_wf(Material::Dielectric(r)),
    {
        Self { refraction_index }
    }
}


/// The direction a Lambertian surface scatters along: the normal plus a
/// unit sample, or the bare normal when that sum is degenerate.
pub open spec fn lam_dir(n: SpecVec, u: SpecVec) -> SpecVec {
    if sv_near_zero(sv_add(n, u)) {
        n
    } else {
        sv_add(n, u)
    }
}

/// The refraction ratio a dielectric uses: `1 / ior` entering the medium
/// (front face), `ior` leaving it.
pub open spec fn diel_ratio(d: Dielectric, front: bool) -> int {
    if front {
        sdiv(SCALE as int, d.refraction_index as int)
    } else {
        d.refraction_index as int
    }
}

/// `sin(theta) = sqrt(1 - cos^2)`, its argument clamped at zero against
/// fixed-point round-off.
pub open spec fn diel_sin(cos: int) -> int {
    let k = SCALE - smul(cos, cos);
    ssqrt(if k < 0 { 0 } else { k })
}

/// Snell's law has no solution: the ray must reflect.
pub open spec fn diel_tir(ratio: int, sin: int) -> bool {
    smul(ratio, sin) > SCALE
}

/// Schlick's polynomial approximation of the Fresnel reflectance.
pub open spec fn schlick_reflectance(cos: int, ratio: int) -> int {
    let r0 = sdiv(SCALE - ratio, SCALE + ratio);
    let r0s = smul(r0, r0);
    let p = SCALE - cos;
    let p5 = smul(smul(smul(p, p), smul(p, p)), p);
    r0s + smul(SCALE - r0s, p5)
}

/// What every scatter result satisfies, whatever the material: the
/// attenuation is a valid colour and the scattered ray starts at the hit
/// position with an in-range direction.
pub open spec fn scatter_basic(rec: SpecHit, res: Option<(Vector3, Ray)>) -> bool {
    match res {
        Some((att, sc)) => colour_wf(att@) && sc@.position == rec.position
            && sv_bounded(sc@.direction, 3_000 * SCALE),
        None => true,
    }
}

impl Lambertian {
    /// Diffuse scatter: always succeeds; the direction is the normal
    /// plus a random unit vector, falling back to the normal itself when
    /// that sum is near zero.
    pub fn scatter(&self, rng: &mut RandomSource, _in_ray: &Ray, rec: &HitRecord)
        -> (res: Option<(Vector3, Ray)>)
        requires
            colour_wf(self.albedo@),
            sv_in_range(rec@.position),
            sv_bounded(rec@.normal, NORMAL_MAX as int),
        ensures
            scatter_basic(rec@, res),
            (match res {
                Some((att, sc)) => {
                    &&& att == self.albedo
                    &&& (exists|u: SpecVec|
                        is_unit_sample(u) && sc@.direction == lam_dir(rec@.normal, u))
                },
                None => false,
            }),
    {
        let u: Vector3 = Vector3::random_unit_vector(rng);
        let dir0: Vector3 = rec.normal.add(u);
        let direction: Vector3 = if near_zero(dir0) { rec.normal } else { dir0 };
        let sc: Ray = Ray::new(rec.position, direction);
        proof {
            let uw = u@;
            assert(is_unit_sample(uw) && sc@.direction == lam_dir(rec@.normal, uw));
        }
        Some((self.albedo, sc))
    }
}

impl Metal {
    /// Specular scatter: reflect the unit incoming direction, perturb by
    /// the fuzz radius, and absorb the ray when the perturbed direction
    /// would point into the surface. With a zero fuzz radius the result
    /// is exactly the mirror reflection.
    pub fn scatter(&self, rng: &mut RandomSource, in_ray: &Ray, rec: &HitRecord)
        -> (res: Option<(Vector3, Ray)>)
        requires
            colour_wf(self.albedo@),
            0 <= self.fuzz_radius <= SCALE,
            sv_in_range(rec@.position),
            sv_bounded(rec@.normal, NORMAL_MAX as int),
            sv_in_range(in_ray@.direction),
        ensures
            scatter_basic(rec@, res),
            (match res {
                Some((att, sc)) => {
                    &&& att == self.albedo
                    &&& sv_dot(sc@.direction, rec@.normal) > 0
                    &&& (exists|u: SpecVec|
                        is_unit_sample(u) && sc@.direction == sv_add(
                            sv_reflect(sv_unit(in_ray@.direction), rec@.normal),
                            sv_scale(u, self.fuzz_radius as int),
                        ))
                },
                None => true,
            }),
            self.fuzz_radius == 0 ==> {
                let refl = sv_reflect(sv_unit(in_ray@.direction), rec@.normal);
                &&& (res is Some <==> sv_dot(refl, rec@.normal) > 0)
                &&& (match res {
                    Some((att, sc)) => sc@.direction == refl,
                    None => true,
                })
            },
    {
        proof {
            lemma_unit_bounded(in_ray@.direction);
        }
        let unit_d: Vector3 = in_ray.direction().into_unit();
        let reflected: Vector3 = reflect(unit_d, rec.normal);
        let u: Vector3 = Vector3::random_unit_vector(rng);
        proof {
            lemma_pair_fit(u@.x, self.fuzz_radius as int, 3_000_000_000, 1_000_000_000, 3_000_000_000);
            lemma_pair_fit(u@.y, self.fuzz_radius as int, 3_000_000_000, 1_000_000_000, 3_000_000_000);
            lemma_pair_fit(u@.z, self.fuzz_radius as int, 3_000_000_000, 1_000_000_000, 3_000_000_000);
        }
        let fu: Vector3 = u.scale(self.fuzz_radius);
        let direction: Vector3 = reflected.add(fu);
        proof {
            lemma_pair_fit(direction@.x, rec@.normal.x, 103_000_000_000, 2_000_000_000, 206_000_000_000);
            lemma_pair_fit(direction@.y, rec@.normal.y, 103_000_000_000, 2_000_000_000, 206_000_000_000);
            lemma_pair_fit(direction@.z, rec@.normal.z, 103_000_000_000, 2_000_000_000, 206_000_000_000);
            if self.fuzz_radius == 0 {
                lemma_smul_zero(u@.x);
                lemma_smul_zero(u@.y);
                lemma_smul_zero(u@.z);
                assert(direction@ == reflected@);
            }
        }
        let d: i128 = dot(direction, rec.normal);
        let sc: Ray = Ray::new(rec.position, direction);
        if d > 0 {
            proof {
                let uw = u@;
                assert(is_unit_sample(uw) && sc@.direction == sv_add(
                    sv_reflect(sv_unit(in_ray@.direction), rec@.normal),
                    sv_scale(uw, self.fuzz_radius as int),
                ));
            }
            Some((self.albedo, sc))
        } else {
            None
        }
    }
}

impl Dielectric {
    /// Refractive scatter: always succeeds with white attenuation. Under
    /// total internal reflection the direction is exactly the mirror
    /// reflection of the unit incoming direction; otherwise Schlick's
    /// reflectance decides between reflection and refraction against a
    /// uniform draw.
    pub fn scatter(&self, rng: &mut RandomSource, in_ray: &Ray, rec: &HitRecord)
        -> (res: Option<(Vector3, Ray)>)
        requires
            100_000_000 <= self.refraction_index <= 10_000_000_000,
            sv_in_range(rec@.position),
            sv_bounded(rec@.normal, NORMAL_MAX as int),
            sv_in_range(in_ray@.direction),
        ensures
            scatter_basic(rec@, res),
            (match res {
                Some((att, sc)) => {
                    let ud = sv_unit(in_ray@.direction);
                    let ratio = diel_ratio(*self, rec@.front_face);
                    let cos = sv_refract_cos(ud, rec@.normal);
                    &&& att@ == (SpecVec { x: SCALE as int, y: SCALE as int, z: SCALE as int })
                    &&& (diel_tir(ratio, diel_sin(cos)) ==> sc@.direction == sv_reflect(
                        ud,
                        rec@.normal,
                    ))
                    &&& (sc@.direction == sv_reflect(ud, rec@.normal) || sc@.direction
                        == sv_refract(ud, rec@.normal, ratio))
                },
                None => false,
            }),
    {
        proof {
            lemma_unit_bounded(in_ray@.direction);
        }
        let unit_d: Vector3 = in_ray.direction().into_unit();
        let ratio: i128 = if rec.front_face {
            fdiv(SCALE, self.refraction_index)
        } else {
            self.refraction_index
        };
        proof {
            assert(0 < ratio <= 10_000_000_000) by (nonlinear_arith)
                requires
                    ratio == (if rec@.front_face {
                        tdiv(1_000_000_000_000_000_000, self.refraction_index as int)
                    } else {
                        self.refraction_index as int
                    }),
                    100_000_000 <= self.refraction_index <= 10_000_000_000,
            {}
            lemma_pair_fit(-unit_d@.x, rec@.normal.x, 3_000_000_000, 2_000_000_000, 6_000_000_000);
            lemma_pair_fit(-unit_d@.y, rec@.normal.y, 3_000_000_000, 2_000_000_000, 6_000_000_000);
            lemma_pair_fit(-unit_d@.z, rec@.normal.z, 3_000_000_000, 2_000_000_000, 6_000_000_000);
        }
        let d0: i128 = dot(unit_d.neg(), rec.normal);
        let cos: i128 = if d0 > SCALE { SCALE } else { d0 };
        assert(cos == sv_refract_cos(sv_unit(in_ray@.direction), rec@.normal));
        proof {
            lemma_pair_fit(cos as int, cos as int, 18_000_000_000, 18_000_000_000, 324_000_000_000);
            assert(smul(cos as int, cos as int) >= 0) by (nonlinear_arith)
                requires
                    SCALE == 1_000_000_000i128,
            {}
        }
        let cos2: i128 = fmul(cos, cos);
        let k: i128 = SCALE - cos2;
        let kc: i128 = if k < 0 { 0 } else { k };
        let sin: i128 = fsqrt(kc);
        proof {
            lemma_ssqrt_bounds(kc as int);
            assert(sin <= SCALE) by (nonlinear_arith)
                requires
                    sin >= 0,
                    (sin as int) * (sin as int) <= (kc as int) * SCALE,
                    kc <= SCALE,
                    SCALE == 1_000_000_000i128,
            {}
            lemma_pair_fit(ratio as int, sin as int, 10_000_000_000, 1_000_000_000, 10_000_000_000);
        }
        let no_solutions: bool = fmul(ratio, sin) > SCALE;
        assert(no_solutions == diel_tir(ratio as int, diel_sin(cos as int)));
        let reflectance: i128 = self.schlick(cos, ratio);
        let draw: i128 = rng.next_in(0, SCALE);
        let direction: Vector3 = if no_solutions || reflectance > draw {
            reflect(unit_d, rec.normal)
        } else {
            refract(unit_d, rec.normal, ratio)
        };
        let att: Vector3 = Vector3::new(SCALE, SCALE, SCALE);
        let sc: Ray = Ray::new(rec.position, direction);
        Some((att, sc))
    }

    /// Schlick's reflectance polynomial, exactly as specified.
    fn schlick(&self, cos: i128, ratio: i128) -> (r: i128)
        requires
            -18_000_000_000 <= cos <= SCALE,
            0 < ratio <= 10_000_000_000,
        ensures
            r == schlick_reflectance(cos as int, ratio as int),
    {
        proof {
            assert(abs_i((SCALE - ratio) as int * SCALE as int) <= i128::MAX
                && SCALE + ratio > 0) by (nonlinear_arith)
                requires
                    0 < ratio <= 10_000_000_000i128,
                    SCALE == 1_000_000_000i128,
            {}
        }
        let r0: i128 = fdiv(SCALE - ratio, SCALE + ratio);
        proof {
            lemma_tdiv_quot_bound(r0 as int, (SCALE - ratio) as int * SCALE as int,
                (SCALE + ratio) as int, 9_000_000_000_000_000_000, 1_000_000_000, 9_000_000_000);
            lemma_pair_fit(r0 as int, r0 as int, 9_000_000_000, 9_000_000_000, 81_000_000_000);
        }
        let r0s: i128 = fmul(r0, r0);
        let p: i128 = SCALE - cos;
        proof {
            lemma_pair_fit(p as int, p as int, 19_000_000_000, 19_000_000_000, 361_000_000_000);
        }
        let p2: i128 = fmul(p, p);
        proof {
            lemma_pair_fit(p2 as int, p2 as int, 361_000_000_000, 361_000_000_000,
                130_321_000_000_000);
        }
        let p4: i128 = fmul(p2, p2);
        proof {
            lemma_pair_fit(p4 as int, p as int, 130_321_000_000_000, 19_000_000_000,
                2_476_099_000_000_000);
        }
        let p5: i128 = fmul(p4, p);
        proof {
            lemma_pair_fit((SCALE - r0s) as int, p5 as int, 82_000_000_000,
                2_476_099_000_000_000, 203_040_118_000_000_000);
        }
        r0s + fmul(SCALE - r0s, p5)
    }
}

/// A bound on a truncating quotient from bounds on dividend and divisor.
pub proof fn lemma_tdiv_quot_bound(q: int, x: int, b: int, cx: int, cb: int, cq: int)
    by (nonlinear_arith)
    requires
        q == tdiv(x, b),
        abs_i(x) <= cx,
        b >= cb,
        cb > 0,
        cq > 0,
        cx <= cq * cb,
    ensures
        abs_i(q) <= cq,
{
}

impl Material {
    /// Dispatch scatter to the concrete material.
    pub fn scatter(&self, rng: &mut RandomSource, in_ray: &Ray, rec: &HitRecord)
        -> (res: Option<(Vector3, Ray)>)
        requires
            mat_wf(*self),
            sv_in_range(rec@.position),
            sv_bounded(rec@.normal, NORMAL_MAX as int),
            sv_in_range(in_ray@.direction),
        ensures
            scatter_basic(rec@, res),
            (match *self {
                Material::Lambertian(l) => (match res {
                    Some((att, sc)) => att == l.albedo,
                    None => false,
                }),
                Material::Metal(mt) => (match res {
                    Some((att, sc)) => att == mt.albedo && sv_dot(sc@.direction, rec@.normal)
                        > 0,
                    None => true,
                }),
                Material::Dielectric(d) => (match res {
                    Some((att, sc)) => {
                        let ud = sv_unit(in_ray@.direction);
                        let ratio = diel_ratio(d, rec@.front_face);
                        let cos = sv_refract_cos(ud, rec@.normal);
                        &&& att@ == (SpecVec { x: SCALE as int, y: SCALE as int, z: SCALE as int })
                        &&& (diel_tir(ratio, diel_sin(cos)) ==> sc@.direction == sv_reflect(
                            ud,
                            rec@.normal,
                        ))
                    },
                    None => false,
                }),
            }),
    {
        match self {
            Material::Lambertian(l) => l.scatter(rng, in_ray, rec),
            Material::Metal(mt) => mt.scatter(rng, in_ray, rec),
            Material::Dielectric(d) => d.scatter(rng, in_ray, rec),
        }
    }
}

} // verus!
