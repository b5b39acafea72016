use vstd::prelude::*;

use crate::fixed::{abs_i, fmul, fsqrt, fdiv, lemma_ssqrt_bounds, sdiv, smul, ssqrt, COORD_MAX, SCALE};
use crate::interval::Interval;
use crate::material::{mat_wf, Material};
use crate::ray::{sr_at, Ray, SpecRay};
use crate::vector::{
    dot, in_range_check, lemma_dot_neg, lemma_mul_le, lemma_scale_abs, lemma_smul_le,
    sv_bounded, sv_div, sv_dot, sv_in_range, sv_neg, sv_sub, SpecVec, Vector3,
};

verus! {

/// Largest hit parameter the intersection test reports (10^9 in real
/// terms): beyond it the hit position would leave the representable
/// coordinate range anyway.
pub const HIT_T_MAX: i128 = 1_000_000_000_000_000_000;

/// Bound on the components of a reported outward normal (two units; a
/// true outward normal has length one).
pub const NORMAL_MAX: i128 = 2_000_000_000;

/// The result of a successful intersection test.
#[derive(Debug, Clone, Copy)]
pub struct HitRecord {
    pub position: Vector3,
    pub normal: Vector3,
    pub t: i128,
    pub front_face: bool,
    pub material: Option<Material>,
}

/// The mathematical model of a `HitRecord`.
pub struct SpecHit {
    pub position: SpecVec,
    pub normal: SpecVec,
    pub t: int,
    pub front_face: bool,
    pub material: Option<Material>,
}

impl View for HitRecord {
    type V = SpecHit;

    open spec fn view(&self) -> SpecHit {
        SpecHit {
            position: self.position@,
            normal: self.normal@,
            t: self.t as int,
            front_face: self.front_face,
            material: self.material,
        }
    }
}

impl HitRecord {
    /// A fresh record; the face flag starts false and no material is
    /// attached yet.
    pub fn new(position: Vector3, normal: Vector3, t: i128) -> (r: Self)
        ensures
            r.position == position,
            r.normal == normal,
            r.t == t,
            r.front_face == false,
            r.material is None,
    {
        Self { position, normal, t, front_face: false, material: None }
    }

    /// Orient the stored normal against the incoming ray: it becomes the
    /// outward normal if that faces the ray, else its negation.
    pub fn set_face_normal(&mut self, r: &Ray, outward_normal: Vector3)
        requires
            abs_i(r@.direction.x * outward_normal@.x) <= i128::MAX,
            abs_i(r@.direction.y * outward_normal@.y) <= i128::MAX,
            abs_i(r@.direction.z * outward_normal@.z) <= i128::MAX,
            abs_i(smul(r@.direction.x, outward_normal@.x))
                + abs_i(smul(r@.direction.y, outward_normal@.y))
                + abs_i(smul(r@.direction.z, outward_normal@.z)) <= i128::MAX,
            outward_normal@.x > i128::MIN,
            outward_normal@.y > i128::MIN,
            outward_normal@.z > i128::MIN,
        ensures
            final(self).front_face == (sv_dot(r@.direction, outward_normal@) < 0),
            final(self).normal@ == (if sv_dot(r@.direction, outward_normal@) < 0 {
                outward_normal@
            } else {
                sv_neg(outward_normal@)
            }),
            final(self).position == old(self).position,
            final(self).t == old(self).t,
            final(self).material == old(self).material,
    {
        let d: i128 = dot(r.direction(), outward_normal);
        self.front_face = d < 0;
        self.normal = if self.front_face { outward_normal } else { outward_normal.neg() };
    }
}

/// One concrete geometry: a sphere with a radius, a centre and a shared,
/// read-only material.
#[derive(Debug, Clone, Copy)]
pub struct Sphere {
    pub radius: i128,
    pub center: Vector3,
    pub material: Material,
}

/// Validity of a sphere: positive in-range radius, in-range centre, a
/// well-formed material.
pub open spec fn sphere_wf(s: Sphere) -> bool {
    0 < s.radius <= COORD_MAX && sv_in_range(s.center@) && mat_wf(s.material)
}

impl Sphere {
    pub fn new(radius: i128, center: Vector3, material: Material) -> (r: Self)
        requires
            0 < radius <= COORD_MAX,
            sv_in_range(center@),
            mat_wf(material),
        ensures
            r.radius == radius,
            r.center == center,
            r.material == material,
            sphere_wf(r),
    {
        Self { radius, center, material }
    }

    /// `ray.origin - center`, the offset the quadratic is built from.
    pub open spec fn spec_oc(self, r: SpecRay) -> SpecVec {
        sv_sub(r.position, self.center@)
    }

    /// Quadratic coefficient `a = |direction|^2`.
    pub open spec fn spec_a(self, r: SpecRay) -> int {
        crate::vector::sv_len2(r.direction)
    }

    /// Half the linear coefficient, `dot(oc, direction)`.
    pub open spec fn spec_half_b(self, r: SpecRay) -> int {
        sv_dot(self.spec_oc(r), r.direction)
    }

    /// Constant coefficient `c = |oc|^2 - radius^2`.
    pub open spec fn spec_c(self, r: SpecRay) -> int {
        crate::vector::sv_len2(self.spec_oc(r)) - smul(self.radius as int, self.radius as int)
    }

    /// The discriminant `half_b^2 - a * c`; negative means no
    /// intersection.
    pub open spec fn spec_disc(self, r: SpecRay) -> int {
        smul(self.spec_half_b(r), self.spec_half_b(r)) - smul(self.spec_a(r), self.spec_c(r))
    }

    /// The smaller quadratic root `(-half_b - sqrt(disc)) / a`.
    pub open spec fn spec_root1(self, r: SpecRay) -> int {
        sdiv(-self.spec_half_b(r) - ssqrt(self.spec_disc(r)), self.spec_a(r))
    }

    /// The larger quadratic root `(-half_b + sqrt(disc)) / a`.
    pub open spec fn spec_root2(self, r: SpecRay) -> int {
        sdiv(-self.spec_half_b(r) + ssqrt(self.spec_disc(r)), self.spec_a(r))
    }

    /// The accepted hit parameter: the smaller root if it lies strictly
    /// inside `(tmin, tmax)`, else the larger root under the same test,
    /// else nothing. A ray whose direction squares to zero hits nothing.
    pub open spec fn spec_root(self, r: SpecRay, tmin: int, tmax: int) -> Option<int> {
        if self.spec_a(r) == 0 {
            None
        } else if self.spec_disc(r) < 0 {
            None
        } else if tmin < self.spec_root1(r) < tmax {
            Some(self.spec_root1(r))
        } else if tmin < self.spec_root2(r) < tmax {
            Some(self.spec_root2(r))
        } else {
            None
        }
    }

    /// The full intersection result. A hit whose parameter, position or
    /// outward normal leaves the representable range is dropped: the
    /// fixed-point range limit of the engine.
    pub open spec fn spec_hit(self, r: SpecRay, tmin: int, tmax: int) -> Option<SpecHit> {
        match self.spec_root(r, tmin, tmax) {
            None => None,
            Some(t) => {
                let pos = sr_at(r, t);
                let out_n = sv_div(sv_sub(pos, self.center@), self.radius as int);
                if abs_i(t) <= HIT_T_MAX && sv_in_range(pos)
                    && sv_bounded(out_n, NORMAL_MAX as int) {
                    let ff = sv_dot(r.direction, out_n) < 0;
                    Some(SpecHit {
                        position: pos,
                        normal: if ff { out_n } else { sv_neg(out_n) },
                        t: t,
                        front_face: ff,
                        material: Some(self.material),
                    })
                } else {
                    None
                }
            },
        }
    }

    /// The quadratic ray-sphere intersection test over `(tmin, tmax)`.
    pub fn hit(&self, r: &Ray, ray_t: Interval) -> (res: Option<HitRecord>)
        requires
            sphere_wf(*self),
            sv_in_range(r@.position),
            sv_in_range(r@.direction),
        ensures
            (match res {
                None => self.spec_hit(r@, ray_t.min as int, ray_t.max as int) is None,
                Some(h) => {
                    &&& self.spec_hit(r@, ray_t.min as int, ray_t.max as int) == Some(h@)
                    &&& ray_t.spec_surrounds(h@.t)
                    &&& abs_i(h@.t) <= HIT_T_MAX
                    &&& sv_in_range(h@.position)
                    &&& sv_bounded(h@.normal, NORMAL_MAX as int)
                    &&& h@.material == Some(self.material)
                    &&& mat_wf(self.material)
                },
            }),
    {
        let dirv: Vector3 = r.direction();
        let oc: Vector3 = r.position().sub(self.center);
        assert(sv_bounded(oc@, 2 * COORD_MAX));
        let a: i128 = dirv.length_squared();
        if a == 0 {
            return None;
        }
        proof {
            lemma_smul_le(oc@.x, dirv@.x, 2 * COORD_MAX as int, COORD_MAX as int);
            lemma_smul_le(oc@.y, dirv@.y, 2 * COORD_MAX as int, COORD_MAX as int);
            lemma_smul_le(oc@.z, dirv@.z, 2 * COORD_MAX as int, COORD_MAX as int);
        }
        let half_b: i128 = dot(oc, dirv);
        assert(abs_i(half_b as int) <= 6 * 200_000_000_000_000_000);
        proof {
            lemma_mul_le(self.radius as int, self.radius as int, COORD_MAX as int, COORD_MAX as int);
            lemma_smul_le(self.radius as int, self.radius as int, COORD_MAX as int, COORD_MAX as int);
        }
        let c_val: i128 = oc.length_squared() - fmul(self.radius, self.radius);
        assert(abs_i(c_val as int) <= 13 * 100_000_000_000_000_000);
        proof {
            lemma_mul_le(half_b as int, half_b as int, 1_200_000_000_000_000_000, 1_200_000_000_000_000_000);
            lemma_smul_le(half_b as int, half_b as int, 1_200_000_000_000_000_000, 1_200_000_000_000_000_000);
            lemma_mul_le(a as int, c_val as int, 1_200_000_000_000_000_000, 1_300_000_000_000_000_000);
            lemma_smul_le(a as int, c_val as int, 1_200_000_000_000_000_000, 1_300_000_000_000_000_000);
        }
        let disc: i128 = fmul(half_b, half_b) - fmul(a, c_val);
        assert(disc == self.spec_disc(r@));
        if disc < 0 {
            return None;
        }
        let sqrtd: i128 = fsqrt(disc);
        proof {
            lemma_ssqrt_bounds(disc as int);
            assert(sqrtd <= 2_000_000_000_000_000_000i128) by (nonlinear_arith)
                requires
                    sqrtd >= 0,
                    (sqrtd as int) * (sqrtd as int) <= (disc as int) * SCALE,
                    disc <= 4_000_000_000_000_000_000_000_000_000i128,
                    SCALE == 1_000_000_000i128,
            {}
        }
        let root1: i128 = fdiv(-half_b - sqrtd, a);
        assert(root1 == self.spec_root1(r@));
        let root: i128 = if ray_t.surrounds(root1) {
            root1
        } else {
            let root2: i128 = fdiv(-half_b + sqrtd, a);
            assert(root2 == self.spec_root2(r@));
            if ray_t.surrounds(root2) {
                root2
            } else {
                return None;
            }
        };
        assert(self.spec_root(r@, ray_t.min as int, ray_t.max as int) == Some(root as int));
        let tabs: i128 = if root < 0 { -root } else { root };
        if tabs > HIT_T_MAX {
            return None;
        }
        proof {
            lemma_mul_le(dirv@.x, root as int, COORD_MAX as int, HIT_T_MAX as int);
            lemma_mul_le(dirv@.y, root as int, COORD_MAX as int, HIT_T_MAX as int);
            lemma_mul_le(dirv@.z, root as int, COORD_MAX as int, HIT_T_MAX as int);
            lemma_scale_abs(r@.direction, root as int);
        }
        let pos: Vector3 = r.at(root);
        if !in_range_check(&pos) {
            return None;
        }
        let out_n: Vector3 = pos.sub(self.center).div(self.radius);
        assert(out_n@ == sv_div(sv_sub(pos@, self.center@), self.radius as int));
        if !(-NORMAL_MAX <= out_n.x && out_n.x <= NORMAL_MAX && -NORMAL_MAX <= out_n.y
            && out_n.y <= NORMAL_MAX && -NORMAL_MAX <= out_n.z && out_n.z <= NORMAL_MAX) {
            return None;
        }
        assert(sv_bounded(out_n@, NORMAL_MAX as int));
        proof {
            lemma_smul_le(dirv@.x, out_n@.x, COORD_MAX as int, NORMAL_MAX as int);
            lemma_smul_le(dirv@.y, out_n@.y, COORD_MAX as int, NORMAL_MAX as int);
            lemma_smul_le(dirv@.z, out_n@.z, COORD_MAX as int, NORMAL_MAX as int);
        }
        let mut record: HitRecord = HitRecord::new(pos, out_n, root);
        record.set_face_normal(r, out_n);
        record.material = Some(self.material);
        proof {
            if sv_dot(r@.direction, out_n@) < 0 {
                assert(record@.normal == out_n@);
            } else {
                assert(record@.normal == sv_neg(out_n@));
            }
        }
        Some(record)
    }
}



/// A successful intersection reports a parameter strictly inside the
/// queried interval, and a normal that never faces away from the ray:
/// `dot(direction, normal) <= 0`.
pub proof fn lemma_hit_inside_and_facing(s: Sphere, r: SpecRay, tmin: int, tmax: int)
    requires
        s.spec_hit(r, tmin, tmax) is Some,
    ensures
        ({
            let h = s.spec_hit(r, tmin, tmax)->Some_0;
            tmin < h.t < tmax && sv_dot(r.direction, h.normal) <= 0
        }),
{
    let h = s.spec_hit(r, tmin, tmax)->Some_0;
    let t = s.spec_root(r, tmin, tmax)->Some_0;
    let pos = sr_at(r, t);
    let out_n = sv_div(sv_sub(pos, s.center@), s.radius as int);
    if sv_dot(r.direction, out_n) < 0 {
        assert(h.normal == out_n);
    } else {
        assert(h.normal == sv_neg(out_n));
        lemma_dot_neg(r.direction, out_n);
    }
}

/// A ray whose discriminant is negative misses the sphere: no interval
/// ever reports a hit for it.
pub proof fn lemma_miss_when_discriminant_negative(s: Sphere, r: SpecRay, tmin: int, tmax: int)
    requires
        s.spec_disc(r) < 0,
    ensures
        s.spec_hit(r, tmin, tmax) is None,
{
}

/// The spec view of an optional hit record.
pub open spec fn opt_view(o: Option<HitRecord>) -> Option<SpecHit> {
    match o {
        Option::None => None,
        Option::Some(h) => Some(h@),
    }
}

/// An ordered collection of spheres, intersected as a whole under the
/// closest-hit-wins rule.
pub struct World {
    pub objects: Vec<Sphere>,
}

/// Every member of the world is a valid sphere.
pub open spec fn world_wf(w: World) -> bool {
    forall|i: int| 0 <= i < w.objects@.len() ==> sphere_wf(#[trigger] w.objects@[i])
}

/// The scan underlying the aggregate test: each member is queried with
/// the upper bound shrunk to the closest parameter found so far, and the
/// latest (hence closest) accepted record wins.
pub open spec fn spec_world_hit_scan(
    objects: Seq<Sphere>,
    r: SpecRay,
    tmin: int,
    closest: int,
    best: Option<SpecHit>,
) -> Option<SpecHit>
    decreases objects.len(),
{
    if objects.len() == 0 {
        best
    } else {
        match objects[0].spec_hit(r, tmin, closest) {
            Some(h) => spec_world_hit_scan(objects.drop_first(), r, tmin, h.t, Some(h)),
            None => spec_world_hit_scan(objects.drop_first(), r, tmin, closest, best),
        }
    }
}

/// What the aggregate intersection returns over `(tmin, tmax)`.
pub open spec fn spec_world_hit(objects: Seq<Sphere>, r: SpecRay, tmin: int, tmax: int)
    -> Option<SpecHit> {
    spec_world_hit_scan(objects, r, tmin, tmax, None)
}

/// Facts that hold of any record the aggregate scan can produce.
pub open spec fn scan_hit_ok(h: SpecHit, tmin: int, tmax: int) -> bool {
    &&& tmin < h.t < tmax
    &&& abs_i(h.t) <= HIT_T_MAX
    &&& sv_in_range(h.position)
    &&& sv_bounded(h.normal, NORMAL_MAX as int)
    &&& (match h.material {
        Some(m) => mat_wf(m),
        None => false,
    })
}

impl World {
    /// A world holding no geometry yet.
    pub fn new() -> (r: Self)
        ensures
            r.objects@.len() == 0,
            world_wf(r),
    {
        Self { objects: Vec::new() }
    }

    /// Append one sphere to the scan order.
    pub fn push(&mut self, s: Sphere)
        requires
            sphere_wf(s),
            world_wf(*old(self)),
        ensures
            final(self).objects@ == old(self).objects@.push(s),
            world_wf(*final(self)),
    {
        self.objects.push(s);
    }

    /// Scan every member, shrinking the search interval to the closest
    /// hit found so far, and return the single closest record.
    pub fn hit(&self, r: &Ray, ray_t: Interval) -> (res: Option<HitRecord>)
        requires
            world_wf(*self),
            sv_in_range(r@.position),
            sv_in_range(r@.direction),
        ensures
            opt_view(res) == spec_world_hit(self.objects@, r@, ray_t.min as int, ray_t.max as int),
            (match res {
                None => true,
                Some(h) => scan_hit_ok(h@, ray_t.min as int, ray_t.max as int),
            }),
    {
        let ghost tmin: int = ray_t.min as int;
        let ghost tmax: int = ray_t.max as int;
        let mut best: Option<HitRecord> = None;
        let mut closest: i128 = ray_t.max;
        let n: usize = self.objects.len();
        let mut i: usize = 0;
        proof {
            assert(self.objects@.subrange(0, n as int) =~= self.objects@);
        }
        while i < n
            invariant
                0 <= i <= n,
                n == self.objects@.len(),
                world_wf(*self),
                sv_in_range(r@.position),
                sv_in_range(r@.direction),
                tmin == ray_t.min as int,
                tmax == ray_t.max as int,
                (match best {
                    None => closest as int == tmax,
                    Some(h) => closest as int == h@.t && scan_hit_ok(h@, tmin, tmax),
                }),
                spec_world_hit_scan(
                    self.objects@.subrange(i as int, n as int),
                    r@,
                    tmin,
                    closest as int,
                    opt_view(best),
                ) == spec_world_hit(self.objects@, r@, tmin, tmax),
            decreases n - i,
        {
            let ghost rest = self.objects@.subrange(i as int, n as int);
            assert(rest[0] == self.objects@[i as int]);
            assert(rest.drop_first() =~= self.objects@.subrange(i as int + 1, n as int));
            let sub: Interval = Interval::new(ray_t.min, closest);
            let obj = &self.objects[i];
            match obj.hit(r, sub) {
                Some(rec) => {
                    proof {
                        assert(rec@.t < closest as int <= tmax);
                        assert(scan_hit_ok(rec@, tmin, tmax));
                    }
                    closest = rec.t;
                    best = Some(rec);
                },
                None => {},
            }
            i = i + 1;
        }
        proof {
            assert(self.objects@.subrange(n as int, n as int) =~= Seq::<Sphere>::empty());
        }
        best
    }
}


/// Truncating division by a positive divisor is monotone in the
/// dividend.
pub proof fn lemma_tdiv_mono(a1: int, a2: int, b: int)
    by (nonlinear_arith)
    requires
        a1 <= a2,
        b > 0,
    ensures
        crate::fixed::tdiv(a1, b) <= crate::fixed::tdiv(a2, b),
{
}

/// The two quadratic roots come out ordered.
pub proof fn lemma_roots_ordered(s: Sphere, r: SpecRay)
    requires
        s.spec_a(r) > 0,
        s.spec_disc(r) >= 0,
    ensures
        s.spec_root1(r) <= s.spec_root2(r),
{
    let hb = s.spec_half_b(r);
    let sq = ssqrt(s.spec_disc(r));
    crate::fixed::lemma_ssqrt_bounds(s.spec_disc(r));
    assert((-hb - sq) * SCALE <= (-hb + sq) * SCALE) by (nonlinear_arith)
        requires
            sq >= 0,
            SCALE == 1_000_000_000i128,
    {}
    lemma_tdiv_mono((-hb - sq) * SCALE, (-hb + sq) * SCALE, s.spec_a(r));
}

/// The direction square is never negative, so a zero test decides
/// between `a == 0` and `a > 0`.
pub proof fn lemma_spec_a_nonneg(s: Sphere, r: SpecRay)
    ensures
        s.spec_a(r) >= 0,
{
    crate::vector::lemma_len2_term_bounds(r.direction);
}

/// Shrinking the upper bound of the interval past a reported hit keeps
/// exactly that hit.
pub proof fn lemma_hit_narrow_some(s: Sphere, r: SpecRay, tmin: int, tmax: int, tmax2: int)
    requires
        s.spec_hit(r, tmin, tmax) is Some,
        s.spec_hit(r, tmin, tmax)->Some_0.t < tmax2 <= tmax,
    ensures
        s.spec_hit(r, tmin, tmax2) == s.spec_hit(r, tmin, tmax),
{
    lemma_spec_a_nonneg(s, r);
    lemma_roots_ordered(s, r);
}

/// Shrinking the upper bound of the interval to or below a reported
/// hit's parameter loses the hit entirely.
pub proof fn lemma_hit_narrow_none(s: Sphere, r: SpecRay, tmin: int, tmax: int, tmax2: int)
    requires
        s.spec_hit(r, tmin, tmax) is Some,
        tmax2 <= tmax,
        s.spec_hit(r, tmin, tmax)->Some_0.t >= tmax2,
    ensures
        s.spec_hit(r, tmin, tmax2) is None,
{
    lemma_spec_a_nonneg(s, r);
    lemma_roots_ordered(s, r);
}


/// The scan never returns a record farther than its current bound: the
/// result parameter stays at or below `closest`, and strictly below it
/// when the scan started with no candidate.
proof fn lemma_scan_upper(
    objects: Seq<Sphere>,
    r: SpecRay,
    tmin: int,
    closest: int,
    best: Option<SpecHit>,
)
    requires
        (match best {
            Some(h) => h.t == closest,
            None => true,
        }),
    ensures
        (match spec_world_hit_scan(objects, r, tmin, closest, best) {
            Some(res) => res.t <= closest && (best is None ==> res.t < closest),
            None => best is None,
        }),
    decreases objects.len(),
{
    if objects.len() > 0 {
        match objects[0].spec_hit(r, tmin, closest) {
            Some(h0) => {
                lemma_scan_upper(objects.drop_first(), r, tmin, h0.t, Some(h0));
            },
            None => {
                lemma_scan_upper(objects.drop_first(), r, tmin, closest, best);
            },
        }
    }
}

/// If some member is hit inside the scan's current interval, the scan
/// reports a record, and one no farther than that member's hit.
proof fn lemma_scan_minimal(
    objects: Seq<Sphere>,
    r: SpecRay,
    tmin: int,
    closest: int,
    best: Option<SpecHit>,
    i: int,
)
    requires
        0 <= i < objects.len(),
        objects[i].spec_hit(r, tmin, closest) is Some,
        (match best {
            Some(h) => h.t == closest,
            None => true,
        }),
    ensures
        spec_world_hit_scan(objects, r, tmin, closest, best) is Some,
        spec_world_hit_scan(objects, r, tmin, closest, best)->Some_0.t <= objects[i].spec_hit(
            r,
            tmin,
            closest,
        )->Some_0.t,
    decreases objects.len(),
{
    let rest = objects.drop_first();
    match objects[0].spec_hit(r, tmin, closest) {
        Some(h0) => {
            if i == 0 {
                lemma_scan_upper(rest, r, tmin, h0.t, Some(h0));
            } else {
                assert(rest[i - 1] == objects[i]);
                let ti = objects[i].spec_hit(r, tmin, closest)->Some_0.t;
                if ti < h0.t {
                    lemma_hit_narrow_some(objects[i], r, tmin, closest, h0.t);
                    lemma_scan_minimal(rest, r, tmin, h0.t, Some(h0), i - 1);
                } else {
                    lemma_scan_upper(rest, r, tmin, h0.t, Some(h0));
                }
            }
        },
        None => {
            assert(i > 0);
            assert(rest[i - 1] == objects[i]);
            lemma_scan_minimal(rest, r, tmin, closest, best, i - 1);
        },
    }
}

/// Closest-hit composition, in general: whenever some member of the
/// world is hit inside the interval, the aggregate reports a hit, and
/// never a farther one. So an aggregate miss means every member missed.
pub proof fn lemma_world_hit_minimal(
    objects: Seq<Sphere>,
    r: SpecRay,
    tmin: int,
    tmax: int,
    i: int,
)
    requires
        0 <= i < objects.len(),
        objects[i].spec_hit(r, tmin, tmax) is Some,
    ensures
        spec_world_hit(objects, r, tmin, tmax) is Some,
        spec_world_hit(objects, r, tmin, tmax)->Some_0.t <= objects[i].spec_hit(
            r,
            tmin,
            tmax,
        )->Some_0.t,
{
    lemma_scan_minimal(objects, r, tmin, tmax, None, i);
}

/// Aggregate composition on a pair: when both spheres report a hit over
/// the same interval, the aggregate of the two returns the record with
/// the smaller parameter, a tie going to the first member.
pub proof fn lemma_world_pair_closest(s1: Sphere, s2: Sphere, r: SpecRay, tmin: int, tmax: int)
    requires
        s1.spec_hit(r, tmin, tmax) is Some,
        s2.spec_hit(r, tmin, tmax) is Some,
    ensures
        ({
            let h1 = s1.spec_hit(r, tmin, tmax)->Some_0;
            let h2 = s2.spec_hit(r, tmin, tmax)->Some_0;
            spec_world_hit(seq![s1, s2], r, tmin, tmax) == if h1.t <= h2.t {
                Some(h1)
            } else {
                Some(h2)
            }
        }),
{
    let h1 = s1.spec_hit(r, tmin, tmax)->Some_0;
    let h2 = s2.spec_hit(r, tmin, tmax)->Some_0;
    let objs = seq![s1, s2];
    assert(objs[0] == s1);
    assert(objs.drop_first() =~= seq![s2]);
    assert(seq![s2][0] == s2);
    assert(seq![s2].drop_first() =~= Seq::<Sphere>::empty());
    assert(tmin < h1.t < tmax);
    assert(spec_world_hit_scan(objs, r, tmin, tmax, None) == spec_world_hit_scan(
        seq![s2],
        r,
        tmin,
        h1.t,
        Some(h1),
    ));
    if h2.t < h1.t {
        lemma_hit_narrow_some(s2, r, tmin, tmax, h1.t);
        assert(s2.spec_hit(r, tmin, h1.t) == Some(h2));
        assert(spec_world_hit_scan(seq![s2], r, tmin, h1.t, Some(h1))
            == spec_world_hit_scan(Seq::<Sphere>::empty(), r, tmin, h2.t, Some(h2)));
        assert(spec_world_hit_scan(Seq::<Sphere>::empty(), r, tmin, h2.t, Some(h2))
            == Some(h2));
    } else {
        lemma_hit_narrow_none(s2, r, tmin, tmax, h1.t);
        assert(s2.spec_hit(r, tmin, h1.t) is None);
        assert(spec_world_hit_scan(seq![s2], r, tmin, h1.t, Some(h1))
            == spec_world_hit_scan(Seq::<Sphere>::empty(), r, tmin, h1.t, Some(h1)));
        assert(spec_world_hit_scan(Seq::<Sphere>::empty(), r, tmin, h1.t, Some(h1))
            == Some(h1));
    }
}

} // verus!
