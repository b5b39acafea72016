use vstd::prelude::*;

use crate::fixed::{
    abs_i, fdiv, fmul, fsqrt, lemma_smul_neg, lemma_ssqrt_bounds, lemma_tdiv_lower,
    lemma_tdiv_mul_le, lemma_tdiv_rem, sdiv, smul, sqrt_floor, ssqrt, tdiv, COORD_MAX, SCALE,
};
use crate::random::RandomSource;

verus! {

/// Components below this magnitude (1e-8 in real terms) count as zero when
/// testing for a degenerate scatter direction.
pub const NEAR_ZERO_EPS: i128 = 10;

/// The largest fixed-point square of an in-range coordinate.
pub const SQUARE_MAX: i128 = 100_000_000_000_000_000;

/// Smallest accepted squared length of a sphere sample (0.01 in real
/// terms): anything shorter normalizes too coarsely and is re-drawn.
pub const SAMPLE_LEN2_MIN: i128 = 10_000_000;

/// A 3-component fixed-point tuple, used interchangeably as point,
/// direction and colour.
#[derive(Debug, Clone, Copy, PartialEq, Eq, Structural)]
pub struct Vector3 {
    pub x: i128,
    pub y: i128,
    pub z: i128,
}

/// The mathematical model of a `Vector3`: three unbounded integers, each
/// counting multiples of `1 / SCALE`.
pub struct SpecVec {
    pub x: int,
    pub y: int,
    pub z: int,
}

impl View for Vector3 {
    type V = SpecVec;

    open spec fn view(&self) -> SpecVec {
        SpecVec { x: self.x as int, y: self.y as int, z: self.z as int }
    }
}

pub open spec fn sv_bounded(v: SpecVec, b: int) -> bool {
    abs_i(v.x) <= b && abs_i(v.y) <= b && abs_i(v.z) <= b
}

pub open spec fn sv_in_range(v: SpecVec) -> bool {
    sv_bounded(v, COORD_MAX as int)
}

pub open spec fn sv_add(a: SpecVec, b: SpecVec) -> SpecVec {
    SpecVec { x: a.x + b.x, y: a.y + b.y, z: a.z + b.z }
}

pub open spec fn sv_sub(a: SpecVec, b: SpecVec) -> SpecVec {
    SpecVec { x: a.x - b.x, y: a.y - b.y, z: a.z - b.z }
}

pub open spec fn sv_neg(a: SpecVec) -> SpecVec {
    SpecVec { x: -a.x, y: -a.y, z: -a.z }
}

pub open spec fn sv_cmul(a: SpecVec, b: SpecVec) -> SpecVec {
    SpecVec { x: smul(a.x, b.x), y: smul(a.y, b.y), z: smul(a.z, b.z) }
}

pub open spec fn sv_scale(a: SpecVec, t: int) -> SpecVec {
    SpecVec { x: smul(a.x, t), y: smul(a.y, t), z: smul(a.z, t) }
}

/// Division by the scalar zero deliberately leaves the vector unchanged.
pub open spec fn sv_div(a: SpecVec, t: int) -> SpecVec {
    if t == 0 {
        a
    } else {
        SpecVec { x: sdiv(a.x, t), y: sdiv(a.y, t), z: sdiv(a.z, t) }
    }
}

pub open spec fn sv_dot(a: SpecVec, b: SpecVec) -> int {
    smul(a.x, b.x) + smul(a.y, b.y) + smul(a.z, b.z)
}

pub open spec fn sv_cross(a: SpecVec, b: SpecVec) -> SpecVec {
    SpecVec {
        x: smul(a.y, b.z) - smul(a.z, b.y),
        y: smul(a.z, b.x) - smul(a.x, b.z),
        z: smul(a.x, b.y) - smul(a.y, b.x),
    }
}

pub open spec fn sv_len2(a: SpecVec) -> int {
    sv_dot(a, a)
}

pub open spec fn sv_len(a: SpecVec) -> int {
    ssqrt(sv_len2(a))
}

pub open spec fn sv_unit(a: SpecVec) -> SpecVec {
    sv_div(a, sv_len(a))
}

pub open spec fn sv_near_zero(a: SpecVec) -> bool {
    abs_i(a.x) < NEAR_ZERO_EPS && abs_i(a.y) < NEAR_ZERO_EPS && abs_i(a.z) < NEAR_ZERO_EPS
}

pub open spec fn sv_reflect(v: SpecVec, n: SpecVec) -> SpecVec {
    sv_sub(v, sv_scale(n, 2 * sv_dot(v, n)))
}

/// `|a * b| == |a| * |b|`, so bounds on factors bound the product.
pub proof fn lemma_mul_le(a: int, b: int, ca: int, cb: int)
    by (nonlinear_arith)
    requires
        abs_i(a) <= ca,
        abs_i(b) <= cb,
    ensures
        abs_i(a * b) <= ca * cb,
        abs_i(a * b) == abs_i(a) * abs_i(b),
{
}

/// A bound on a truncating quotient follows from one on the dividend.
pub proof fn lemma_tdiv_le(a: int, b: int, ca: int)
    by (nonlinear_arith)
    requires
        b > 0,
        abs_i(a) <= ca,
    ensures
        abs_i(tdiv(a, b)) * b <= ca,
        abs_i(tdiv(a, b)) <= ca,
{
}

/// A scaled vector's components are no larger than the raw products.
pub proof fn lemma_scale_abs(v: SpecVec, t: int)
    ensures
        abs_i(sv_scale(v, t).x) <= abs_i(v.x * t),
        abs_i(sv_scale(v, t).y) <= abs_i(v.y * t),
        abs_i(sv_scale(v, t).z) <= abs_i(v.z * t),
{
    lemma_tdiv_le(v.x * t, SCALE as int, abs_i(v.x * t));
    lemma_tdiv_le(v.y * t, SCALE as int, abs_i(v.y * t));
    lemma_tdiv_le(v.z * t, SCALE as int, abs_i(v.z * t));
}


/// Bound one fixed-point product and its raw product at once: with
/// `|a| <= ca`, `|b| <= cb` and `ca * cb <= cr * SCALE`, the raw product
/// fits the machine word and the fixed-point product stays below `cr`.
pub proof fn lemma_pair_fit(a: int, b: int, ca: int, cb: int, cr: int)
    by (nonlinear_arith)
    requires
        abs_i(a) <= ca,
        abs_i(b) <= cb,
        0 <= ca,
        0 <= cb,
        0 <= cr,
        ca * cb <= cr * 1_000_000_000,
        cr <= 0x1_0000_0000_0000_0000_0000_0000,
        SCALE == 1_000_000_000i128,
    ensures
        abs_i(a * b) <= i128::MAX,
        abs_i(a * b) <= cr * 1_000_000_000,
        abs_i(smul(a, b)) <= cr,
{
}

/// Bounds on both factors bound the fixed-point product.
pub proof fn lemma_smul_le(a: int, b: int, ca: int, cb: int)
    requires
        abs_i(a) <= ca,
        abs_i(b) <= cb,
    ensures
        abs_i(a * b) <= ca * cb,
        abs_i(smul(a, b)) * SCALE <= ca * cb,
        abs_i(smul(a, b)) <= ca * cb,
{
    lemma_mul_le(a, b, ca, cb);
    lemma_tdiv_le(a * b, SCALE as int, ca * cb);
}

impl Vector3 {
    pub fn new(x: i128, y: i128, z: i128) -> (r: Self)
        ensures
            r@ == (SpecVec { x: x as int, y: y as int, z: z as int }),
    {
        Self { x, y, z }
    }

    pub fn add(self, o: Self) -> (r: Self)
        requires
            abs_i(self@.x + o@.x) <= i128::MAX,
            abs_i(self@.y + o@.y) <= i128::MAX,
            abs_i(self@.z + o@.z) <= i128::MAX,
        ensures
            r@ == sv_add(self@, o@),
    {
        Self { x: self.x + o.x, y: self.y + o.y, z: self.z + o.z }
    }

    pub fn sub(self, o: Self) -> (r: Self)
        requires
            abs_i(self@.x - o@.x) <= i128::MAX,
            abs_i(self@.y - o@.y) <= i128::MAX,
            abs_i(self@.z - o@.z) <= i128::MAX,
        ensures
            r@ == sv_sub(self@, o@),
    {
        Self { x: self.x - o.x, y: self.y - o.y, z: self.z - o.z }
    }

    pub fn neg(self) -> (r: Self)
        requires
            self@.x > i128::MIN,
            self@.y > i128::MIN,
            self@.z > i128::MIN,
        ensures
            r@ == sv_neg(self@),
    {
        Self { x: -self.x, y: -self.y, z: -self.z }
    }

    /// Component-wise fixed-point product (used to attenuate colours).
    pub fn mul(self, o: Self) -> (r: Self)
        requires
            abs_i(self@.x * o@.x) <= i128::MAX,
            abs_i(self@.y * o@.y) <= i128::MAX,
            abs_i(self@.z * o@.z) <= i128::MAX,
        ensures
            r@ == sv_cmul(self@, o@),
    {
        Self { x: fmul(self.x, o.x), y: fmul(self.y, o.y), z: fmul(self.z, o.z) }
    }

    /// Fixed-point product with a scalar.
    pub fn scale(self, t: i128) -> (r: Self)
        requires
            abs_i(self@.x * t) <= i128::MAX,
            abs_i(self@.y * t) <= i128::MAX,
            abs_i(self@.z * t) <= i128::MAX,
        ensures
            r@ == sv_scale(self@, t as int),
    {
        Self { x: fmul(self.x, t), y: fmul(self.y, t), z: fmul(self.z, t) }
    }

    /// Fixed-point division by a scalar; dividing by zero returns the
    /// vector unchanged.
    pub fn div(self, t: i128) -> (r: Self)
        requires
            t > i128::MIN,
            abs_i(self@.x * SCALE) <= i128::MAX,
            abs_i(self@.y * SCALE) <= i128::MAX,
            abs_i(self@.z * SCALE) <= i128::MAX,
        ensures
            r@ == sv_div(self@, t as int),
    {
        if t == 0 {
            self
        } else {
            Self { x: fdiv(self.x, t), y: fdiv(self.y, t), z: fdiv(self.z, t) }
        }
    }

    pub fn length_squared(&self) -> (r: i128)
        requires
            sv_bounded(self@, 2 * COORD_MAX),
        ensures
            r == sv_len2(self@),
            0 <= r <= 12 * SQUARE_MAX,
    {
        proof {
            lemma_smul_square_bound(self@.x);
            lemma_smul_square_bound(self@.y);
            lemma_smul_square_bound(self@.z);
        }
        fmul(self.x, self.x) + fmul(self.y, self.y) + fmul(self.z, self.z)
    }

    pub fn length(&self) -> (r: i128)
        requires
            sv_bounded(self@, 2 * COORD_MAX),
        ensures
            r == sv_len(self@),
            r >= 0,
    {
        let l2: i128 = self.length_squared();
        fsqrt(l2)
    }

    /// Normalize: divide by the length; a vector of length zero is
    /// returned unchanged.
    pub fn into_unit(self) -> (r: Self)
        requires
            sv_bounded(self@, 2 * COORD_MAX),
        ensures
            r@ == sv_unit(self@),
    {
        let l: i128 = self.length();
        self.div(l)
    }
}

/// For a coordinate in range, the fixed-point square stays small.
proof fn lemma_smul_square_bound(a: int)
    requires
        abs_i(a) <= 2 * COORD_MAX,
    ensures
        0 <= a * a <= i128::MAX,
        0 <= smul(a, a) <= 4 * SQUARE_MAX,
{
    lemma_mul_le(a, a, 2 * COORD_MAX as int, 2 * COORD_MAX as int);
    assert(a * a >= 0) by (nonlinear_arith);
    lemma_tdiv_nonneg(a * a, SCALE as int);
    lemma_tdiv_le(a * a, SCALE as int, (2 * COORD_MAX as int) * (2 * COORD_MAX as int));
    assert(smul(a, a) <= 4 * SQUARE_MAX) by (nonlinear_arith)
        requires
            smul(a, a) >= 0,
            abs_i(smul(a, a)) * SCALE <= (2 * COORD_MAX as int) * (2 * COORD_MAX as int),
            COORD_MAX == 10_000_000_000_000i128,
            SQUARE_MAX == 100_000_000_000_000_000i128,
            SCALE == 1_000_000_000i128,
    {}
}

/// A truncating quotient of a nonnegative dividend by a positive divisor
/// is nonnegative.
pub proof fn lemma_tdiv_nonneg(a: int, b: int)
    by (nonlinear_arith)
    requires
        a >= 0,
        b > 0,
    ensures
        tdiv(a, b) >= 0,
        tdiv(a, b) == a / b,
{
}

pub fn dot(a: Vector3, b: Vector3) -> (r: i128)
    requires
        abs_i(a@.x * b@.x) <= i128::MAX,
        abs_i(a@.y * b@.y) <= i128::MAX,
        abs_i(a@.z * b@.z) <= i128::MAX,
        abs_i(smul(a@.x, b@.x)) + abs_i(smul(a@.y, b@.y)) + abs_i(smul(a@.z, b@.z))
            <= i128::MAX,
    ensures
        r == sv_dot(a@, b@),
{
    fmul(a.x, b.x) + fmul(a.y, b.y) + fmul(a.z, b.z)
}

pub fn cross(a: Vector3, b: Vector3) -> (r: Vector3)
    requires
        sv_in_range(a@),
        sv_in_range(b@),
    ensures
        r@ == sv_cross(a@, b@),
{
    proof {
        lemma_smul_le(a@.y, b@.z, COORD_MAX as int, COORD_MAX as int);
        lemma_smul_le(a@.z, b@.y, COORD_MAX as int, COORD_MAX as int);
        lemma_smul_le(a@.z, b@.x, COORD_MAX as int, COORD_MAX as int);
        lemma_smul_le(a@.x, b@.z, COORD_MAX as int, COORD_MAX as int);
        lemma_smul_le(a@.x, b@.y, COORD_MAX as int, COORD_MAX as int);
        lemma_smul_le(a@.y, b@.x, COORD_MAX as int, COORD_MAX as int);
    }
    Vector3 {
        x: fmul(a.y, b.z) - fmul(a.z, b.y),
        y: fmul(a.z, b.x) - fmul(a.x, b.z),
        z: fmul(a.x, b.y) - fmul(a.y, b.x),
    }
}


/// Whether every component lies inside the representable coordinate
/// range.
pub fn in_range_check(v: &Vector3) -> (b: bool)
    ensures
        b == sv_in_range(v@),
{
    -COORD_MAX <= v.x && v.x <= COORD_MAX && -COORD_MAX <= v.y && v.y <= COORD_MAX
        && -COORD_MAX <= v.z && v.z <= COORD_MAX
}

/// True when every component is below the near-zero epsilon in magnitude.
pub fn near_zero(v: Vector3) -> (r: bool)
    requires
        v@.x > i128::MIN,
        v@.y > i128::MIN,
        v@.z > i128::MIN,
    ensures
        r == sv_near_zero(v@),
{
    let ax: i128 = if v.x < 0 { -v.x } else { v.x };
    let ay: i128 = if v.y < 0 { -v.y } else { v.y };
    let az: i128 = if v.z < 0 { -v.z } else { v.z };
    ax < NEAR_ZERO_EPS && ay < NEAR_ZERO_EPS && az < NEAR_ZERO_EPS
}


/// Negating one vector negates the dot product.
pub proof fn lemma_dot_neg(a: SpecVec, b: SpecVec)
    ensures
        sv_dot(sv_neg(a), b) == -sv_dot(a, b),
        sv_dot(a, sv_neg(b)) == -sv_dot(a, b),
{
    lemma_smul_neg(a.x, b.x);
    lemma_smul_neg(a.y, b.y);
    lemma_smul_neg(a.z, b.z);
}

/// Squared components never make a dot product with itself negative, so a
/// squared length is at least any one of its terms.
pub proof fn lemma_len2_term_bounds(a: SpecVec)
    ensures
        sv_len2(a) >= smul(a.x, a.x) >= 0,
        sv_len2(a) >= smul(a.y, a.y) >= 0,
        sv_len2(a) >= smul(a.z, a.z) >= 0,
        sv_len2(a) >= 0,
{
    assert(a.x * a.x >= 0) by (nonlinear_arith);
    assert(a.y * a.y >= 0) by (nonlinear_arith);
    assert(a.z * a.z >= 0) by (nonlinear_arith);
    lemma_tdiv_nonneg(a.x * a.x, SCALE as int);
    lemma_tdiv_nonneg(a.y * a.y, SCALE as int);
    lemma_tdiv_nonneg(a.z * a.z, SCALE as int);
}

/// One component of a normalized vector stays below three units.
proof fn lemma_unit_comp(x: int, len2: int)
    requires
        0 <= len2,
        0 <= smul(x, x) <= len2,
    ensures
        len2 == 0 ==> abs_i(x) <= 31_622,
        len2 != 0 ==> abs_i(sdiv(x, ssqrt(len2))) <= 3 * SCALE,
{
    let l = ssqrt(len2);
    lemma_ssqrt_bounds(len2);
    assert(x * x >= 0) by (nonlinear_arith);
    lemma_tdiv_lower(x * x, SCALE as int);
    assert(x * x < SCALE * smul(x, x) + SCALE) by (nonlinear_arith)
        requires
            x * x < SCALE * tdiv(x * x, SCALE as int) + SCALE,
            smul(x, x) == tdiv(x * x, SCALE as int),
    {}
    if len2 == 0 {
        assert(abs_i(x) <= 31_622) by (nonlinear_arith)
            requires
                x * x < SCALE,
                SCALE == 1_000_000_000i128,
        {}
    } else {
        assert(l >= 31_622) by (nonlinear_arith)
            requires
                len2 * SCALE < (l + 1) * (l + 1),
                len2 >= 1,
                SCALE == 1_000_000_000i128,
                l >= 0,
        {}
        assert(x * x <= l * l + 2 * l + SCALE) by (nonlinear_arith)
            requires
                x * x < SCALE * smul(x, x) + SCALE,
                smul(x, x) <= len2,
                SCALE > 0,
                len2 * SCALE < (l + 1) * (l + 1),
        {}
        assert(abs_i(x) <= l + 31_624) by (nonlinear_arith)
            requires
                x * x <= l * l + 2 * l + SCALE,
                l >= 31_622i128,
                SCALE == 1_000_000_000i128,
        {}
        lemma_mul_le(x, SCALE as int, abs_i(x), SCALE as int);
        lemma_tdiv_le(x * SCALE, l, abs_i(x) * SCALE);
        assert(abs_i(tdiv(x * SCALE, l)) <= 3 * SCALE) by (nonlinear_arith)
            requires
                abs_i(tdiv(x * SCALE, l)) * l <= abs_i(x) * SCALE,
                abs_i(x) <= l + 31_624,
                l >= 31_622i128,
                SCALE == 1_000_000_000i128,
    {}
    }
}

/// Normalization never produces a component beyond three units, whatever
/// the input vector was.
pub proof fn lemma_unit_bounded(v: SpecVec)
    ensures
        sv_bounded(sv_unit(v), 3 * SCALE),
{
    lemma_len2_term_bounds(v);
    let len2 = sv_len2(v);
    lemma_ssqrt_bounds(len2);
    lemma_unit_comp(v.x, len2);
    lemma_unit_comp(v.y, len2);
    lemma_unit_comp(v.z, len2);
    if len2 == 0 {
        assert(sv_len(v) == 0) by {
            assert(ssqrt(0) == sqrt_floor(0nat));
        }
        assert(sv_unit(v) == v);
    } else {
        assert(sv_len(v) != 0) by (nonlinear_arith)
            requires
                ssqrt(len2) * ssqrt(len2) <= len2 * SCALE,
                len2 * SCALE < (ssqrt(len2) + 1) * (ssqrt(len2) + 1),
                len2 >= 1,
                SCALE == 1_000_000_000i128,
                ssqrt(len2) >= 0,
                sv_len(v) == ssqrt(len2),
        {}
    }
}

impl Vector3 {
    /// A vector whose components are uniform samples in `[0, 1)`.
    pub fn random(rng: &mut RandomSource) -> (r: Self)
        ensures
            0 <= r@.x < SCALE,
            0 <= r@.y < SCALE,
            0 <= r@.z < SCALE,
    {
        let x: i128 = rng.next_in(0, SCALE);
        let y: i128 = rng.next_in(0, SCALE);
        let z: i128 = rng.next_in(0, SCALE);
        Self { x, y, z }
    }

    /// A vector whose components are uniform samples in `[min, max]`.
    pub fn random_range(rng: &mut RandomSource, min: i128, max: i128) -> (r: Self)
        requires
            min <= max,
            max < i128::MAX,
        ensures
            min <= r@.x <= max,
            min <= r@.y <= max,
            min <= r@.z <= max,
    {
        let x: i128 = rng.next_in(min, max + 1);
        let y: i128 = rng.next_in(min, max + 1);
        let z: i128 = rng.next_in(min, max + 1);
        Self { x, y, z }
    }

    /// Rejection-sample a point inside the unit sphere. Samples too close
    /// to the centre to normalize meaningfully are re-drawn as well; after
    /// a bounded number of draws a fixed interior point is returned so the
    /// function provably terminates.
    pub fn random_in_unit_sphere(rng: &mut RandomSource) -> (r: Self)
        ensures
            sv_bounded(r@, SCALE as int),
            SAMPLE_LEN2_MIN <= sv_len2(r@) < SCALE,
    {
        let mut tries: usize = 64;
        while tries > 0
            decreases tries,
        {
            let p: Vector3 = Self::random_range(rng, -SCALE, SCALE);
            let l2: i128 = p.length_squared();
            if SAMPLE_LEN2_MIN <= l2 && l2 < SCALE {
                return p;
            }
            tries = tries - 1;
        }
        let f: Vector3 = Self { x: 500_000_000, y: 500_000_000, z: 500_000_000 };
        proof {
            assert(500_000_000int * 500_000_000int == 250_000_000_000_000_000int)
                by (nonlinear_arith);
            assert(250_000_000_000_000_000int / 1_000_000_000int == 250_000_000int);
            assert(smul(f@.x, f@.x) == 250_000_000int);
            assert(sv_len2(f@) == 750_000_000);
        }
        f
    }

    /// A unit vector: a sphere sample, normalized.
    pub fn random_unit_vector(rng: &mut RandomSource) -> (r: Self)
        ensures
            sv_bounded(r@, 3 * SCALE),
            is_unit_sample(r@),
    {
        let p: Vector3 = Self::random_in_unit_sphere(rng);
        proof {
            lemma_unit_bounded(p@);
        }
        let r: Vector3 = p.into_unit();
        proof {
            let pw = p@;
            assert(sv_bounded(pw, SCALE as int) && SAMPLE_LEN2_MIN <= sv_len2(pw) < SCALE
                && r@ == sv_unit(pw));
        }
        r
    }

    /// A unit vector lying in the hemisphere around the given normal.
    pub fn random_on_hemisphere(rng: &mut RandomSource, normal: Self) -> (r: Self)
        requires
            sv_in_range(normal@),
        ensures
            sv_bounded(r@, 3 * SCALE),
            sv_dot(r@, normal@) >= 0,
    {
        let u: Vector3 = Self::random_unit_vector(rng);
        proof {
            lemma_smul_le(u@.x, normal@.x, 3 * SCALE as int, COORD_MAX as int);
            lemma_smul_le(u@.y, normal@.y, 3 * SCALE as int, COORD_MAX as int);
            lemma_smul_le(u@.z, normal@.z, 3 * SCALE as int, COORD_MAX as int);
        }
        let d: i128 = dot(u, normal);
        if d > 0 {
            u
        } else {
            proof {
                lemma_dot_neg(u@, normal@);
            }
            u.neg()
        }
    }
}


/// Snell's law in vector form. The caller has ruled out total internal
/// reflection; the argument of the square root is still clamped at zero
/// against fixed-point round-off.
pub open spec fn sv_refract(uv: SpecVec, n: SpecVec, ratio: int) -> SpecVec {
    let cos = sv_refract_cos(uv, n);
    let perp = sv_scale(sv_add(uv, sv_scale(n, cos)), ratio);
    let k = SCALE - sv_len2(perp);
    let par = sv_scale(n, -ssqrt(if k < 0 { 0 } else { k }));
    sv_add(perp, par)
}

/// The incidence cosine used by refraction: `dot(-uv, n)`, capped at one.
pub open spec fn sv_refract_cos(uv: SpecVec, n: SpecVec) -> int {
    let d = sv_dot(sv_neg(uv), n);
    if d > SCALE { SCALE as int } else { d }
}

/// Mirror a vector about a normal: `v - 2 * dot(v, n) * n`.
pub fn reflect(v: Vector3, n: Vector3) -> (r: Vector3)
    requires
        sv_bounded(v@, 4 * SCALE),
        sv_bounded(n@, 2 * SCALE),
    ensures
        r@ == sv_reflect(v@, n@),
        sv_bounded(r@, 100 * SCALE),
{
    proof {
        lemma_pair_fit(v@.x, n@.x, 4_000_000_000, 2_000_000_000, 8_000_000_000);
        lemma_pair_fit(v@.y, n@.y, 4_000_000_000, 2_000_000_000, 8_000_000_000);
        lemma_pair_fit(v@.z, n@.z, 4_000_000_000, 2_000_000_000, 8_000_000_000);
    }
    let d: i128 = dot(v, n);
    assert(abs_i(2 * d as int) <= 48 * SCALE);
    proof {
        lemma_pair_fit(n@.x, 2 * d as int, 2_000_000_000, 48_000_000_000, 96_000_000_000);
        lemma_pair_fit(n@.y, 2 * d as int, 2_000_000_000, 48_000_000_000, 96_000_000_000);
        lemma_pair_fit(n@.z, 2 * d as int, 2_000_000_000, 48_000_000_000, 96_000_000_000);
    }
    let s: Vector3 = n.scale(2 * d);
    v.sub(s)
}

/// Refract a unit-normalized direction through a surface with the given
/// ratio of refraction indices.
pub fn refract(uv: Vector3, n: Vector3, ratio: i128) -> (r: Vector3)
    requires
        sv_bounded(uv@, 4 * SCALE),
        sv_bounded(n@, 2 * SCALE),
        0 < ratio <= 10 * SCALE,
    ensures
        r@ == sv_refract(uv@, n@, ratio as int),
        sv_bounded(r@, 3_000 * SCALE),
{
    proof {
        lemma_pair_fit(uv@.x, n@.x, 4_000_000_000, 2_000_000_000, 8_000_000_000);
        lemma_pair_fit(uv@.y, n@.y, 4_000_000_000, 2_000_000_000, 8_000_000_000);
        lemma_pair_fit(uv@.z, n@.z, 4_000_000_000, 2_000_000_000, 8_000_000_000);
        lemma_pair_fit(-uv@.x, n@.x, 4_000_000_000, 2_000_000_000, 8_000_000_000);
        lemma_pair_fit(-uv@.y, n@.y, 4_000_000_000, 2_000_000_000, 8_000_000_000);
        lemma_pair_fit(-uv@.z, n@.z, 4_000_000_000, 2_000_000_000, 8_000_000_000);
        lemma_dot_neg(uv@, n@);
    }
    let d0: i128 = dot(uv.neg(), n);
    let cos: i128 = if d0 > SCALE { SCALE } else { d0 };
    assert(cos == sv_refract_cos(uv@, n@));
    assert(abs_i(cos as int) <= 24 * SCALE);
    proof {
        lemma_pair_fit(n@.x, cos as int, 2_000_000_000, 24_000_000_000, 48_000_000_000);
        lemma_pair_fit(n@.y, cos as int, 2_000_000_000, 24_000_000_000, 48_000_000_000);
        lemma_pair_fit(n@.z, cos as int, 2_000_000_000, 24_000_000_000, 48_000_000_000);
    }
    let cn: Vector3 = n.scale(cos);
    assert(sv_bounded(cn@, 48 * SCALE));
    let base: Vector3 = uv.add(cn);
    assert(sv_bounded(base@, 52 * SCALE));
    proof {
        lemma_pair_fit(base@.x, ratio as int, 52_000_000_000, 10_000_000_000, 520_000_000_000);
        lemma_pair_fit(base@.y, ratio as int, 52_000_000_000, 10_000_000_000, 520_000_000_000);
        lemma_pair_fit(base@.z, ratio as int, 52_000_000_000, 10_000_000_000, 520_000_000_000);
    }
    let perp: Vector3 = base.scale(ratio);
    assert(sv_bounded(perp@, 520 * SCALE));
    let l2: i128 = perp.length_squared();
    let k: i128 = SCALE - l2;
    let kc: i128 = if k < 0 { 0 } else { k };
    let sq: i128 = fsqrt(kc);
    proof {
        lemma_ssqrt_bounds(kc as int);
        assert(sq <= 2 * SCALE) by (nonlinear_arith)
            requires
                sq >= 0,
                (sq as int) * (sq as int) <= (kc as int) * SCALE,
                kc <= SCALE,
                SCALE == 1_000_000_000i128,
        {}
        lemma_pair_fit(n@.x, -sq as int, 2_000_000_000, 2_000_000_000, 4_000_000_000);
        lemma_pair_fit(n@.y, -sq as int, 2_000_000_000, 2_000_000_000, 4_000_000_000);
        lemma_pair_fit(n@.z, -sq as int, 2_000_000_000, 2_000_000_000, 4_000_000_000);
    }
    let par: Vector3 = n.scale(-sq);
    assert(sv_bounded(par@, 4 * SCALE));
    perp.add(par)
}


/// The fixed-point product of `a` and `b` rounds nothing away.
pub open spec fn mul_exact(a: int, b: int) -> bool {
    (a * b) % (SCALE as int) == 0
}

/// An exact fixed-point product recovers the raw product when scaled
/// back up.
pub proof fn lemma_smul_exact(a: int, b: int)
    by (nonlinear_arith)
    requires
        mul_exact(a, b),
        SCALE == 1_000_000_000i128,
    ensures
        smul(a, b) * SCALE == a * b,
{
}

/// No product in the reflection of `v` about `n` rounds anything away.
pub open spec fn reflect_exact(v: SpecVec, n: SpecVec) -> bool {
    &&& mul_exact(v.x, n.x)
    &&& mul_exact(v.y, n.y)
    &&& mul_exact(v.z, n.z)
    &&& mul_exact(n.x, n.x)
    &&& mul_exact(n.y, n.y)
    &&& mul_exact(n.z, n.z)
    &&& mul_exact(n.x, 2 * sv_dot(v, n))
    &&& mul_exact(n.y, 2 * sv_dot(v, n))
    &&& mul_exact(n.z, 2 * sv_dot(v, n))
    &&& mul_exact(2 * sv_dot(v, n), smul(n.x, n.x))
    &&& mul_exact(2 * sv_dot(v, n), smul(n.y, n.y))
    &&& mul_exact(2 * sv_dot(v, n), smul(n.z, n.z))
}

/// One component of the reflected dot product, under exactness.
proof fn lemma_reflect_dot_comp(vi: int, ni: int, d: int)
    requires
        mul_exact(vi, ni),
        mul_exact(ni, ni),
        mul_exact(ni, 2 * d),
        mul_exact(2 * d, smul(ni, ni)),
    ensures
        smul(vi - smul(ni, 2 * d), ni) == smul(vi, ni) - smul(2 * d, smul(ni, ni)),
{
    let c = smul(ni, 2 * d);
    let b = smul(ni, ni);
    let e = smul(2 * d, b);
    let a = smul(vi, ni);
    lemma_smul_exact(ni, 2 * d);
    lemma_smul_exact(ni, ni);
    lemma_smul_exact(2 * d, b);
    lemma_smul_exact(vi, ni);
    assert((vi - c) * ni == (a - e) * SCALE) by (nonlinear_arith)
        requires
            c * SCALE == ni * (2 * d),
            b * SCALE == ni * ni,
            e * SCALE == (2 * d) * b,
            a * SCALE == vi * ni,
            SCALE == 1_000_000_000i128,
    {}
    crate::fixed::lemma_tdiv_mul_exact(a - e, SCALE as int);
}

/// Reflection preserves the magnitude of the projection on the normal
/// and flips its sign: `dot(reflect(v, n), n) == -dot(v, n)`, for a unit
/// normal and inputs on which the fixed-point products are exact.
pub proof fn lemma_reflect_dot(v: SpecVec, n: SpecVec)
    requires
        sv_dot(n, n) == SCALE,
        reflect_exact(v, n),
    ensures
        sv_dot(sv_reflect(v, n), n) == -sv_dot(v, n),
{
    let d = sv_dot(v, n);
    lemma_reflect_dot_comp(v.x, n.x, d);
    lemma_reflect_dot_comp(v.y, n.y, d);
    lemma_reflect_dot_comp(v.z, n.z, d);
    let ex = smul(2 * d, smul(n.x, n.x));
    let ey = smul(2 * d, smul(n.y, n.y));
    let ez = smul(2 * d, smul(n.z, n.z));
    lemma_smul_exact(2 * d, smul(n.x, n.x));
    lemma_smul_exact(2 * d, smul(n.y, n.y));
    lemma_smul_exact(2 * d, smul(n.z, n.z));
    assert(ex + ey + ez == 2 * d) by (nonlinear_arith)
        requires
            ex * SCALE == (2 * d) * smul(n.x, n.x),
            ey * SCALE == (2 * d) * smul(n.y, n.y),
            ez * SCALE == (2 * d) * smul(n.z, n.z),
            smul(n.x, n.x) + smul(n.y, n.y) + smul(n.z, n.z) == SCALE,
            SCALE == 1_000_000_000i128,
    {}
}

/// Reflecting twice about the same unit normal gives back the original
/// vector, on inputs where the fixed-point products are exact.
pub proof fn lemma_reflect_involutive(v: SpecVec, n: SpecVec)
    requires
        sv_dot(n, n) == SCALE,
        reflect_exact(v, n),
    ensures
        sv_reflect(sv_reflect(v, n), n) == v,
{
    let d = sv_dot(v, n);
    let rv = sv_reflect(v, n);
    lemma_reflect_dot(v, n);
    assert(sv_dot(rv, n) == -d);
    assert(2 * sv_dot(rv, n) == -(2 * d));
    lemma_smul_neg(n.x, 2 * d);
    lemma_smul_neg(n.y, 2 * d);
    lemma_smul_neg(n.z, 2 * d);
    assert(sv_reflect(rv, n).x == rv.x + smul(n.x, 2 * d));
    assert(sv_reflect(rv, n).y == rv.y + smul(n.y, 2 * d));
    assert(sv_reflect(rv, n).z == rv.z + smul(n.z, 2 * d));
}


/// The per-component facts behind the normalization error bound.
proof fn lemma_unit_sq_comp(x: int, len2: int)
    requires
        0 <= smul(x, x) <= len2,
        len2 >= SCALE,
    ensures
        ({
            let l = ssqrt(len2);
            let u = sdiv(x, l);
            &&& SCALE * smul(x, x) <= x * x < SCALE * smul(x, x) + SCALE
            &&& SCALE * smul(u, u) <= u * u < SCALE * smul(u, u) + SCALE
            &&& (u * u) * (l * l) <= (x * x) * (SCALE * SCALE)
            &&& (u * u) * (l * l) >= (x * x) * (SCALE * SCALE) - 2 * l * (abs_i(x) * SCALE)
            &&& abs_i(x) <= l + 31_624
        }),
{
    let l = ssqrt(len2);
    let u = sdiv(x, l);
    lemma_ssqrt_bounds(len2);
    assert(l >= SCALE) by (nonlinear_arith)
        requires
            len2 * SCALE < (l + 1) * (l + 1),
            len2 >= SCALE,
            SCALE == 1_000_000_000i128,
            l >= 0,
    {}
    assert(x * x >= 0) by (nonlinear_arith);
    lemma_tdiv_mul_le(x * x, SCALE as int);
    lemma_tdiv_lower(x * x, SCALE as int);
    assert(SCALE * smul(x, x) == smul(x, x) * SCALE) by (nonlinear_arith);
    assert(u * u >= 0) by (nonlinear_arith);
    lemma_tdiv_mul_le(u * u, SCALE as int);
    lemma_tdiv_lower(u * u, SCALE as int);
    assert(SCALE * smul(u, u) == smul(u, u) * SCALE) by (nonlinear_arith);
    lemma_tdiv_rem(x * SCALE, l);
    assert(x * x <= l * l + 2 * l + SCALE) by (nonlinear_arith)
        requires
            x * x < SCALE * smul(x, x) + SCALE,
            smul(x, x) <= len2,
            SCALE > 0,
            len2 * SCALE < (l + 1) * (l + 1),
    {}
    assert(abs_i(x) <= l + 31_624) by (nonlinear_arith)
        requires
            x * x <= l * l + 2 * l + SCALE,
            l >= SCALE,
            SCALE == 1_000_000_000i128,
    {}
    assert((u * u) * (l * l) <= (x * x) * (SCALE * SCALE)
        && (u * u) * (l * l) >= (x * x) * (SCALE * SCALE) - 2 * l * (abs_i(x) * SCALE))
        by (nonlinear_arith)
        requires
            u == tdiv(x * SCALE, l),
            abs_i(x * SCALE - tdiv(x * SCALE, l) * l) < l,
            abs_i(tdiv(x * SCALE, l) * l) <= abs_i(x * SCALE),
            l >= SCALE,
            SCALE == 1_000_000_000i128,
    {}
}

/// Normalizing a vector of length at least one gives a squared length
/// within 1e-8 of one.
pub proof fn lemma_unit_length_squared(v: SpecVec)
    requires
        sv_len2(v) >= SCALE,
    ensures
        abs_i(sv_len2(sv_unit(v)) - SCALE) <= 10,
{
    lemma_len2_term_bounds(v);
    let len2 = sv_len2(v);
    let l = ssqrt(len2);
    lemma_ssqrt_bounds(len2);
    assert(l >= SCALE) by (nonlinear_arith)
        requires
            len2 * SCALE < (l + 1) * (l + 1),
            len2 >= SCALE,
            SCALE == 1_000_000_000i128,
            l >= 0,
    {}
    lemma_unit_sq_comp(v.x, len2);
    lemma_unit_sq_comp(v.y, len2);
    lemma_unit_sq_comp(v.z, len2);
    let ux = sdiv(v.x, l);
    let uy = sdiv(v.y, l);
    let uz = sdiv(v.z, l);
    assert(sv_unit(v) == (SpecVec { x: ux, y: uy, z: uz }));
    let l2u = sv_len2(sv_unit(v));
    let sum_u2 = ux * ux + uy * uy + uz * uz;
    let sum_x2 = v.x * v.x + v.y * v.y + v.z * v.z;
    assert(SCALE * l2u <= sum_u2 < SCALE * l2u + 3 * SCALE);
    assert(SCALE * len2 <= sum_x2 < SCALE * len2 + 3 * SCALE);
    let sum_ax = abs_i(v.x) + abs_i(v.y) + abs_i(v.z);
    assert(sum_ax <= 3 * l + 94_872);
    assert(sum_u2 * (l * l) <= sum_x2 * (SCALE * SCALE)
        && sum_u2 * (l * l) >= sum_x2 * (SCALE * SCALE) - 2 * l * (sum_ax * SCALE))
        by (nonlinear_arith)
        requires
            (ux * ux) * (l * l) <= (v.x * v.x) * (SCALE * SCALE),
            (uy * uy) * (l * l) <= (v.y * v.y) * (SCALE * SCALE),
            (uz * uz) * (l * l) <= (v.z * v.z) * (SCALE * SCALE),
            (ux * ux) * (l * l) >= (v.x * v.x) * (SCALE * SCALE) - 2 * l * (abs_i(v.x) * SCALE),
            (uy * uy) * (l * l) >= (v.y * v.y) * (SCALE * SCALE) - 2 * l * (abs_i(v.y) * SCALE),
            (uz * uz) * (l * l) >= (v.z * v.z) * (SCALE * SCALE) - 2 * l * (abs_i(v.z) * SCALE),
            sum_u2 == ux * ux + uy * uy + uz * uz,
            sum_x2 == v.x * v.x + v.y * v.y + v.z * v.z,
            sum_ax == abs_i(v.x) + abs_i(v.y) + abs_i(v.z),
    {}
    assert(l2u <= SCALE + 10) by (nonlinear_arith)
        requires
            SCALE * l2u <= sum_u2,
            sum_u2 * (l * l) <= sum_x2 * (SCALE * SCALE),
            sum_x2 < SCALE * len2 + 3 * SCALE,
            len2 * SCALE < (l + 1) * (l + 1),
            l >= SCALE,
            SCALE == 1_000_000_000i128,
    {}
    assert(l2u >= SCALE - 10) by (nonlinear_arith)
        requires
            sum_u2 < SCALE * l2u + 3 * SCALE,
            sum_u2 * (l * l) >= sum_x2 * (SCALE * SCALE) - 2 * l * (sum_ax * SCALE),
            sum_x2 >= SCALE * len2,
            len2 * SCALE >= l * l,
            sum_ax <= 3 * l + 94_872,
            l >= SCALE,
            SCALE == 1_000_000_000i128,
    {}
}

/// What `random_unit_vector` promises of its result: it is the exact
/// normalization of some accepted sphere sample.
pub open spec fn is_unit_sample(r: SpecVec) -> bool {
    exists|p: SpecVec|
        sv_bounded(p, SCALE as int) && SAMPLE_LEN2_MIN <= sv_len2(p) < SCALE && r == sv_unit(p)
}

} // verus!
