use vstd::prelude::*;

verus! {

/// Scalars are fixed-point numbers: an `i128` counting multiples of
/// `1 / SCALE`, so the value `1.0` is stored as `SCALE`.
pub const SCALE: i128 = 1_000_000_000;

/// Magnitude bound on the scalars a scene may hold (10^4 in real terms);
/// keeps every intermediate product of the intersection math inside `i128`.
pub const COORD_MAX: i128 = 10_000_000_000_000;

pub open spec fn abs_i(a: int) -> int {
    if a >= 0 { a } else { -a }
}

/// Truncating (toward zero) division, as Rust's `/` computes it.
pub open spec fn tdiv(a: int, b: int) -> int {
    if (a >= 0) == (b >= 0) {
        abs_i(a) / abs_i(b)
    } else {
        -(abs_i(a) / abs_i(b))
    }
}

/// The fixed-point product of two scalars.
pub open spec fn smul(a: int, b: int) -> int {
    tdiv(a * b, SCALE as int)
}

/// The fixed-point quotient of two scalars.
pub open spec fn sdiv(a: int, b: int) -> int {
    tdiv(a * SCALE, b)
}

/// Floor of the square root of a natural number.
pub open spec fn sqrt_floor(x: nat) -> nat
    decreases x,
{
    if x == 0 {
        0
    } else {
        let r = sqrt_floor((x - 1) as nat);
        if (r + 1) * (r + 1) <= x {
            r + 1
        } else {
            r
        }
    }
}

/// The fixed-point square root of a nonnegative scalar.
pub open spec fn ssqrt(a: int) -> int {
    sqrt_floor((a * SCALE) as nat) as int
}

pub proof fn lemma_sqrt_floor_bounds(x: nat)
    ensures
        sqrt_floor(x) * sqrt_floor(x) <= x,
        x < (sqrt_floor(x) + 1) * (sqrt_floor(x) + 1),
    decreases x,
{
    if x > 0 {
        lemma_sqrt_floor_bounds((x - 1) as nat);
        let r = sqrt_floor((x - 1) as nat);
        if (r + 1) * (r + 1) <= x {
            assert(sqrt_floor(x) == r + 1);
            let s = sqrt_floor(x);
            assert(x < (s + 1) * (s + 1)) by (nonlinear_arith)
                requires
                    s == r + 1,
                    (x - 1) < (r + 1) * (r + 1),
                    (r + 1) * (r + 1) <= x,
            {}
        } else {
            assert(sqrt_floor(x) == r);
            assert(r * r <= x - 1 <= x);
        }
    } else {
        assert(x < (sqrt_floor(x) + 1) * (sqrt_floor(x) + 1)) by (nonlinear_arith)
            requires
                x == 0,
                sqrt_floor(x) == 0,
        {}
    }
}

pub proof fn lemma_sqrt_unique(x: int, r: int, s: int)
    by (nonlinear_arith)
    requires
        r >= 0,
        s >= 0,
        r * r <= x < (r + 1) * (r + 1),
        s * s <= x < (s + 1) * (s + 1),
    ensures
        r == s,
{
}

/// Truncating division for any positive divisor.
pub fn div_trunc(a: i128, b: i128) -> (q: i128)
    requires
        b > 0,
        a > i128::MIN,
    ensures
        q == tdiv(a as int, b as int),
        abs_i(q as int) <= abs_i(a as int),
{
    if a >= 0 {
        a / b
    } else {
        let n: i128 = -a;
        -(n / b)
    }
}

/// Truncating division for any nonzero divisor.
pub fn div_trunc_any(a: i128, b: i128) -> (q: i128)
    requires
        b != 0,
        a > i128::MIN,
        b > i128::MIN,
    ensures
        q == tdiv(a as int, b as int),
        abs_i(q as int) <= abs_i(a as int),
{
    if b > 0 {
        div_trunc(a, b)
    } else {
        let n: i128 = -b;
        let q: i128 = div_trunc(a, n);
        assert(tdiv(a as int, b as int) == -tdiv(a as int, n as int));
        -q
    }
}

/// Fixed-point multiplication: `a * b / SCALE`, truncated toward zero.
pub fn fmul(a: i128, b: i128) -> (r: i128)
    requires
        -i128::MAX <= a * b <= i128::MAX,
    ensures
        r == smul(a as int, b as int),
        abs_i(r as int) * (SCALE as int) <= abs_i(a as int) * abs_i(b as int),
{
    let p: i128 = a * b;
    let q: i128 = div_trunc(p, SCALE);
    proof {
        lemma_tdiv_abs_scaled(p as int, SCALE as int);
        assert(abs_i((a * b) as int) == abs_i(a as int) * abs_i(b as int)) by (nonlinear_arith);
    }
    q
}

/// Fixed-point division: `a * SCALE / b`, truncated toward zero.
pub fn fdiv(a: i128, b: i128) -> (r: i128)
    requires
        b != 0,
        b > i128::MIN,
        -i128::MAX <= a * SCALE <= i128::MAX,
    ensures
        r == sdiv(a as int, b as int),
{
    let p: i128 = a * SCALE;
    div_trunc_any(p, b)
}

proof fn lemma_tdiv_abs_scaled(a: int, b: int)
    by (nonlinear_arith)
    requires
        b > 0,
    ensures
        abs_i(tdiv(a, b)) * b <= abs_i(a),
{
}

/// Floor square root of a `u128`, by binary search on the root.
pub fn isqrt(x: u128) -> (r: u128)
    ensures
        r == sqrt_floor(x as nat),
        r * r <= x,
        x < (r + 1) * (r + 1),
{
    let mut lo: u128 = 0;
    let mut hi: u128 = 0x1_0000_0000_0000_0000u128;
    proof {
        assert(hi * hi > u128::MAX) by (nonlinear_arith)
            requires
                hi == 0x1_0000_0000_0000_0000u128,
        {}
    }
    while hi - lo > 1
        invariant
            0 <= lo < hi <= 0x1_0000_0000_0000_0000u128,
            lo * lo <= x,
            x < hi * hi,
        decreases hi - lo,
    {
        let mid: u128 = lo + (hi - lo) / 2;
        proof {
            assert(mid * mid <= (0xffff_ffff_ffff_ffffu128) * (0xffff_ffff_ffff_ffffu128))
                by (nonlinear_arith)
                requires
                    0 <= mid <= 0xffff_ffff_ffff_ffffu128,
            {}
        }
        if mid * mid <= x {
            lo = mid;
        } else {
            hi = mid;
        }
    }
    proof {
        lemma_sqrt_floor_bounds(x as nat);
        lemma_sqrt_unique(x as int, lo as int, sqrt_floor(x as nat) as int);
    }
    lo
}

/// Fixed-point square root of a nonnegative scalar.
pub fn fsqrt(a: i128) -> (r: i128)
    requires
        0 <= a,
        a * SCALE <= i128::MAX,
    ensures
        r == ssqrt(a as int),
        r >= 0,
{
    let p: i128 = a * SCALE;
    let u: u128 = isqrt(p as u128);
    proof {
        lemma_sqrt_floor_bounds((p as u128) as nat);
        assert(sqrt_floor((p as u128) as nat) * sqrt_floor((p as u128) as nat) <= (p as u128) as nat);
        assert(sqrt_floor((p as u128) as nat) < 0x1_0000_0000_0000_0000) by (nonlinear_arith)
            requires
                sqrt_floor((p as u128) as nat) * sqrt_floor((p as u128) as nat) <= (p as u128) as nat,
                (p as u128) as nat <= u128::MAX,
        {}
    }
    u as i128
}


/// The truncating quotient undershoots the dividend by less than one
/// divisor.
pub proof fn lemma_tdiv_lower(a: int, b: int)
    by (nonlinear_arith)
    requires
        a >= 0,
        b > 0,
    ensures
        a < b * tdiv(a, b) + b,
{
}

/// Truncating division is odd in its dividend.
pub proof fn lemma_tdiv_neg(a: int, b: int)
    by (nonlinear_arith)
    requires
        b > 0,
    ensures
        tdiv(-a, b) == -tdiv(a, b),
{
}

/// Negating one factor negates the fixed-point product.
pub proof fn lemma_smul_neg(a: int, b: int)
    ensures
        smul(a, -b) == -smul(a, b),
        smul(-a, b) == -smul(a, b),
{
    assert(a * (-b) == -(a * b)) by (nonlinear_arith);
    assert((-a) * b == -(a * b)) by (nonlinear_arith);
    lemma_tdiv_neg(a * b, SCALE as int);
}

/// The fixed-point square root lies under the scaled square and over it
/// at the next step.
pub proof fn lemma_ssqrt_bounds(a: int)
    requires
        a >= 0,
    ensures
        ssqrt(a) >= 0,
        ssqrt(a) * ssqrt(a) <= a * SCALE,
        a * SCALE < (ssqrt(a) + 1) * (ssqrt(a) + 1),
{
    assert(a * SCALE >= 0) by (nonlinear_arith)
        requires
            a >= 0,
            SCALE == 1_000_000_000i128,
    {}
    lemma_sqrt_floor_bounds((a * SCALE) as nat);
}


/// Multiplying by the zero scalar gives zero.
pub proof fn lemma_smul_zero(a: int)
    ensures
        smul(a, 0) == 0,
        smul(0, a) == 0,
{
    assert(a * 0 == 0) by (nonlinear_arith);
    assert(0 * a == 0) by (nonlinear_arith);
}


/// Dividing an exact multiple gives back the factor.
pub proof fn lemma_tdiv_mul_exact(a: int, b: int)
    by (nonlinear_arith)
    requires
        b > 0,
    ensures
        tdiv(a * b, b) == a,
{
}

/// A zero dividend gives a zero quotient.
pub proof fn lemma_tdiv_zero(b: int)
    by (nonlinear_arith)
    requires
        b != 0,
    ensures
        tdiv(0, b) == 0,
{
}


/// The truncating quotient scaled back never overshoots the dividend.
pub proof fn lemma_tdiv_mul_le(a: int, b: int)
    by (nonlinear_arith)
    requires
        a >= 0,
        b > 0,
    ensures
        tdiv(a, b) * b <= a,
{
}

/// The remainder a truncating division leaves is smaller than the
/// divisor, and scaling the quotient back never grows the magnitude.
pub proof fn lemma_tdiv_rem(a: int, b: int)
    by (nonlinear_arith)
    requires
        b > 0,
    ensures
        abs_i(a - tdiv(a, b) * b) < b,
        abs_i(tdiv(a, b) * b) <= abs_i(a),
{
}

} // verus!
