use vstd::prelude::*;

use crate::fixed::{fdiv, fmul, fsqrt, lemma_ssqrt_bounds, sdiv, smul, ssqrt, tdiv, SCALE};
use crate::interval::Interval;
use crate::vector::{lemma_pair_fit, lemma_tdiv_nonneg, sv_bounded, Vector3};

verus! {

/// A colour is a vector whose components are the linear RGB channels.
pub type Colour = Vector3;

/// Largest magnitude a summed linear colour channel can reach before
/// quantization (a million samples of ten units each).
pub const CHANNEL_SUM_MAX: i128 = 10_000_000_000_000_000;

/// One quantized display pixel.
#[derive(Debug, Default, Clone, Copy, PartialEq, Eq, Structural)]
pub struct Pixel {
    pub r: u8,
    pub g: u8,
    pub b: u8,
}

impl Pixel {
    pub fn new(r: u8, g: u8, b: u8) -> (p: Self)
        ensures
            p.r == r,
            p.g == g,
            p.b == b,
    {
        Self { r, g, b }
    }
}

/// The square-root tone curve, on the scalar already clamped to be
/// nonnegative. A negative linear value quantizes to black, the same
/// outcome the usual floating-point pipeline produces for it.
pub open spec fn spec_gamma(x: int) -> int {
    ssqrt(if x < 0 { 0 } else { x })
}

/// One channel of the quantization: average over the sample count,
/// gamma-correct, clamp to `[0, 1]` and scale to `[0, 255]`.
pub open spec fn spec_channel(x: int, samples: int) -> int {
    let scaled = smul(x, sdiv(SCALE as int, samples * SCALE));
    let gamma = spec_gamma(scaled);
    let clamped = if gamma < 0 { 0 } else if gamma > SCALE { SCALE as int } else { gamma };
    tdiv(clamped * 255, SCALE as int)
}

fn linear_to_gamma(lc: i128) -> (r: i128)
    requires
        lc <= CHANNEL_SUM_MAX,
    ensures
        r == spec_gamma(lc as int),
        0 <= r <= 4_000_000_000_000,
{
    let x: i128 = if lc < 0 { 0 } else { lc };
    let r: i128 = fsqrt(x);
    proof {
        lemma_ssqrt_bounds(x as int);
        assert(r <= 4_000_000_000_000) by (nonlinear_arith)
            requires
                r >= 0,
                (r as int) * (r as int) <= (x as int) * SCALE,
                x <= 10_000_000_000_000_000i128,
                SCALE == 1_000_000_000i128,
        {}
    }
    r
}

/// Average a summed linear colour over its sample count, apply the gamma
/// curve, clamp each channel and quantize to one byte each.
pub fn colour_to_pixel(colour: &Colour, samples_per_pixel: usize) -> (p: Pixel)
    requires
        1 <= samples_per_pixel <= 1_000_000,
        sv_bounded(colour@, CHANNEL_SUM_MAX as int),
    ensures
        p.r == spec_channel(colour@.x, samples_per_pixel as int),
        p.g == spec_channel(colour@.y, samples_per_pixel as int),
        p.b == spec_channel(colour@.z, samples_per_pixel as int),
{
    let interval: Interval = Interval::new(0, SCALE);
    let samples_f: i128 = (samples_per_pixel as i128) * SCALE;
    let sc: i128 = fdiv(SCALE, samples_f);
    proof {
        lemma_tdiv_nonneg(SCALE as int * SCALE as int, samples_f as int);
        assert(SCALE as int * SCALE as int >= 0 && sc <= SCALE) by (nonlinear_arith)
            requires
                sc == tdiv(SCALE as int * SCALE as int, samples_f as int),
                samples_f >= SCALE,
                SCALE == 1_000_000_000i128,
        {}
        lemma_pair_fit(colour@.x, sc as int, 10_000_000_000_000_000, 1_000_000_000,
            10_000_000_000_000_000);
        lemma_pair_fit(colour@.y, sc as int, 10_000_000_000_000_000, 1_000_000_000,
            10_000_000_000_000_000);
        lemma_pair_fit(colour@.z, sc as int, 10_000_000_000_000_000, 1_000_000_000,
            10_000_000_000_000_000);
    }
    let scaled_x: i128 = linear_to_gamma(fmul(colour.x, sc));
    let scaled_y: i128 = linear_to_gamma(fmul(colour.y, sc));
    let scaled_z: i128 = linear_to_gamma(fmul(colour.z, sc));
    let r: u8 = channel_byte(interval.clamp(scaled_x));
    let g: u8 = channel_byte(interval.clamp(scaled_y));
    let b: u8 = channel_byte(interval.clamp(scaled_z));
    Pixel::new(r, g, b)
}

/// Scale a clamped channel to `[0, 255]` and truncate to a byte.
fn channel_byte(clamped: i128) -> (r: u8)
    requires
        0 <= clamped <= SCALE,
    ensures
        r == tdiv(clamped as int * 255, SCALE as int),
{
    let v: i128 = clamped * 255;
    let q: i128 = crate::fixed::div_trunc(v, SCALE);
    proof {
        assert(0 <= tdiv(v as int, SCALE as int) <= 255) by (nonlinear_arith)
            requires
                0 <= v <= 255 * SCALE,
                SCALE == 1_000_000_000i128,
        {}
    }
    q as u8
}

} // verus!
