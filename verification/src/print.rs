use vstd::prelude::*;
use crate::math::{
    SCALE, div_trunc, mul_fx, sqrt_fx, sqrt_fx64, mul_fx64, lemma_div_trunc_bound,
    lemma_div_trunc_mono, lemma_div_trunc_abs_le, lemma_sqrt_floor_mono, lemma_mul_fx_bound,
};
use crate::vec3::Color;

verus! {

/// A value held to a closed interval.
pub open spec fn clamp_spec(x: int, min: int, max: int) -> int {
    if x < min {
        min
    } else if x > max {
        max
    } else {
        x
    }
}

/// Hold `x` to the interval [min, max].
pub fn clamp(x: i64, min: i64, max: i64) -> (r: i64)
    ensures
        r == clamp_spec(x as int, min as int, max as int),
{
    if x < min {
        return min;
    }
    if x > max {
        return max;
    }
    x
}

/// One output channel: the accumulated channel averaged over the sample
/// count, gamma-corrected by a square root, held to [0, 0.999], and widened
/// to the 8-bit output range.
pub open spec fn encode_channel_spec(sum: int, samples: int) -> int {
    div_trunc(
        255_999 * clamp_spec(sqrt_fx(div_trunc(sum, samples)), 0, 999_000),
        1_000_000_000,
    )
}

/// The inverse stage: an 8-bit channel taken back through the widening and
/// the gamma curve to an accumulated-intensity value.
pub open spec fn decode_channel_spec(q: int) -> int {
    let g = div_trunc(q * 1_000_000_000, 255_999);
    mul_fx(g, g)
}

/// Encode one accumulated channel for output.
pub fn encode_channel(sum: i64, samples_per_pixel: u32) -> (q: i16)
    requires
        sum >= 0,
        samples_per_pixel >= 1,
    ensures
        q == encode_channel_spec(sum as int, samples_per_pixel as int),
        0 <= q <= 255,
{
    let scaled: i64 = sum / (samples_per_pixel as i64);
    proof {
        lemma_div_trunc_bound(sum as int, samples_per_pixel as int);
        assert(scaled == div_trunc(sum as int, samples_per_pixel as int));
    }
    let g: i64 = sqrt_fx64(scaled);
    let c: i64 = clamp(g, 0, 999_000);
    let wide: i64 = 255_999 * c;
    let q: i64 = wide / 1_000_000_000;
    proof {
        lemma_encode_range(sum as int, samples_per_pixel as int);
        assert(q == div_trunc(wide as int, 1_000_000_000));
    }
    q as i16
}

/// Decode one output channel back to an accumulated-intensity value.
pub fn decode_channel(q: i16) -> (sum: i64)
    requires
        0 <= q <= 255,
    ensures
        sum == decode_channel_spec(q as int),
        0 <= sum <= SCALE,
{
    let wide: i64 = (q as i64) * 1_000_000_000;
    let g: i64 = wide / 255_999;
    proof {
        assert(g == div_trunc(wide as int, 255_999));
        lemma_div_trunc_abs_le(wide as int, 255_999, SCALE as int);
        lemma_div_trunc_bound(wide as int, 255_999);
        lemma_mul_fx_bound(g as int, g as int, SCALE as int, SCALE as int);
        vstd::arithmetic::div_mod::lemma_div_multiples_vanish(SCALE as int, SCALE as int);
        assert((g as int) * (g as int) >= 0) by (nonlinear_arith);
        lemma_div_trunc_bound((g as int) * (g as int), SCALE as int);
    }
    mul_fx64(g, g)
}

/// The full output pixel: the three accumulated channels encoded in order.
pub fn encode_color(pixel_color: Color, samples_per_pixel: u32) -> (rgb: (i16, i16, i16))
    requires
        pixel_color@.x >= 0,
        pixel_color@.y >= 0,
        pixel_color@.z >= 0,
        samples_per_pixel >= 1,
    ensures
        rgb.0 == encode_channel_spec(pixel_color@.x, samples_per_pixel as int),
        rgb.1 == encode_channel_spec(pixel_color@.y, samples_per_pixel as int),
        rgb.2 == encode_channel_spec(pixel_color@.z, samples_per_pixel as int),
{
    (
        encode_channel(pixel_color.x, samples_per_pixel),
        encode_channel(pixel_color.y, samples_per_pixel),
        encode_channel(pixel_color.z, samples_per_pixel),
    )
}

/// Encoding is monotone: a channel at least as bright going in comes out at
/// least as bright, whatever the (shared) sample count.
pub proof fn lemma_encode_monotone(s1: int, s2: int, samples: int)
    requires
        0 <= s1 <= s2,
        samples >= 1,
    ensures
        encode_channel_spec(s1, samples) <= encode_channel_spec(s2, samples),
{
    lemma_div_trunc_mono(s1, s2, samples);
    lemma_div_trunc_bound(s1, samples);
    let a1 = div_trunc(s1, samples);
    let a2 = div_trunc(s2, samples);
    lemma_sqrt_fx_mono(a1, a2);
    let g1 = sqrt_fx(a1);
    let g2 = sqrt_fx(a2);
    let c1 = clamp_spec(g1, 0, 999_000);
    let c2 = clamp_spec(g2, 0, 999_000);
    assert(c1 <= c2);
    assert(255_999 * c1 <= 255_999 * c2);
    lemma_div_trunc_mono(255_999 * c1, 255_999 * c2, 1_000_000_000);
}

/// Decoding is monotone: a brighter output channel stands for an intensity
/// at least as bright.
pub proof fn lemma_decode_monotone(q1: int, q2: int)
    requires
        0 <= q1 <= q2 <= 255,
    ensures
        decode_channel_spec(q1) <= decode_channel_spec(q2),
{
    lemma_div_trunc_mono(q1 * 1_000_000_000, q2 * 1_000_000_000, 255_999);
    lemma_div_trunc_bound(q1 * 1_000_000_000, 255_999);
    let g1 = div_trunc(q1 * 1_000_000_000, 255_999);
    let g2 = div_trunc(q2 * 1_000_000_000, 255_999);
    assert(0 <= g1 <= g2);
    assert(g1 * g1 <= g2 * g2) by (nonlinear_arith)
        requires
            0 <= g1 <= g2,
    ;
    lemma_div_trunc_mono(g1 * g1, g2 * g2, SCALE as int);
}

/// A round trip through the output stage keeps the order of intensities: a
/// brighter accumulated channel never decodes below a dimmer one.
pub proof fn lemma_round_trip_monotone(s1: int, s2: int, samples: int)
    requires
        0 <= s1 <= s2,
        samples >= 1,
    ensures
        decode_channel_spec(encode_channel_spec(s1, samples)) <= decode_channel_spec(
            encode_channel_spec(s2, samples),
        ),
{
    lemma_encode_monotone(s1, s2, samples);
    lemma_encode_range(s1, samples);
    lemma_encode_range(s2, samples);
    lemma_decode_monotone(
        encode_channel_spec(s1, samples),
        encode_channel_spec(s2, samples),
    );
}

/// An encoded channel lies in the 8-bit range.
pub proof fn lemma_encode_range(sum: int, samples: int)
    requires
        0 <= sum,
        samples >= 1,
    ensures
        0 <= encode_channel_spec(sum, samples) <= 255,
{
    let a = div_trunc(sum, samples);
    let g = sqrt_fx(a);
    let c = clamp_spec(g, 0, 999_000);
    crate::math::lemma_sqrt_fx_nonneg(a);
    assert(0 <= c <= 999_000);
    assert(0 <= 255_999 * c <= 255_743_001_000);
    lemma_div_trunc_bound(255_999 * c, 1_000_000_000);
    vstd::arithmetic::div_mod::lemma_multiply_divide_lt(255_999 * c, 1_000_000_000, 256);
    assert(encode_channel_spec(sum, samples) == (255_999 * c) / 1_000_000_000);
}

/// The square-root stage is monotone.
proof fn lemma_sqrt_fx_mono(x1: int, x2: int)
    requires
        x1 <= x2,
    ensures
        sqrt_fx(x1) <= sqrt_fx(x2),
        sqrt_fx(x1) >= 0,
{
    crate::math::lemma_sqrt_fx_nonneg(x1);
    if x1 > 0 {
        assert(x1 * SCALE <= x2 * SCALE);
        lemma_sqrt_floor_mono((x1 * SCALE) as nat, (x2 * SCALE) as nat);
    }
}

} // verus!
