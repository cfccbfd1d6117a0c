use vstd::prelude::*;
use vstd::math::abs;

verus! {

/// Scale of the fixed-point representation used throughout the library:
/// the raw integer `n` stands for the real number `n / SCALE`.
pub const SCALE: i64 = 1_000_000;

/// Parametric bias used by the integrator when it queries the scene, so that
/// a ray spawned on a surface does not immediately hit that surface again.
pub const T_MIN_HIT: i64 = 1_000;

/// Largest parametric distance the integrator searches; stands in for an
/// unbounded search, far beyond any representable scene.
pub const T_INF: i64 = 10_000_000_000_000;

/// Bound on the coordinates of scene geometry (sphere centers, camera points)
/// and on sphere radii.
pub const MAX_COORD: i64 = 10_000_000_000;

/// Smallest sphere radius magnitude the library accepts; a zero radius would
/// divide by zero when the surface normal is formed.
pub const MIN_RADIUS: i64 = 1_000;

/// Bound on the components of a ray direction accepted by the intersection
/// routines.
pub const MAX_DIR: i64 = 100_000_000;

/// Bound on the components of a ray origin accepted by the intersection
/// routines.
pub const MAX_ORIGIN: i64 = 4_000_000_000_000_000;

/// True when the mathematical integer `n` is representable as an `i64`.
pub open spec fn fits_i64(n: int) -> bool {
    i64::MIN <= n <= i64::MAX
}

/// Division rounding toward zero, the semantics of Rust's `/` on signed
/// integers. `/` on `int` is Euclidean division, which differs on negative
/// numerators, so contracts use this function wherever the code divides.
pub open spec fn div_trunc(n: int, d: int) -> int {
    let q = abs(n) as int / abs(d) as int;
    if (n >= 0) == (d >= 0) {
        q
    } else {
        -q
    }
}

/// Fixed-point multiplication: the raw product rescaled by `SCALE`,
/// rounded toward zero.
pub open spec fn mul_fx(a: int, b: int) -> int {
    div_trunc(a * b, SCALE as int)
}

/// Floor of the square root of `n`.
pub open spec fn sqrt_floor(n: nat) -> nat
    decreases n,
{
    if n == 0 {
        0
    } else {
        let r = sqrt_floor((n - 1) as nat);
        if (r + 1) * (r + 1) <= n {
            r + 1
        } else {
            r
        }
    }
}

/// `sqrt_floor(n)` is the unique integer whose square is at most `n` while
/// the next square is above `n`.
pub proof fn lemma_sqrt_floor(n: nat)
    ensures
        sqrt_floor(n) * sqrt_floor(n) <= n,
        n < (sqrt_floor(n) + 1) * (sqrt_floor(n) + 1),
    decreases n,
{
    if n > 0 {
        lemma_sqrt_floor((n - 1) as nat);
        let r = sqrt_floor((n - 1) as nat);
        assert(sqrt_floor(n) == if (r + 1) * (r + 1) <= n {
            r + 1
        } else {
            r
        });
        if (r + 1) * (r + 1) <= n {
            assert(sqrt_floor(n) * sqrt_floor(n) <= n && n < (sqrt_floor(n) + 1) * (sqrt_floor(
                n,
            ) + 1)) by (nonlinear_arith)
                requires
                    sqrt_floor(n) == r + 1,
                    (r + 1) * (r + 1) <= n,
                    n <= (r + 1) * (r + 1),
                    r >= 0,
            ;
        } else {
            assert(r * r <= n - 1);
            assert(sqrt_floor(n) * sqrt_floor(n) <= n && n < (sqrt_floor(n) + 1) * (sqrt_floor(
                n,
            ) + 1)) by (nonlinear_arith)
                requires
                    sqrt_floor(n) == r,
                    r * r <= n,
                    n < (r + 1) * (r + 1),
            ;
        }
    } else {
        assert(sqrt_floor(0nat) == 0);
        assert(n < (sqrt_floor(n) + 1) * (sqrt_floor(n) + 1)) by (nonlinear_arith)
            requires
                n == 0,
                sqrt_floor(n) == 0,
        ;
    }
}

/// Any integer that brackets `n` between consecutive squares is `sqrt_floor(n)`.
pub proof fn lemma_sqrt_floor_unique(n: nat, r: nat)
    requires
        r * r <= n,
        n < (r + 1) * (r + 1),
    ensures
        r == sqrt_floor(n),
{
    lemma_sqrt_floor(n);
    let s = sqrt_floor(n);
    assert(r == s) by (nonlinear_arith)
        requires
            r * r <= n,
            n < (r + 1) * (r + 1),
            s * s <= n,
            n < (s + 1) * (s + 1),
            r >= 0,
            s >= 0,
    ;
}

/// Truncating division by a positive divisor never grows magnitude and
/// preserves sign.
pub proof fn lemma_div_trunc_bound(n: int, d: int)
    requires
        d >= 1,
    ensures
        abs(div_trunc(n, d)) <= abs(n),
        d * abs(div_trunc(n, d)) <= abs(n),
        n >= 0 ==> div_trunc(n, d) >= 0,
        n <= 0 ==> div_trunc(n, d) <= 0,
{
    let a = abs(n) as int;
    let q = a / d;
    vstd::arithmetic::div_mod::lemma_div_pos_is_pos(a, d);
    vstd::arithmetic::div_mod::lemma_fundamental_div_mod(a, d);
    vstd::arithmetic::div_mod::lemma_remainder_lower(a, d);
    assert(d * q <= a);
    assert(q <= a) by (nonlinear_arith)
        requires
            d >= 1,
            q >= 0,
            d * q <= a,
    ;
}

/// The floor square root is monotone.
pub proof fn lemma_sqrt_floor_mono(n1: nat, n2: nat)
    requires
        n1 <= n2,
    ensures
        sqrt_floor(n1) <= sqrt_floor(n2),
{
    lemma_sqrt_floor(n1);
    lemma_sqrt_floor(n2);
    let r1 = sqrt_floor(n1);
    let r2 = sqrt_floor(n2);
    assert(r1 <= r2) by (nonlinear_arith)
        requires
            r1 * r1 <= n1,
            n1 <= n2,
            n2 < (r2 + 1) * (r2 + 1),
            r1 >= 0,
            r2 >= 0,
    ;
}

/// Truncating division by a positive divisor is monotone in the numerator.
pub proof fn lemma_div_trunc_mono(n1: int, n2: int, d: int)
    requires
        d >= 1,
        n1 <= n2,
    ensures
        div_trunc(n1, d) <= div_trunc(n2, d),
{
    if n1 >= 0 {
        vstd::arithmetic::div_mod::lemma_div_is_ordered(n1, n2, d);
    } else if n2 <= 0 {
        vstd::arithmetic::div_mod::lemma_div_is_ordered(-n2, -n1, d);
    } else {
        lemma_div_trunc_bound(n1, d);
        lemma_div_trunc_bound(n2, d);
    }
}

/// Exact characterization of truncating division by a positive divisor:
/// the quotient times the divisor lands within `d` of the numerator, on the
/// side of zero.
pub proof fn lemma_div_trunc_exact(n: int, d: int)
    requires
        d >= 1,
    ensures
        n >= 0 ==> n - d < d * div_trunc(n, d) <= n,
        n <= 0 ==> n <= d * div_trunc(n, d) < n + d,
{
    let a = abs(n) as int;
    assert(abs(d) as int == d);
    vstd::arithmetic::div_mod::lemma_fundamental_div_mod(a, d);
    vstd::arithmetic::div_mod::lemma_remainder_lower(a, d);
    vstd::arithmetic::div_mod::lemma_remainder_upper(a, d);
    let q = a / d;
    assert(a - d < d * q <= a);
    if n >= 0 {
        assert(div_trunc(n, d) == q);
    } else {
        assert(div_trunc(n, d) == -q);
        vstd::arithmetic::mul::lemma_mul_unary_negation(d, q);
    }
}

/// The number pi in the fixed-point scale, rounded to the nearest raw unit.
pub const PI_FX: i64 = 3_141_593;

/// Magnitude bound for a fixed-point product: bounds on both factors carry
/// over to the rescaled product.
pub proof fn lemma_mul_fx_bound(a: int, b: int, ba: int, bb: int)
    requires
        abs(a) <= ba,
        abs(b) <= bb,
    ensures
        abs(mul_fx(a, b)) <= ba * bb / (SCALE as int),
        abs(mul_fx(a, b)) * (SCALE as int) <= ba * bb,
        a >= 0 && b >= 0 ==> mul_fx(a, b) >= 0,
{
    let x = a * b;
    assert(-(ba * bb) <= x <= ba * bb && (a >= 0 && b >= 0 ==> x >= 0)) by (nonlinear_arith)
        requires
            -ba <= a <= ba,
            -bb <= b <= bb,
            x == a * b,
    ;
    assert(abs(x) <= ba * bb);
    vstd::arithmetic::div_mod::lemma_div_is_ordered(abs(x) as int, ba * bb, SCALE as int);
    assert(abs(mul_fx(a, b)) == abs(x) as int / (SCALE as int));
    lemma_div_trunc_bound(x, SCALE as int);
    assert(abs(x) as int / (SCALE as int) * (SCALE as int) <= ba * bb) by {
        vstd::arithmetic::div_mod::lemma_fundamental_div_mod(abs(x) as int, SCALE as int);
        vstd::arithmetic::div_mod::lemma_remainder_lower(abs(x) as int, SCALE as int);
        assert((SCALE as int) * (abs(x) as int / (SCALE as int)) <= abs(x));
        vstd::arithmetic::mul::lemma_mul_is_commutative(
            SCALE as int,
            abs(x) as int / (SCALE as int),
        );
    }
}

/// One is the multiplicative identity of the fixed-point product, exactly:
/// the rescaling division cancels the scale factor with no remainder.
pub proof fn lemma_mul_fx_one(x: int)
    ensures
        mul_fx(SCALE as int, x) == x,
{
    let s = SCALE as int;
    if x >= 0 {
        vstd::arithmetic::div_mod::lemma_div_multiples_vanish(x, s);
        assert(mul_fx(s, x) == (s * x) / s);
    } else {
        assert(s * x < 0) by (nonlinear_arith)
            requires
                s >= 1,
                x < 0,
        ;
        assert(abs(s * x) == s * (-x)) by (nonlinear_arith)
            requires
                s >= 1,
                x < 0,
        ;
        vstd::arithmetic::div_mod::lemma_div_multiples_vanish(-x, s);
        assert(mul_fx(s, x) == -((s * (-x)) / s));
    }
}

/// A fixed-point product of a positive factor with a nonnegative factor
/// below one stays below the positive factor.
pub proof fn lemma_mul_fx_unit_bound(d: int, u: int)
    requires
        d >= 1,
        0 <= u < SCALE as int,
    ensures
        0 <= mul_fx(d, u) < d,
{
    assert(0 <= d * u && d * u < (SCALE as int) * d) by (nonlinear_arith)
        requires
            d >= 1,
            0 <= u < SCALE as int,
    ;
    vstd::arithmetic::div_mod::lemma_multiply_divide_lt(d * u, SCALE as int, d);
    assert(mul_fx(d, u) == (d * u) / (SCALE as int));
}

/// Truncating division of `i128` values by a positive divisor.
pub fn div_i128(n: i128, d: i128) -> (q: i128)
    requires
        d >= 1,
        n > i128::MIN,
    ensures
        q == div_trunc(n as int, d as int),
{
    proof {
        lemma_div_trunc_bound(n as int, d as int);
    }
    if n >= 0 {
        let q: i128 = (n as u128 / d as u128) as i128;
        proof {
            assert(n as u128 == n && d as u128 == d);
        }
        q
    } else {
        let m: u128 = (-n) as u128;
        let q: u128 = m / d as u128;
        proof {
            assert(m == -(n as int) && d as u128 == d);
            assert(q == abs(n as int) as int / (d as int));
        }
        -(q as i128)
    }
}

/// Fixed-point multiplication of raw scalars.
pub fn mul_fx64(a: i64, b: i64) -> (r: i64)
    requires
        fits_i64(mul_fx(a as int, b as int)),
    ensures
        r == mul_fx(a as int, b as int),
{
    proof {
        assert(i128::MIN < (a as int) * (b as int) <= i128::MAX) by (nonlinear_arith)
            requires
                i64::MIN <= a <= i64::MAX,
                i64::MIN <= b <= i64::MAX,
        ;
    }
    let p: i128 = (a as i128) * (b as i128);
    let q: i128 = div_i128(p, SCALE as i128);
    q as i64
}

/// Floor of the square root of a `u128`, by bisection.
pub fn isqrt(n: u128) -> (r: u64)
    requires
        n <= (u64::MAX as int) * (u64::MAX as int),
    ensures
        (r as int) * (r as int) <= n,
        n < (r as int + 1) * (r as int + 1),
        r == sqrt_floor(n as nat),
{
    let mut lo: u128 = 0;
    let mut hi: u128 = 0x1_0000_0000_0000_0000u128;
    proof {
        assert(n < hi * hi) by (nonlinear_arith)
            requires
                n <= (u64::MAX as int) * (u64::MAX as int),
                hi == u64::MAX as int + 1,
        ;
    }
    while hi - lo > 1
        invariant
            0 <= lo < hi <= 0x1_0000_0000_0000_0000u128,
            lo * lo <= n,
            n < hi * hi,
        decreases hi - lo,
    {
        let mid: u128 = lo + (hi - lo) / 2;
        proof {
            assert(lo < mid < hi);
            assert(mid <= u64::MAX as int);
            assert(mid * mid <= (u64::MAX as int) * (u64::MAX as int)) by (nonlinear_arith)
                requires
                    0 <= mid <= u64::MAX as int,
            ;
        }
        let sq: u128 = mid * mid;
        if sq <= n {
            lo = mid;
        } else {
            hi = mid;
        }
    }
    proof {
        assert(hi == lo + 1);
        lemma_sqrt_floor_unique(n as nat, lo as nat);
    }
    lo as u64
}

/// A numerator bounded by `d * m` divides down to at most `m`.
pub proof fn lemma_div_trunc_abs_le(n: int, d: int, m: int)
    requires
        d >= 1,
        m >= 0,
        abs(n) <= d * m,
    ensures
        abs(div_trunc(n, d)) <= m,
{
    vstd::arithmetic::div_mod::lemma_multiply_divide_le(abs(n) as int, d, m);
    assert(abs(div_trunc(n, d)) == abs(n) as int / d);
}

/// A numerator bounded by `|d| * m` divides down to at most `m`, whatever
/// the divisor's sign.
pub proof fn lemma_div_trunc_abs_le_gen(n: int, d: int, m: int)
    requires
        d != 0,
        m >= 0,
        abs(n) <= abs(d) * m,
    ensures
        abs(div_trunc(n, d)) <= m,
{
    vstd::arithmetic::div_mod::lemma_multiply_divide_le(abs(n) as int, abs(d) as int, m);
    assert(abs(div_trunc(n, d)) == abs(n) as int / abs(d) as int);
}

/// The fixed-point square root of a raw scalar, zero below zero.
pub open spec fn sqrt_fx(x: int) -> int {
    if x <= 0 {
        0
    } else {
        sqrt_floor((x * SCALE) as nat) as int
    }
}

/// Executable fixed-point square root.
pub fn sqrt_fx64(x: i64) -> (r: i64)
    requires
        x >= 0,
    ensures
        r == sqrt_fx(x as int),
        0 <= r <= 4_000_000_000_000,
{
    proof {
        assert(0 <= (x as int) * (SCALE as int) <= (u64::MAX as int) * (u64::MAX as int))
            by (nonlinear_arith)
            requires
                0 <= x <= i64::MAX,
        ;
    }
    let n: u128 = (x as u128) * (SCALE as u128);
    let r: u64 = isqrt(n);
    proof {
        assert(n <= (i64::MAX as int) * (SCALE as int)) by (nonlinear_arith)
            requires
                n == (x as int) * (SCALE as int),
                0 <= x <= i64::MAX,
        ;
        assert(r <= 4_000_000_000_000) by (nonlinear_arith)
            requires
                (r as int) * (r as int) <= n,
                n <= (i64::MAX as int) * (SCALE as int),
        ;
        if x > 0 {
            assert(sqrt_fx(x as int) == sqrt_floor(((x as int) * (SCALE as int)) as nat));
        } else {
            assert(n == 0) by (nonlinear_arith)
                requires
                    n == (x as int) * (SCALE as int),
                    x == 0,
            ;
            assert(sqrt_floor(0nat) == 0);
        }
    }
    r as i64
}

/// The fixed-point square root is never negative.
pub proof fn lemma_sqrt_fx_nonneg(x: int)
    ensures
        sqrt_fx(x) >= 0,
{
}

/// The fixed-point square root of a value at most one is at most one.
pub proof fn lemma_sqrt_fx_le_scale(x: int)
    requires
        x <= SCALE,
    ensures
        0 <= sqrt_fx(x) <= SCALE,
{
    if x > 0 {
        lemma_sqrt_floor((x * SCALE) as nat);
        let r = sqrt_floor((x * SCALE) as nat) as int;
        assert(r <= SCALE) by (nonlinear_arith)
            requires
                r * r <= x * (SCALE as int),
                0 < x <= SCALE,
                r >= 0,
        ;
    }
}

/// Relies on rand's `Rng::gen_range` over the thread-local generator: the
/// sample lies in the half-open range handed to it.
#[verifier::external_body]
fn sample_below_scale() -> (r: i64)
    ensures
        0 <= r < SCALE,
{
    rand::Rng::gen_range(&mut rand::thread_rng(), 0i64..SCALE)
}

/// A sample of the unit interval: a raw fixed-point value in [0, 1).
pub fn random_double() -> (r: i64)
    ensures
        0 <= r < SCALE,
{
    sample_below_scale()
}

/// A sample of the half-open interval [min, max).
pub fn random_double_range(min: i64, max: i64) -> (r: i64)
    requires
        min < max,
        fits_i64(max - min),
    ensures
        min <= r < max,
{
    let width: i64 = max - min;
    let u: i64 = random_double();
    proof {
        lemma_mul_fx_unit_bound(width as int, u as int);
    }
    let offset: i64 = mul_fx64(width, u);
    min + offset
}

/// An angle in degrees converted to fixed-point radians.
pub fn degrees_to_radians(degrees: i64) -> (r: i64)
    requires
        abs(degrees as int) <= MAX_COORD,
    ensures
        r == div_trunc(degrees * PI_FX, 180 * SCALE),
{
    proof {
        lemma_mul_fx_bound(degrees as int, PI_FX as int, MAX_COORD as int, PI_FX as int);
        lemma_div_trunc_bound(degrees * PI_FX, 180 * (SCALE as int));
        assert(abs(degrees * PI_FX) <= MAX_COORD * PI_FX) by (nonlinear_arith)
            requires
                abs(degrees as int) <= MAX_COORD,
        ;
    }
    let p: i128 = (degrees as i128) * (PI_FX as i128);
    let q: i128 = div_i128(p, 180 * SCALE as i128);
    q as i64
}

/// Exact account of the Schlick reflectance approximation in fixed point:
/// the base reflectance at normal incidence plus its angle-dependent rise.
pub open spec fn schlick_r0(ref_idx: int) -> int {
    let q = div_trunc((SCALE - ref_idx) * SCALE, SCALE + ref_idx);
    mul_fx(q, q)
}

/// Fifth power in fixed point, rounding toward zero at each product.
pub open spec fn pow5_fx(d: int) -> int {
    mul_fx(mul_fx(mul_fx(mul_fx(d, d), d), d), d)
}

/// The Schlick reflectance for an incidence cosine and relative index.
pub open spec fn schlick_spec(cosine: int, ref_idx: int) -> int {
    schlick_r0(ref_idx) + mul_fx(SCALE - schlick_r0(ref_idx), pow5_fx(SCALE - cosine))
}

/// The base reflectance lies in [0, 1].
pub proof fn lemma_schlick_r0_range(ref_idx: int)
    requires
        ref_idx >= 1,
    ensures
        0 <= schlick_r0(ref_idx) <= SCALE,
        abs(div_trunc((SCALE - ref_idx) * SCALE, SCALE + ref_idx)) <= SCALE,
{
    let s = SCALE as int;
    let num = (s - ref_idx) * s;
    let den = s + ref_idx;
    assert(abs(num) <= den * s) by (nonlinear_arith)
        requires
            ref_idx >= 1,
            s == SCALE as int,
            num == (s - ref_idx) * s,
            den == s + ref_idx,
    ;
    vstd::arithmetic::div_mod::lemma_multiply_divide_le(abs(num) as int, den, s);
    let q = div_trunc(num, den);
    assert(abs(q) == abs(num) as int / den);
    assert(abs(q) <= s);
    lemma_mul_fx_bound(q, q, s, s);
    vstd::arithmetic::div_mod::lemma_div_multiples_vanish(s, s);
    assert(s * s / s == s);
    assert(mul_fx(q, q) >= 0) by {
        assert(q * q >= 0) by (nonlinear_arith);
        lemma_div_trunc_bound(q * q, s);
    }
}

/// Executable Schlick reflectance.
pub fn schlick(cosine: i64, ref_idx: i64) -> (r: i64)
    requires
        1 <= ref_idx <= 100 * SCALE,
        -100 * (SCALE as int) <= cosine <= SCALE,
    ensures
        r == schlick_spec(cosine as int, ref_idx as int),
{
    let s128: i128 = SCALE as i128;
    proof {
        lemma_schlick_r0_range(ref_idx as int);
        let s = SCALE as int;
        let qi = div_trunc((s - ref_idx) * s, s + ref_idx);
        lemma_mul_fx_bound(qi, qi, s, s);
        vstd::arithmetic::div_mod::lemma_div_multiples_vanish(s, s);
    }
    let qn: i128 = (SCALE as i128 - ref_idx as i128) * s128;
    let q: i128 = div_i128(qn, s128 + ref_idx as i128);
    let r0: i64 = mul_fx64(q as i64, q as i64);
    let d: i64 = SCALE - cosine;
    proof {
        let di = d as int;
        let s = SCALE as int;
        assert(0 <= di <= 101_000_000);
        lemma_mul_fx_bound(di, di, 101_000_000, 101_000_000);
        let p2 = mul_fx(di, di);
        assert(abs(p2) <= 10_201_000_000);
        lemma_mul_fx_bound(p2, di, 10_201_000_000, 101_000_000);
        let p3 = mul_fx(p2, di);
        assert(abs(p3) <= 1_030_301_000_000);
        lemma_mul_fx_bound(p3, di, 1_030_301_000_000, 101_000_000);
        let p4 = mul_fx(p3, di);
        assert(abs(p4) <= 104_060_401_000_000);
        lemma_mul_fx_bound(p4, di, 104_060_401_000_000, 101_000_000);
        let p5 = mul_fx(p4, di);
        assert(abs(p5) <= 10_510_100_501_000_000);
        lemma_mul_fx_bound(s - r0 as int, p5, s, 10_510_100_501_000_000);
    }
    let p2: i64 = mul_fx64(d, d);
    let p3: i64 = mul_fx64(p2, d);
    let p4: i64 = mul_fx64(p3, d);
    let p5: i64 = mul_fx64(p4, d);
    r0 + mul_fx64(SCALE - r0, p5)
}

/// At head-on incidence the angle-dependent term of the Schlick reflectance
/// vanishes: the reflectance is exactly the base reflectance, its minimum
/// over all incidence cosines up to one.
pub proof fn lemma_schlick_head_on(cosine: int, ref_idx: int)
    requires
        ref_idx >= 1,
        0 <= cosine <= SCALE,
    ensures
        schlick_spec(SCALE as int, ref_idx) == schlick_r0(ref_idx),
        schlick_spec(cosine, ref_idx) >= schlick_r0(ref_idx),
{
    let s = SCALE as int;
    lemma_schlick_r0_range(ref_idx);
    let r0 = schlick_r0(ref_idx);
    assert(pow5_fx(0) == 0) by {
        assert(mul_fx(0, 0) == 0);
    }
    assert(mul_fx(s - r0, 0) == 0);
    let d = s - cosine;
    assert(0 <= d <= s);
    lemma_mul_fx_bound(d, d, s, s);
    let p2 = mul_fx(d, d);
    vstd::arithmetic::div_mod::lemma_div_multiples_vanish(s, s);
    assert(0 <= p2 <= s);
    lemma_mul_fx_bound(p2, d, s, s);
    let p3 = mul_fx(p2, d);
    assert(0 <= p3 <= s);
    lemma_mul_fx_bound(p3, d, s, s);
    let p4 = mul_fx(p3, d);
    assert(0 <= p4 <= s);
    lemma_mul_fx_bound(p4, d, s, s);
    let p5 = mul_fx(p4, d);
    assert(0 <= p5 <= s);
    lemma_mul_fx_bound(s - r0, p5, s, s);
    assert(mul_fx(s - r0, p5) >= 0);
}

} // verus!
