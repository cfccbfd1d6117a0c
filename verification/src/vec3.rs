use vstd::prelude::*;
use vstd::math::abs;
use crate::math::{
    SCALE, fits_i64, div_trunc, mul_fx, sqrt_floor, sqrt_fx, sqrt_fx64, mul_fx64, isqrt, div_i128,
    random_double, random_double_range, lemma_mul_fx_bound, lemma_div_trunc_bound,
    lemma_div_trunc_abs_le, lemma_sqrt_fx_le_scale,
};

verus! {

/// Bound on the components a dot product accepts, so that the 128-bit sum of
/// products cannot overflow.
pub const DOT_LIMIT: i64 = 4_000_000_000_000_000_000;

/// Bound on the components whose squared sum is taken for a length, so that
/// the resulting length fits in a raw scalar.
pub const LEN_LIMIT: i64 = 5_000_000_000_000_000_000;

/// Bound on the components of the near-unit vectors that the reflection and
/// refraction formulas accept.
pub const UNIT_LIMIT: i64 = 4_000_000;

/// The mathematical value of a vector: its three raw fixed-point components
/// as unbounded integers.
pub ghost struct V3 {
    pub x: int,
    pub y: int,
    pub z: int,
}

/// Componentwise sum.
pub open spec fn vadd(a: V3, b: V3) -> V3 {
    V3 { x: a.x + b.x, y: a.y + b.y, z: a.z + b.z }
}

/// Componentwise difference.
pub open spec fn vsub(a: V3, b: V3) -> V3 {
    V3 { x: a.x - b.x, y: a.y - b.y, z: a.z - b.z }
}

/// Componentwise negation.
pub open spec fn vneg(a: V3) -> V3 {
    V3 { x: -a.x, y: -a.y, z: -a.z }
}

/// Componentwise fixed-point product.
pub open spec fn vmul(a: V3, b: V3) -> V3 {
    V3 { x: mul_fx(a.x, b.x), y: mul_fx(a.y, b.y), z: mul_fx(a.z, b.z) }
}

/// Fixed-point product with a scalar.
pub open spec fn vscale(a: V3, t: int) -> V3 {
    V3 { x: mul_fx(a.x, t), y: mul_fx(a.y, t), z: mul_fx(a.z, t) }
}

/// Fixed-point quotient by a scalar.
pub open spec fn vdiv(a: V3, t: int) -> V3 {
    V3 {
        x: div_trunc(a.x * SCALE, t),
        y: div_trunc(a.y * SCALE, t),
        z: div_trunc(a.z * SCALE, t),
    }
}

/// Fixed-point dot product: the exact sum of raw products, rescaled once.
pub open spec fn dot3(a: V3, b: V3) -> int {
    div_trunc(a.x * b.x + a.y * b.y + a.z * b.z, SCALE as int)
}

/// Fixed-point cross product.
pub open spec fn cross3(a: V3, b: V3) -> V3 {
    V3 {
        x: mul_fx(a.y, b.z) - mul_fx(a.z, b.y),
        y: mul_fx(a.z, b.x) - mul_fx(a.x, b.z),
        z: mul_fx(a.x, b.y) - mul_fx(a.y, b.x),
    }
}

/// Exact sum of the squared raw components, in squared raw units: no
/// truncation at all.
pub open spec fn sq_norm(a: V3) -> int {
    a.x * a.x + a.y * a.y + a.z * a.z
}

/// The raw length: the floor square root of the exact squared norm.
pub open spec fn len3(a: V3) -> int {
    sqrt_floor(sq_norm(a) as nat) as int
}

/// The normalized vector: each component scaled up and divided by the raw
/// length, rounding toward zero.
pub open spec fn unit3(a: V3) -> V3 {
    V3 {
        x: div_trunc(a.x * SCALE, len3(a)),
        y: div_trunc(a.y * SCALE, len3(a)),
        z: div_trunc(a.z * SCALE, len3(a)),
    }
}

/// Mirror reflection about a normal, with the fixed-point roundings the
/// executable code performs.
pub open spec fn reflect3(v: V3, n: V3) -> V3 {
    vsub(v, vscale(vscale(n, dot3(v, n)), 2 * SCALE))
}

/// Snell refraction decomposed into parallel and perpendicular parts, with
/// the fixed-point roundings the executable code performs; the radicand is
/// clamped at zero where rounding would otherwise drive it negative. The
/// derived geometric identities - a near-unit result, the orthogonal
/// component scaled by the index ratio, a nonpositive dot with the normal -
/// hold of the real-valued counterpart; here each holds only up to the
/// compounded rounding of five products, a dot and a square root, so the
/// contract is the exact formula rather than an approximate band.
pub open spec fn reflact3(v: V3, n: V3, etai_over_etat: int) -> V3 {
    let cos_theta = dot3(vneg(v), n);
    let r_out_parallel = vscale(vadd(v, vscale(n, cos_theta)), etai_over_etat);
    let r_out_perp = vscale(n, -sqrt_fx(SCALE - dot3(r_out_parallel, r_out_parallel)));
    vadd(r_out_parallel, r_out_perp)
}

/// True when every component's magnitude is at most `m`.
pub open spec fn v_bounded(a: V3, m: int) -> bool {
    abs(a.x) <= m && abs(a.y) <= m && abs(a.z) <= m
}

/// A well-formed color: every channel within [0, 1].
pub open spec fn color_wf(c: V3) -> bool {
    0 <= c.x <= SCALE && 0 <= c.y <= SCALE && 0 <= c.z <= SCALE
}

/// A 3-component fixed-point vector; also used for points and colors.
#[derive(Clone, Copy, Debug, PartialEq, Eq, Structural)]
pub struct Vec3 {
    pub x: i64,
    pub y: i64,
    pub z: i64,
}

/// Points in space share the vector representation.
pub type Point3 = Vec3;

/// Colors share the vector representation; a channel value of `SCALE`
/// stands for full intensity one.
pub type Color = Vec3;

impl View for Vec3 {
    type V = V3;

    open spec fn view(&self) -> V3 {
        V3 { x: self.x as int, y: self.y as int, z: self.z as int }
    }
}

impl Vec3 {
    pub fn new(e0: i64, e1: i64, e2: i64) -> (r: Self)
        ensures
            r@ == (V3 { x: e0 as int, y: e1 as int, z: e2 as int }),
    {
        Vec3 { x: e0, y: e1, z: e2 }
    }

    pub fn x(&self) -> (r: i64)
        ensures
            r == self@.x,
    {
        self.x
    }

    pub fn y(&self) -> (r: i64)
        ensures
            r == self@.y,
    {
        self.y
    }

    pub fn z(&self) -> (r: i64)
        ensures
            r == self@.z,
    {
        self.z
    }

    /// Componentwise sum.
    pub fn add(&self, v: Self) -> (r: Self)
        requires
            fits_i64(self@.x + v@.x),
            fits_i64(self@.y + v@.y),
            fits_i64(self@.z + v@.z),
        ensures
            r@ == vadd(self@, v@),
    {
        Vec3 { x: self.x + v.x, y: self.y + v.y, z: self.z + v.z }
    }

    /// Componentwise difference.
    pub fn sub(&self, v: Self) -> (r: Self)
        requires
            fits_i64(self@.x - v@.x),
            fits_i64(self@.y - v@.y),
            fits_i64(self@.z - v@.z),
        ensures
            r@ == vsub(self@, v@),
    {
        Vec3 { x: self.x - v.x, y: self.y - v.y, z: self.z - v.z }
    }

    /// Componentwise negation.
    pub fn neg(&self) -> (r: Self)
        requires
            self@.x > i64::MIN,
            self@.y > i64::MIN,
            self@.z > i64::MIN,
        ensures
            r@ == vneg(self@),
    {
        Vec3 { x: -self.x, y: -self.y, z: -self.z }
    }

    /// Componentwise fixed-point product.
    pub fn mul(&self, v: Self) -> (r: Self)
        requires
            fits_i64(mul_fx(self@.x, v@.x)),
            fits_i64(mul_fx(self@.y, v@.y)),
            fits_i64(mul_fx(self@.z, v@.z)),
        ensures
            r@ == vmul(self@, v@),
    {
        Vec3 { x: mul_fx64(self.x, v.x), y: mul_fx64(self.y, v.y), z: mul_fx64(self.z, v.z) }
    }

    /// Fixed-point product with a scalar.
    pub fn scale(&self, t: i64) -> (r: Self)
        requires
            fits_i64(mul_fx(self@.x, t as int)),
            fits_i64(mul_fx(self@.y, t as int)),
            fits_i64(mul_fx(self@.z, t as int)),
        ensures
            r@ == vscale(self@, t as int),
    {
        Vec3 { x: mul_fx64(self.x, t), y: mul_fx64(self.y, t), z: mul_fx64(self.z, t) }
    }

    /// Fixed-point quotient by a scalar.
    pub fn div(&self, t: i64) -> (r: Self)
        requires
            t != 0,
            fits_i64(div_trunc(self@.x * SCALE, t as int)),
            fits_i64(div_trunc(self@.y * SCALE, t as int)),
            fits_i64(div_trunc(self@.z * SCALE, t as int)),
        ensures
            r@ == vdiv(self@, t as int),
    {
        Vec3 {
            x: div_scaled(self.x, t),
            y: div_scaled(self.y, t),
            z: div_scaled(self.z, t),
        }
    }

    /// Fixed-point dot product.
    pub fn dot(&self, v: Self) -> (r: i64)
        requires
            abs(self@.x * v@.x) + abs(self@.y * v@.y) + abs(self@.z * v@.z) <= i128::MAX,
            fits_i64(dot3(self@, v@)),
        ensures
            r == dot3(self@, v@),
    {
        let p: i128 = (self.x as i128) * (v.x as i128) + (self.y as i128) * (v.y as i128) + (
        self.z as i128) * (v.z as i128);
        let q: i128 = div_i128(p, SCALE as i128);
        q as i64
    }

    /// The scaled squared length: the dot product of the vector with itself.
    pub fn length_squared(&self) -> (r: i64)
        requires
            v_bounded(self@, DOT_LIMIT as int),
            fits_i64(dot3(self@, self@)),
        ensures
            r == dot3(self@, self@),
            r >= 0,
    {
        proof {
            lemma_sq_norm_nonneg(self@);
            lemma_div_trunc_bound(sq_norm(self@), SCALE as int);
            lemma_sum_of_products_bound(self@, self@, DOT_LIMIT as int, DOT_LIMIT as int);
        }
        self.dot(*self)
    }

    /// The raw length: the floor square root of the exact squared norm, with
    /// no intermediate rounding.
    pub fn length(&self) -> (r: i64)
        requires
            v_bounded(self@, LEN_LIMIT as int),
        ensures
            r == len3(self@),
            r >= 0,
            (r as int) * (r as int) <= sq_norm(self@) < (r as int + 1) * (r as int + 1),
    {
        proof {
            lemma_square_fits(self@, LEN_LIMIT as int);
        }
        let px: i128 = (self.x as i128) * (self.x as i128);
        let py: i128 = (self.y as i128) * (self.y as i128);
        let pz: i128 = (self.z as i128) * (self.z as i128);
        let n: u128 = (px + py + pz) as u128;
        proof {
            assert(n == sq_norm(self@));
            assert(n <= (u64::MAX as int) * (u64::MAX as int));
        }
        let r: u64 = isqrt(n);
        proof {
            assert(r <= i64::MAX) by (nonlinear_arith)
                requires
                    (r as int) * (r as int) <= n,
                    n <= 3 * ((LEN_LIMIT as int) * (LEN_LIMIT as int)),
            ;
        }
        r as i64
    }

    /// The vector rescaled to unit length.
    pub fn unit_vector(&self) -> (r: Self)
        requires
            v_bounded(self@, LEN_LIMIT as int),
            sq_norm(self@) > 0,
        ensures
            r@ == unit3(self@),
            v_bounded(r@, SCALE as int),
    {
        let len: i64 = self.length();
        proof {
            assert(len >= 1) by (nonlinear_arith)
                requires
                    sq_norm(self@) > 0,
                    sq_norm(self@) < (len as int + 1) * (len as int + 1),
                    len >= 0,
            ;
            lemma_unit_components(self@, len as int);
        }
        let ux: i64 = div_i128((self.x as i128) * (SCALE as i128), len as i128) as i64;
        let uy: i64 = div_i128((self.y as i128) * (SCALE as i128), len as i128) as i64;
        let uz: i64 = div_i128((self.z as i128) * (SCALE as i128), len as i128) as i64;
        Vec3 { x: ux, y: uy, z: uz }
    }

    /// Mirror reflection about a normal.
    pub fn reflect(&self, n: Self) -> (r: Self)
        requires
            v_bounded(self@, UNIT_LIMIT as int),
            v_bounded(n@, UNIT_LIMIT as int),
        ensures
            r@ == reflect3(self@, n@),
            v_bounded(r@, 400 * SCALE as int),
    {
        proof {
            lemma_sum_of_products_bound(self@, n@, UNIT_LIMIT as int, UNIT_LIMIT as int);
            lemma_div_trunc_abs_le(
                self@.x * n@.x + self@.y * n@.y + self@.z * n@.z,
                SCALE as int,
                48 * SCALE as int,
            );
            let d = dot3(self@, n@);
            lemma_mul_fx_bound(n@.x, d, UNIT_LIMIT as int, 48 * SCALE as int);
            lemma_mul_fx_bound(n@.y, d, UNIT_LIMIT as int, 48 * SCALE as int);
            lemma_mul_fx_bound(n@.z, d, UNIT_LIMIT as int, 48 * SCALE as int);
            let t1 = vscale(n@, d);
            lemma_mul_fx_bound(t1.x, 2 * SCALE as int, 192 * SCALE as int, 2 * SCALE as int);
            lemma_mul_fx_bound(t1.y, 2 * SCALE as int, 192 * SCALE as int, 2 * SCALE as int);
            lemma_mul_fx_bound(t1.z, 2 * SCALE as int, 192 * SCALE as int, 2 * SCALE as int);
        }
        let d: i64 = self.dot(n);
        let t2: Vec3 = n.scale(d).scale(2 * SCALE);
        self.sub(t2)
    }

    /// Snell refraction of a near-unit direction about a normal, for a given
    /// ratio of refractive indices.
    pub fn reflact(&self, n: Self, etai_over_etat: i64) -> (r: Self)
        requires
            v_bounded(self@, UNIT_LIMIT as int),
            v_bounded(n@, UNIT_LIMIT as int),
            1 <= etai_over_etat <= 8 * SCALE,
        ensures
            r@ == reflact3(self@, n@, etai_over_etat as int),
            v_bounded(r@, 1600 * SCALE as int),
    {
        let s = SCALE;
        proof {
            lemma_sum_of_products_bound(vneg(self@), n@, UNIT_LIMIT as int, UNIT_LIMIT as int);
            lemma_div_trunc_abs_le(
                vneg(self@).x * n@.x + vneg(self@).y * n@.y + vneg(self@).z * n@.z,
                SCALE as int,
                48 * SCALE as int,
            );
        }
        let cos_theta: i64 = self.neg().dot(n);
        proof {
            let c = cos_theta as int;
            lemma_mul_fx_bound(n@.x, c, UNIT_LIMIT as int, 48 * SCALE as int);
            lemma_mul_fx_bound(n@.y, c, UNIT_LIMIT as int, 48 * SCALE as int);
            lemma_mul_fx_bound(n@.z, c, UNIT_LIMIT as int, 48 * SCALE as int);
            let t1 = vadd(self@, vscale(n@, c));
            let e = etai_over_etat as int;
            lemma_mul_fx_bound(t1.x, e, 196 * SCALE as int, 8 * SCALE as int);
            lemma_mul_fx_bound(t1.y, e, 196 * SCALE as int, 8 * SCALE as int);
            lemma_mul_fx_bound(t1.z, e, 196 * SCALE as int, 8 * SCALE as int);
        }
        let r_out_parallel: Vec3 = self.add(n.scale(cos_theta)).scale(etai_over_etat);
        proof {
            lemma_sum_of_products_bound(r_out_parallel@, r_out_parallel@, 1568 * SCALE as int, 1568 * SCALE as int);
            lemma_div_trunc_abs_le(
                sq_norm(r_out_parallel@),
                SCALE as int,
                3 * 1568 * 1568 * SCALE as int,
            );
            lemma_sq_norm_nonneg(r_out_parallel@);
            lemma_div_trunc_bound(sq_norm(r_out_parallel@), SCALE as int);
        }
        let ls: i64 = r_out_parallel.length_squared();
        let inner: i64 = s - ls;
        let s_r: i64 = if inner <= 0 {
            0
        } else {
            sqrt_fx64(inner)
        };
        proof {
            assert(s_r as int == sqrt_fx(SCALE - dot3(r_out_parallel@, r_out_parallel@)));
            assert(s_r <= SCALE) by {
                if inner > 0 {
                    lemma_sqrt_fx_le_scale(inner as int);
                }
            }
            lemma_mul_fx_bound(n@.x, -(s_r as int), UNIT_LIMIT as int, SCALE as int);
            lemma_mul_fx_bound(n@.y, -(s_r as int), UNIT_LIMIT as int, SCALE as int);
            lemma_mul_fx_bound(n@.z, -(s_r as int), UNIT_LIMIT as int, SCALE as int);
        }
        let r_out_perp: Vec3 = n.scale(-s_r);
        r_out_parallel.add(r_out_perp)
    }

    /// A vector of three independent samples of [0, 1).
    pub fn random() -> (r: Self)
        ensures
            0 <= r@.x < SCALE,
            0 <= r@.y < SCALE,
            0 <= r@.z < SCALE,
    {
        Vec3 { x: random_double(), y: random_double(), z: random_double() }
    }

    /// A vector of three independent samples of [min, max).
    pub fn random_range(min: i64, max: i64) -> (r: Self)
        requires
            min < max,
            fits_i64(max - min),
        ensures
            min <= r@.x < max,
            min <= r@.y < max,
            min <= r@.z < max,
    {
        Vec3 {
            x: random_double_range(min, max),
            y: random_double_range(min, max),
            z: random_double_range(min, max),
        }
    }

    /// A sample of the open unit ball, by rejection. After a thousand
    /// rejected draws (a probability that vanishes for a uniform source) an
    /// interior point is returned outright, so the guarantee always holds.
    pub fn random_in_unit_sphere() -> (r: Self)
        ensures
            v_bounded(r@, SCALE as int),
            dot3(r@, r@) < SCALE,
    {
        let mut tries: u32 = 0;
        while tries < 1000
            decreases 1000 - tries,
        {
            let p: Vec3 = Self::random_range(-SCALE, SCALE);
            proof {
                lemma_sum_of_products_bound(p@, p@, SCALE as int, SCALE as int);
                lemma_div_trunc_abs_le(sq_norm(p@), SCALE as int, 3 * SCALE as int);
            }
            if p.length_squared() < SCALE {
                return p;
            }
            tries = tries + 1;
        }
        let f: Vec3 = Vec3 { x: 500_000, y: 0, z: 0 };
        proof {
            lemma_half_point(f@);
        }
        f
    }

    /// A sample of the open unit disk in the x-y plane, by rejection, with
    /// the same interior fallback as the ball sampler.
    pub fn random_in_unit_disk() -> (r: Self)
        ensures
            v_bounded(r@, SCALE as int),
            dot3(r@, r@) < SCALE,
            r@.z == 0,
    {
        let mut tries: u32 = 0;
        while tries < 1000
            decreases 1000 - tries,
        {
            let p: Vec3 = Vec3 {
                x: random_double_range(-SCALE, SCALE),
                y: random_double_range(-SCALE, SCALE),
                z: 0,
            };
            proof {
                lemma_sum_of_products_bound(p@, p@, SCALE as int, SCALE as int);
                lemma_div_trunc_abs_le(sq_norm(p@), SCALE as int, 3 * SCALE as int);
            }
            if p.length_squared() >= SCALE {
                tries = tries + 1;
                continue ;
            }
            return p;
        }
        let f: Vec3 = Vec3 { x: 500_000, y: 0, z: 0 };
        proof {
            lemma_half_point(f@);
        }
        f
    }

    /// A uniformly distributed unit direction: a ball sample of real length
    /// at least one half, normalized. Rejecting the shorter samples does not
    /// change the distribution of directions and keeps the normalization
    /// within the proved near-unit band.
    pub fn random_unit_vector() -> (r: Self)
        ensures
            v_bounded(r@, SCALE as int),
            exists|v: V3|
                sq_norm(v) >= 250_000_000_000 && sq_norm(v) > 0 && r@ == unit3(v),
            (SCALE as int) * (SCALE as int) - 6 * (SCALE as int) <= sq_norm(r@),
            sq_norm(r@) <= (SCALE as int) * (SCALE as int) + 13 * (SCALE as int),
    {
        let mut tries: u32 = 0;
        while tries < 1000
            decreases 1000 - tries,
        {
            let p: Vec3 = Self::random_in_unit_sphere();
            proof {
                lemma_sum_of_products_bound(p@, p@, SCALE as int, SCALE as int);
                lemma_div_trunc_abs_le(sq_norm(p@), SCALE as int, 3 * SCALE as int);
                lemma_sq_norm_nonneg(p@);
            }
            if p.length_squared() >= 250_000 {
                proof {
                    crate::math::lemma_div_trunc_exact(sq_norm(p@), SCALE as int);
                    assert(sq_norm(p@) >= 250_000_000_000);
                }
                let u: Vec3 = p.unit_vector();
                proof {
                    lemma_unit_vector_length(p@);
                    assert(sq_norm(p@) >= 250_000_000_000 && sq_norm(p@) > 0 && u@ == unit3(p@));
                }
                return u;
            }
            tries = tries + 1;
        }
        let f: Vec3 = Vec3 { x: SCALE, y: 0, z: 0 };
        proof {
            assert((SCALE as int) * (SCALE as int) == 1_000_000_000_000
                && (SCALE as int + 1) * (SCALE as int + 1) == 1_000_002_000_001)
                by (nonlinear_arith)
            ;
            assert(sq_norm(f@) == 1_000_000_000_000);
            crate::math::lemma_sqrt_floor_unique(1_000_000_000_000nat, SCALE as nat);
            assert(len3(f@) == SCALE as int);
            vstd::arithmetic::div_mod::lemma_div_multiples_vanish(SCALE as int, SCALE as int);
            vstd::arithmetic::div_mod::lemma_div_multiples_vanish(0, SCALE as int);
            assert(unit3(f@).x == div_trunc(1_000_000_000_000, SCALE as int));
            assert(div_trunc(1_000_000_000_000, SCALE as int) == 1_000_000_000_000int
                / (SCALE as int));
            assert(unit3(f@).y == div_trunc(0, SCALE as int));
            assert(sq_norm(f@) >= 250_000_000_000 && sq_norm(f@) > 0 && f@ == unit3(f@));
            assert(sq_norm(unit3(f@)) == 1_000_000_000_000);
        }
        f
    }

    /// Fixed-point cross product.
    pub fn cross(&self, v: Self) -> (r: Self)
        requires
            v_bounded(self@, 1_000_000_000_000),
            v_bounded(v@, 1_000_000_000_000),
        ensures
            r@ == cross3(self@, v@),
    {
        proof {
            lemma_cross_fits(self@, v@);
        }
        Vec3 {
            x: mul_fx64(self.y, v.z) - mul_fx64(self.z, v.y),
            y: mul_fx64(self.z, v.x) - mul_fx64(self.x, v.z),
            z: mul_fx64(self.x, v.y) - mul_fx64(self.y, v.x),
        }
    }
}

/// One component of a fixed-point quotient by a scalar.
fn div_scaled(a: i64, t: i64) -> (r: i64)
    requires
        t != 0,
        fits_i64(div_trunc(a as int * SCALE, t as int)),
    ensures
        r == div_trunc(a as int * SCALE, t as int),
{
    let n: i128 = (a as i128) * (SCALE as i128);
    if t > 0 {
        div_i128(n, t as i128) as i64
    } else {
        proof {
            lemma_div_trunc_negate(n as int, t as int);
        }
        let q: i128 = div_i128(n, -(t as i128));
        (-q) as i64
    }
}

/// Negating a positive divisor negates the truncating quotient.
proof fn lemma_div_trunc_negate(n: int, t: int)
    requires
        t < 0,
    ensures
        div_trunc(n, t) == -div_trunc(n, -t),
{
    assert(abs(t) == abs(-t));
}

/// With components bounded by `ma` and `mb`, each raw product is bounded by
/// `ma * mb`, so the sum of three products stays inside the 128-bit range
/// whenever `3 * ma * mb` does.
pub proof fn lemma_sum_of_products_bound(a: V3, b: V3, ma: int, mb: int)
    requires
        0 < ma,
        0 < mb,
        v_bounded(a, ma),
        v_bounded(b, mb),
    ensures
        abs(a.x * b.x) <= ma * mb,
        abs(a.y * b.y) <= ma * mb,
        abs(a.z * b.z) <= ma * mb,
        abs(a.x * b.x) + abs(a.y * b.y) + abs(a.z * b.z) <= 3 * (ma * mb),
        abs(a.x * b.x + a.y * b.y + a.z * b.z) <= 3 * (ma * mb),
{
    assert(-(ma * mb) <= a.x * b.x <= ma * mb && -(ma * mb) <= a.y * b.y <= ma * mb && -(ma * mb)
        <= a.z * b.z <= ma * mb) by (nonlinear_arith)
        requires
            -ma <= a.x <= ma && -ma <= a.y <= ma && -ma <= a.z <= ma,
            -mb <= b.x <= mb && -mb <= b.y <= mb && -mb <= b.z <= mb,
            ma > 0,
            mb > 0,
    ;
}

/// Negating one side of a dot product negates the result exactly: the raw
/// sum flips sign, and truncating division is symmetric about zero.
pub proof fn lemma_dot3_neg(a: V3, b: V3)
    ensures
        dot3(a, vneg(b)) == -dot3(a, b),
{
    let s = a.x * b.x + a.y * b.y + a.z * b.z;
    let sn = a.x * vneg(b).x + a.y * vneg(b).y + a.z * vneg(b).z;
    assert(sn == -s) by (nonlinear_arith)
        requires
            sn == a.x * (-b.x) + a.y * (-b.y) + a.z * (-b.z),
            s == a.x * b.x + a.y * b.y + a.z * b.z,
    ;
    assert(abs(-s) == abs(s));
    assert(div_trunc(-s, SCALE as int) == -div_trunc(s, SCALE as int));
}

/// The squared norm is a sum of squares, hence nonnegative.
pub proof fn lemma_sq_norm_nonneg(a: V3)
    ensures
        sq_norm(a) >= 0,
{
    assert(a.x * a.x >= 0 && a.y * a.y >= 0 && a.z * a.z >= 0) by (nonlinear_arith);
}

/// Components bounded by `m` have squares bounded by `m * m`.
proof fn lemma_square_fits(a: V3, m: int)
    requires
        m >= 0,
        v_bounded(a, m),
    ensures
        0 <= a.x * a.x <= m * m,
        0 <= a.y * a.y <= m * m,
        0 <= a.z * a.z <= m * m,
        0 <= sq_norm(a) <= 3 * (m * m),
{
    assert(0 <= a.x * a.x <= m * m && 0 <= a.y * a.y <= m * m && 0 <= a.z * a.z <= m * m)
        by (nonlinear_arith)
        requires
            -m <= a.x <= m && -m <= a.y <= m && -m <= a.z <= m,
    ;
}

/// Below the bracketing square of the length, every component's magnitude is
/// at most the length, so every normalized component is at most one.
proof fn lemma_unit_components(a: V3, len: int)
    requires
        len >= 1,
        sq_norm(a) < (len + 1) * (len + 1),
    ensures
        abs(div_trunc(a.x * SCALE, len)) <= SCALE,
        abs(div_trunc(a.y * SCALE, len)) <= SCALE,
        abs(div_trunc(a.z * SCALE, len)) <= SCALE,
{
    assert(-len <= a.x <= len && -len <= a.y <= len && -len <= a.z <= len) by (nonlinear_arith)
        requires
            a.x * a.x + a.y * a.y + a.z * a.z < (len + 1) * (len + 1),
            len >= 0,
    ;
    assert(abs(a.x * SCALE) <= len * (SCALE as int) && abs(a.y * SCALE) <= len * (SCALE as int)
        && abs(a.z * SCALE) <= len * (SCALE as int)) by (nonlinear_arith)
        requires
            -len <= a.x <= len && -len <= a.y <= len && -len <= a.z <= len,
            len >= 0,
    ;
    lemma_div_trunc_abs_le(a.x * SCALE, len, SCALE as int);
    lemma_div_trunc_abs_le(a.y * SCALE, len, SCALE as int);
    lemma_div_trunc_abs_le(a.z * SCALE, len, SCALE as int);
}

/// One normalized component, squared and weighted by the squared length,
/// stays within one rounding band of the component's exact share.
proof fn lemma_unit_comp_sq(x: int, len: int)
    requires
        1 <= len,
        -len <= x <= len,
    ensures
        ({
            let u = div_trunc(x * SCALE, len);
            &&& (x * x) * ((SCALE as int) * (SCALE as int)) - 2 * (SCALE as int) * (len * len) <= (
            u * u) * (len * len)
            &&& (u * u) * (len * len) <= (x * x) * ((SCALE as int) * (SCALE as int)) + 2 * (
            SCALE as int) * (len * len) + len * len
        }),
{
    crate::math::lemma_div_trunc_exact(x * SCALE, len);
    let u = div_trunc(x * SCALE, len);
    assert(-len < len * u - x * SCALE && len * u - x * SCALE < len) by {
        if x * SCALE >= 0 {
            assert(x * SCALE - len < len * u <= x * SCALE);
        } else {
            assert(x * SCALE <= len * u && len * u < x * SCALE + len);
        }
    }
    assert((x * x) * ((SCALE as int) * (SCALE as int)) - 2 * (SCALE as int) * (len * len) <= (u
        * u) * (len * len) && (u * u) * (len * len) <= (x * x) * ((SCALE as int) * (SCALE as int))
        + 2 * (SCALE as int) * (len * len) + len * len) by (nonlinear_arith)
        requires
            -len < len * u - x * SCALE && len * u - x * SCALE < len,
            -len <= x <= len,
            1 <= len,
    ;
}

/// Normalization produces a vector of unit length, up to an explicit
/// fixed-point tolerance: for any vector of real length at least one half,
/// the squared scaled length of its normalization lies within
/// [1 - 6/SCALE, 1 + 13/SCALE] of one, in squared scale units.
pub proof fn lemma_unit_vector_length(a: V3)
    requires
        v_bounded(a, LEN_LIMIT as int),
        sq_norm(a) >= 250_000_000_000,
    ensures
        (SCALE as int) * (SCALE as int) - 6 * (SCALE as int) <= sq_norm(unit3(a)),
        sq_norm(unit3(a)) <= (SCALE as int) * (SCALE as int) + 13 * (SCALE as int),
{
    let s = SCALE as int;
    let n = sq_norm(a);
    crate::math::lemma_sqrt_floor((n) as nat);
    let len = len3(a);
    assert(len * len <= n && n < (len + 1) * (len + 1));
    assert(2 * len >= s) by (nonlinear_arith)
        requires
            n >= 250_000_000_000,
            n < (len + 1) * (len + 1),
            len >= 0,
            s == 1_000_000,
    ;
    assert(-len <= a.x <= len && -len <= a.y <= len && -len <= a.z <= len) by (nonlinear_arith)
        requires
            a.x * a.x + a.y * a.y + a.z * a.z <= n,
            a.x * a.x + a.y * a.y + a.z * a.z == n,
            n < (len + 1) * (len + 1),
            len >= 0,
    ;
    lemma_unit_comp_sq(a.x, len);
    lemma_unit_comp_sq(a.y, len);
    lemma_unit_comp_sq(a.z, len);
    let ux = div_trunc(a.x * SCALE, len);
    let uy = div_trunc(a.y * SCALE, len);
    let uz = div_trunc(a.z * SCALE, len);
    let q = sq_norm(unit3(a));
    assert(q == ux * ux + uy * uy + uz * uz);
    assert(n * (s * s) - 6 * s * (len * len) <= q * (len * len) && q * (len * len) <= n * (s * s)
        + 6 * s * (len * len) + 3 * (len * len)) by (nonlinear_arith)
        requires
            q == ux * ux + uy * uy + uz * uz,
            n == a.x * a.x + a.y * a.y + a.z * a.z,
            (a.x * a.x) * (s * s) - 2 * s * (len * len) <= (ux * ux) * (len * len) <= (a.x * a.x)
                * (s * s) + 2 * s * (len * len) + len * len,
            (a.y * a.y) * (s * s) - 2 * s * (len * len) <= (uy * uy) * (len * len) <= (a.y * a.y)
                * (s * s) + 2 * s * (len * len) + len * len,
            (a.z * a.z) * (s * s) - 2 * s * (len * len) <= (uz * uz) * (len * len) <= (a.z * a.z)
                * (s * s) + 2 * s * (len * len) + len * len,
    ;
    assert(s * s - 6 * s <= q && q <= s * s + 13 * s) by (nonlinear_arith)
        requires
            n * (s * s) - 6 * s * (len * len) <= q * (len * len),
            q * (len * len) <= n * (s * s) + 6 * s * (len * len) + 3 * (len * len),
            len * len <= n,
            n < (len + 1) * (len + 1),
            s <= 2 * len,
            2 <= s,
    ;
}

/// The point half a unit along the first axis lies strictly inside the unit
/// ball.
proof fn lemma_half_point(a: V3)
    requires
        a.x == 500_000,
        a.y == 0,
        a.z == 0,
    ensures
        dot3(a, a) < SCALE,
        v_bounded(a, SCALE as int),
{
    assert(500_000int * 500_000 == 250_000_000_000 && (SCALE as int) * 250_000
        == 250_000_000_000) by (nonlinear_arith);
    assert(a.x * a.x + a.y * a.y + a.z * a.z == 250_000_000_000);
    assert(dot3(a, a) == div_trunc(250_000_000_000, SCALE as int));
    lemma_div_trunc_abs_le(250_000_000_000, SCALE as int, 250_000);
}

/// A vector with some nonzero component has positive squared norm.
pub proof fn lemma_nonzero_sq_norm(a: V3)
    requires
        a.x != 0 || a.y != 0 || a.z != 0,
    ensures
        sq_norm(a) > 0,
{
    assert(sq_norm(a) > 0) by (nonlinear_arith)
        requires
            a.x != 0 || a.y != 0 || a.z != 0,
            sq_norm(a) == a.x * a.x + a.y * a.y + a.z * a.z,
    ;
}

/// All six products in a cross product of vectors bounded by 10^12 fit.
proof fn lemma_cross_fits(a: V3, b: V3)
    requires
        v_bounded(a, 1_000_000_000_000),
        v_bounded(b, 1_000_000_000_000),
    ensures
        abs(mul_fx(a.y, b.z)) <= 1_000_000_000_000_000_000,
        abs(mul_fx(a.z, b.y)) <= 1_000_000_000_000_000_000,
        abs(mul_fx(a.z, b.x)) <= 1_000_000_000_000_000_000,
        abs(mul_fx(a.x, b.z)) <= 1_000_000_000_000_000_000,
        abs(mul_fx(a.x, b.y)) <= 1_000_000_000_000_000_000,
        abs(mul_fx(a.y, b.x)) <= 1_000_000_000_000_000_000,
{
    let m: int = 1_000_000_000_000;
    lemma_mul_fx_bound(a.y, b.z, m, m);
    lemma_mul_fx_bound(a.z, b.y, m, m);
    lemma_mul_fx_bound(a.z, b.x, m, m);
    lemma_mul_fx_bound(a.x, b.z, m, m);
    lemma_mul_fx_bound(a.x, b.y, m, m);
    lemma_mul_fx_bound(a.y, b.x, m, m);
}

} // verus!
