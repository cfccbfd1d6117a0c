use vstd::prelude::*;
use vstd::math::abs;
use crate::hittable::{HitRecord, HitView, opt_view};
use crate::material::Material;
use crate::math::{
    SCALE, MAX_COORD, MIN_RADIUS, MAX_DIR, T_INF, div_trunc, mul_fx, sqrt_floor,
    div_i128, isqrt, lemma_mul_fx_bound, lemma_div_trunc_abs_le, lemma_div_trunc_abs_le_gen,
};
use crate::ray::{Ray, ray_ok, ray_at};
use crate::vec3::{
    Vec3, dot3, vsub, vneg, vdiv, v_bounded, lemma_sum_of_products_bound,
};

verus! {

/// A sphere: center, signed radius, and the material of its surface. A
/// negative radius flips the outward normal, the convention for modeling a
/// hollow glass shell.
#[derive(Clone, Copy, Debug, PartialEq, Eq, Structural)]
pub struct Sphere {
    pub center: Vec3,
    pub radius: i64,
    pub material: Material,
}

impl Sphere {
    /// Well-formed when the center lies in the scene box, the radius
    /// magnitude is neither degenerate nor oversized, and the material is
    /// well-formed.
    pub open spec fn wf(self) -> bool {
        &&& v_bounded(self.center@, MAX_COORD as int)
        &&& MIN_RADIUS <= abs(self.radius as int) <= MAX_COORD
        &&& self.material.wf()
    }

    pub fn new(center: Vec3, radius: i64, material: Material) -> (s: Self)
        requires
            v_bounded(center@, MAX_COORD as int),
            MIN_RADIUS <= abs(radius as int) <= MAX_COORD,
            material.wf(),
        ensures
            s.center == center,
            s.radius == radius,
            s.material == material,
            s.wf(),
    {
        Sphere { center, radius, material }
    }
}

/// The hit record a sphere produces at parametric distance `t`: the point
/// along the ray, and the outward normal (the offset from the center over
/// the signed radius) oriented against the incoming ray.
///
/// The normal is pinned exactly by this formula, and it always opposes the
/// ray (`lemma_hit_normal_opposes`). Its length is near one only to the
/// extent the rounded root lies on the sphere: for a direction of a few raw
/// units, or a sphere at the minimum radius, the root's rounding alone can
/// displace the hit point by more than the radius, so no universal
/// unit-length band holds and none is stated.
pub open spec fn sphere_rec(s: Sphere, r: Ray, t: int) -> HitView {
    let p = ray_at(r, t);
    let outward = vdiv(vsub(p, s.center@), s.radius as int);
    let front = dot3(r.direction@, outward) < 0;
    HitView {
        p,
        normal: if front {
            outward
        } else {
            vneg(outward)
        },
        material: s.material,
        t,
        front_face: front,
    }
}

/// The exact mirror of the ray-sphere intersection: the reduced quadratic is
/// solved over the fixed-point scalars, and the nearer root strictly inside
/// (t_min, t_max) wins; a nonpositive discriminant is a miss.
pub open spec fn sphere_hit_spec(s: Sphere, r: Ray, t_min: int, t_max: int) -> Option<HitView> {
    let oc = vsub(r.origin@, s.center@);
    let a = dot3(r.direction@, r.direction@);
    let half_b = dot3(oc, r.direction@);
    let c = dot3(oc, oc) - mul_fx(s.radius as int, s.radius as int);
    let disc = half_b * half_b - a * c;
    if disc > 0 {
        let root = sqrt_floor(disc as nat) as int;
        let t1 = div_trunc((-half_b - root) * SCALE, a);
        if t_min < t1 && t1 < t_max {
            Some(sphere_rec(s, r, t1))
        } else {
            let t2 = div_trunc((-half_b + root) * SCALE, a);
            if t_min < t2 && t2 < t_max {
                Some(sphere_rec(s, r, t2))
            } else {
                None
            }
        }
    } else {
        None
    }
}

impl Sphere {
    /// Build the hit record for a root that was accepted.
    fn make_rec(&self, r: &Ray, t: i64) -> (rec: HitRecord)
        requires
            self.wf(),
            ray_ok(*r),
            -T_INF <= t <= T_INF,
        ensures
            rec@ == sphere_rec(*self, *r, t as int),
    {
        proof {
            lemma_mul_fx_bound(r.direction@.x, t as int, MAX_DIR as int, T_INF as int);
            lemma_mul_fx_bound(r.direction@.y, t as int, MAX_DIR as int, T_INF as int);
            lemma_mul_fx_bound(r.direction@.z, t as int, MAX_DIR as int, T_INF as int);
        }
        let p: Vec3 = r.at(t);
        proof {
            let d = vsub(p@, self.center@);
            assert(v_bounded(d, 5_000_010_000_000_000));
            lemma_outward_fits(d.x, self.radius as int);
            lemma_outward_fits(d.y, self.radius as int);
            lemma_outward_fits(d.z, self.radius as int);
        }
        let outward: Vec3 = p.sub(self.center).div(self.radius);
        let mut rec: HitRecord = HitRecord {
            p,
            t,
            normal: Vec3 { x: 0, y: 0, z: 0 },
            material: self.material,
            front_face: false,
        };
        proof {
            lemma_sum_of_products_bound(
                r.direction@,
                outward@,
                MAX_DIR as int,
                5_200_000_000_000_000_000,
            );
        }
        rec.set_face_normal(r, outward);
        rec
    }

    /// The nearest intersection of the ray with this sphere strictly inside
    /// the open interval (t_min, t_max), or nothing.
    pub fn hit(&self, r: &Ray, t_min: i64, t_max: i64) -> (res: Option<HitRecord>)
        requires
            self.wf(),
            ray_ok(*r),
            -T_INF <= t_min,
            t_max <= T_INF,
        ensures
            opt_view(res) == sphere_hit_spec(*self, *r, t_min as int, t_max as int),
    {
        let oc: Vec3 = r.origin.sub(self.center);
        proof {
            lemma_sum_of_products_bound(r.direction@, r.direction@, MAX_DIR as int, MAX_DIR as int);
            lemma_div_trunc_abs_le(
                r.direction@.x * r.direction@.x + r.direction@.y * r.direction@.y + r.direction@.z
                    * r.direction@.z,
                SCALE as int,
                30_000_000_000,
            );
        }
        let a: i64 = r.direction.dot(r.direction);
        proof {
            assert(v_bounded(oc@, 4_000_010_000_000_000));
            lemma_sum_of_products_bound(oc@, r.direction@, 4_000_010_000_000_000, MAX_DIR as int);
            lemma_div_trunc_abs_le(
                oc@.x * r.direction@.x + oc@.y * r.direction@.y + oc@.z * r.direction@.z,
                SCALE as int,
                1_300_000_000_000_000_000,
            );
        }
        let half_b: i64 = oc.dot(r.direction);
        proof {
            lemma_sum_of_products_bound(oc@, oc@, 4_000_010_000_000_000, 4_000_010_000_000_000);
            lemma_div_trunc_abs_le(
                oc@.x * oc@.x + oc@.y * oc@.y + oc@.z * oc@.z,
                SCALE as int,
                50_000_000_000_000_000_000_000_000,
            );
            lemma_mul_fx_bound(
                self.radius as int,
                self.radius as int,
                MAX_COORD as int,
                MAX_COORD as int,
            );
            assert((self.radius as i128) * (self.radius as i128) == (self.radius as int) * (
            self.radius as int)) by (nonlinear_arith)
                requires
                    abs(self.radius as int) <= MAX_COORD,
            ;
        }
        let sum_oc: i128 = (oc.x as i128) * (oc.x as i128) + (oc.y as i128) * (oc.y as i128) + (
        oc.z as i128) * (oc.z as i128);
        let c: i128 = div_i128(sum_oc, SCALE as i128) - div_i128(
            (self.radius as i128) * (self.radius as i128),
            SCALE as i128,
        );
        let ghost sa = dot3(r.direction@, r.direction@);
        let ghost sc = dot3(oc@, oc@) - mul_fx(self.radius as int, self.radius as int);
        let ghost sdisc = dot3(oc@, r.direction@) * dot3(oc@, r.direction@) - sa * sc;
        proof {
            assert(c == sc);
            assert(abs(sc) <= 50_000_100_000_000_000_000_000_000);
            assert((half_b as int) * (half_b as int) - (a as int) * (c as int) == sdisc
                && abs((half_b as int) * (half_b as int)) <= 1_690_000_000_000_000_000_000_000_000_000_000_000
                && abs((a as int) * (c as int)) <= 1_600_000_000_000_000_000_000_000_000_000_000_000
                && abs(sdisc) <= 3_300_000_000_000_000_000_000_000_000_000_000_000)
                by (nonlinear_arith)
                requires
                    half_b == dot3(oc@, r.direction@),
                    a == sa,
                    c == sc,
                    sdisc == dot3(oc@, r.direction@) * dot3(oc@, r.direction@) - sa * sc,
                    abs(half_b as int) <= 1_300_000_000_000_000_000,
                    abs(sa) <= 30_000_000_000,
                    abs(sc) <= 50_000_100_000_000_000_000_000_000,
            ;
        }
        let disc: i128 = (half_b as i128) * (half_b as i128) - (a as i128) * c;
        if disc > 0 {
            proof {
                assert(disc <= (u64::MAX as int) * (u64::MAX as int));
            }
            let root: i128 = isqrt(disc as u128) as i128;
            proof {
                assert(root as int == sqrt_floor(sdisc as nat) as int);
                assert(root >= 0);
                assert((root as int) * (root as int) <= sdisc);
                assert(root <= 2_000_000_000_000_000_000) by (nonlinear_arith)
                    requires
                        (root as int) * (root as int) <= sdisc,
                        sdisc <= 3_300_000_000_000_000_000_000_000_000_000_000_000,
                        root >= 0,
                ;
                assert(abs((-(half_b as int) - root) * SCALE) <= 3_300_000_000_000_000_000_000_000
                    && abs((-(half_b as int) + root) * SCALE)
                    <= 3_300_000_000_000_000_000_000_000) by (nonlinear_arith)
                    requires
                        abs(half_b as int) <= 1_300_000_000_000_000_000,
                        0 <= root <= 2_000_000_000_000_000_000,
                ;
                assert(a >= 1);
            }
            let num1: i128 = (-(half_b as i128) - root) * (SCALE as i128);
            let t1: i128 = div_i128(num1, a as i128);
            if (t_min as i128) < t1 && t1 < (t_max as i128) {
                let rec: HitRecord = self.make_rec(r, t1 as i64);
                return Some(rec);
            }
            let num2: i128 = (-(half_b as i128) + root) * (SCALE as i128);
            let t2: i128 = div_i128(num2, a as i128);
            if (t_min as i128) < t2 && t2 < (t_max as i128) {
                let rec: HitRecord = self.make_rec(r, t2 as i64);
                return Some(rec);
            }
            None
        } else {
            None
        }
    }
}

/// The stored normal always opposes the incoming ray: the outward normal is
/// kept only when the ray arrives against it, and flipped otherwise, so the
/// dot of the ray's direction with the record's normal is never positive.
pub proof fn lemma_hit_normal_opposes(s: Sphere, r: Ray, t_min: int, t_max: int)
    ensures
        match sphere_hit_spec(s, r, t_min, t_max) {
            Some(h) => dot3(r.direction@, h.normal) <= 0,
            None => true,
        },
{
    match sphere_hit_spec(s, r, t_min, t_max) {
        Some(h) => {
            let p = h.p;
            let outward = vdiv(vsub(p, s.center@), s.radius as int);
            if !(dot3(r.direction@, outward) < 0) {
                crate::vec3::lemma_dot3_neg(r.direction@, outward);
            }
        },
        None => {},
    }
}

/// The record a sphere hit produces carries that sphere's material.
pub proof fn lemma_sphere_hit_material(s: Sphere, r: Ray, t_min: int, t_max: int)
    ensures
        match sphere_hit_spec(s, r, t_min, t_max) {
            Some(h) => h.material == s.material,
            None => true,
        },
{
}

/// The nearer root always wins: the first root the intersection tries is
/// never beyond the second.
proof fn lemma_sphere_roots_ordered(s: Sphere, r: Ray)
    requires
        ray_ok(r),
    ensures
        ({
            let oc = vsub(r.origin@, s.center@);
            let a = dot3(r.direction@, r.direction@);
            let half_b = dot3(oc, r.direction@);
            let c = dot3(oc, oc) - mul_fx(s.radius as int, s.radius as int);
            let disc = half_b * half_b - a * c;
            disc > 0 ==> div_trunc((-half_b - sqrt_floor(disc as nat)) * SCALE, a) <= div_trunc(
                (-half_b + sqrt_floor(disc as nat)) * SCALE,
                a,
            )
        }),
{
    let oc = vsub(r.origin@, s.center@);
    let a = dot3(r.direction@, r.direction@);
    let half_b = dot3(oc, r.direction@);
    let c = dot3(oc, oc) - mul_fx(s.radius as int, s.radius as int);
    let disc = half_b * half_b - a * c;
    if disc > 0 {
        let root = sqrt_floor(disc as nat) as int;
        assert((-half_b - root) * SCALE <= (-half_b + root) * SCALE);
        crate::math::lemma_div_trunc_mono(
            (-half_b - root) * SCALE,
            (-half_b + root) * SCALE,
            a,
        );
    }
}

/// Shrinking the far end of the search interval can only turn a hit into a
/// miss: an interval that missed still misses, and one truncated at or
/// before its own hit misses too.
pub proof fn lemma_sphere_hit_shrink(s: Sphere, r: Ray, t_min: int, tm1: int, tm2: int)
    requires
        ray_ok(r),
        tm2 <= tm1,
    ensures
        sphere_hit_spec(s, r, t_min, tm1) is None ==> sphere_hit_spec(s, r, t_min, tm2) is None,
        match sphere_hit_spec(s, r, t_min, tm1) {
            Some(h) => tm2 <= h.t ==> sphere_hit_spec(s, r, t_min, tm2) is None,
            None => true,
        },
{
    lemma_sphere_roots_ordered(s, r);
}

/// Any record a sphere intersection returns lies strictly inside the search
/// interval it was asked for.
pub proof fn lemma_sphere_hit_in_range(s: Sphere, r: Ray, t_min: int, t_max: int)
    ensures
        match sphere_hit_spec(s, r, t_min, t_max) {
            Some(h) => t_min < h.t < t_max,
            None => true,
        },
{
}

/// A ray that starts exactly on the surface of a sphere of positive radius
/// and points outward finds no intersection when the search starts at a
/// positive bound: the quadratic's constant term vanishes, so the
/// discriminant is a perfect square, and both roots come out at or below
/// zero.
pub proof fn lemma_no_self_hit(s: Sphere, r: Ray, t_min: int, t_max: int)
    requires
        s.radius > 0,
        ray_ok(r),
        dot3(vsub(r.origin@, s.center@), vsub(r.origin@, s.center@)) == mul_fx(
            s.radius as int,
            s.radius as int,
        ),
        dot3(vsub(r.origin@, s.center@), r.direction@) >= 0,
        t_min > 0,
    ensures
        sphere_hit_spec(s, r, t_min, t_max) is None,
{
    let oc = vsub(r.origin@, s.center@);
    let a = dot3(r.direction@, r.direction@);
    let half_b = dot3(oc, r.direction@);
    let c = dot3(oc, oc) - mul_fx(s.radius as int, s.radius as int);
    assert(c == 0);
    let disc = half_b * half_b - a * c;
    assert(disc == half_b * half_b) by (nonlinear_arith)
        requires
            disc == half_b * half_b - a * c,
            c == 0,
    ;
    if disc > 0 {
        assert((half_b as nat) * (half_b as nat) <= disc as nat && (disc as nat) < ((half_b as nat)
            + 1) * ((half_b as nat) + 1)) by (nonlinear_arith)
            requires
                half_b >= 0,
                disc == half_b * half_b,
        ;
        crate::math::lemma_sqrt_floor_unique(disc as nat, half_b as nat);
        let root = sqrt_floor(disc as nat) as int;
        assert(root == half_b);
        let num1 = (-half_b - root) * SCALE;
        assert(num1 <= 0) by (nonlinear_arith)
            requires
                num1 == (-half_b - root) * SCALE,
                root == half_b,
                half_b >= 0,
        ;
        crate::math::lemma_div_trunc_bound(num1, a);
        let t1 = div_trunc(num1, a);
        assert(t1 <= 0);
        assert(!(t_min < t1 && t1 < t_max));
        let num2 = (-half_b + root) * SCALE;
        assert(num2 == 0) by (nonlinear_arith)
            requires
                num2 == (-half_b + root) * SCALE,
                root == half_b,
        ;
        crate::math::lemma_div_trunc_bound(num2, a);
        let t2 = div_trunc(num2, a);
        assert(t2 <= 0);
        assert(!(t_min < t2 && t2 < t_max));
    }
}

/// A near-box offset over a lawful radius stays within the raw scalar.
proof fn lemma_outward_fits(x: int, radius: int)
    requires
        abs(x) <= 5_000_010_000_000_000,
        MIN_RADIUS <= abs(radius) <= MAX_COORD,
    ensures
        abs(div_trunc(x * SCALE, radius)) <= 5_200_000_000_000_000_000,
{
    let ra = abs(radius) as int;
    assert(-(ra * 5_200_000_000_000_000_000) <= x * SCALE <= ra * 5_200_000_000_000_000_000)
        by (nonlinear_arith)
        requires
            -5_000_010_000_000_000 <= x <= 5_000_010_000_000_000,
            ra >= MIN_RADIUS,
    ;
    lemma_div_trunc_abs_le_gen(x * SCALE, radius, 5_200_000_000_000_000_000);
}

} // verus!
