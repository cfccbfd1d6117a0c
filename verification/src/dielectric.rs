use vstd::prelude::*;
use crate::hittable::{HitRecord, rec_ok};
use crate::math::{
    SCALE, MAX_DIR, div_trunc, mul_fx, sqrt_fx, sqrt_fx64, mul_fx64, div_i128, schlick,
    schlick_spec, random_double, lemma_mul_fx_bound, lemma_div_trunc_abs_le,
    lemma_div_trunc_bound, lemma_sqrt_fx_le_scale,
};
use crate::ray::Ray;
use crate::vec3::{
    Vec3, Color, V3, vneg, dot3, sq_norm, unit3, reflect3, reflact3, v_bounded,
    lemma_sum_of_products_bound,
};

verus! {

/// The ratio of refractive indices across the boundary being crossed: the
/// reciprocal of the index when the ray enters from outside, the index
/// itself when it leaves from inside.
pub open spec fn refraction_ratio(ref_idx: int, front_face: bool) -> int {
    if front_face {
        div_trunc(SCALE * SCALE, ref_idx)
    } else {
        ref_idx
    }
}

/// The incidence cosine: the inverted unit direction against the normal,
/// clamped at one against rounding overshoot.
pub open spec fn incidence_cos(unit_in: V3, normal: V3) -> int {
    let d = dot3(vneg(unit_in), normal);
    if d < SCALE {
        d
    } else {
        SCALE as int
    }
}

/// Total internal reflection: the scaled sine, pushed across the boundary,
/// exceeds one.
pub open spec fn total_internal_reflection(cos: int, ratio: int) -> bool {
    mul_fx(ratio, sqrt_fx(SCALE - mul_fx(cos, cos))) > SCALE
}

/// The direction a dielectric sends the ray on, for a reflectance sample
/// `u` already drawn: reflection under total internal reflection, reflection
/// when the sample falls below the Schlick reflectance, refraction otherwise.
pub open spec fn dielectric_dir(ref_idx: int, unit_in: V3, normal: V3, front_face: bool, u: int) -> V3 {
    let ratio = refraction_ratio(ref_idx, front_face);
    let cos = incidence_cos(unit_in, normal);
    if total_internal_reflection(cos, ratio) {
        reflect3(unit_in, normal)
    } else if u < schlick_spec(cos, ratio) {
        reflect3(unit_in, normal)
    } else {
        reflact3(unit_in, normal, ratio)
    }
}

/// A clear surface that refracts or reflects and absorbs nothing.
#[derive(Clone, Copy, Debug, PartialEq, Eq, Structural)]
pub struct Dielectric {
    pub ref_idx: i64,
}

impl Dielectric {
    pub fn new(ref_idx: i64) -> (m: Self)
        ensures
            m.ref_idx == ref_idx,
    {
        Dielectric { ref_idx }
    }

    /// Well-formed when the refractive index lies in [1/2, 4].
    pub open spec fn wf(self) -> bool {
        SCALE / 2 <= self.ref_idx <= 4 * SCALE
    }

    /// The deterministic tail of dielectric scattering, for a reflectance
    /// sample already drawn. Glass absorbs nothing: the attenuation is
    /// always white.
    pub fn scatter_decided(&self, unit_in: Vec3, rec: &HitRecord, u: i64) -> (res: (Ray, Color))
        requires
            self.wf(),
            rec_ok(*rec),
            v_bounded(unit_in@, SCALE as int),
            0 <= u < SCALE,
        ensures
            res.0.origin == rec.p,
            res.0.direction@ == dielectric_dir(
                self.ref_idx as int,
                unit_in@,
                rec.normal@,
                rec.front_face,
                u as int,
            ),
            res.1@ == (V3 { x: SCALE as int, y: SCALE as int, z: SCALE as int }),
    {
        let attenuation: Color = Vec3::new(SCALE, SCALE, SCALE);
        proof {
            lemma_ratio_range(self.ref_idx as int, rec.front_face);
        }
        let etai_over_etat: i64 = if rec.front_face {
            div_i128((SCALE as i128) * (SCALE as i128), self.ref_idx as i128) as i64
        } else {
            self.ref_idx
        };
        proof {
            lemma_sum_of_products_bound(vneg(unit_in@), rec.normal@, SCALE as int, 4 * SCALE as int);
            lemma_div_trunc_abs_le(
                vneg(unit_in@).x * rec.normal@.x + vneg(unit_in@).y * rec.normal@.y + vneg(
                    unit_in@,
                ).z * rec.normal@.z,
                SCALE as int,
                12 * SCALE as int,
            );
        }
        let d: i64 = unit_in.neg().dot(rec.normal);
        let cos_theta: i64 = if d < SCALE {
            d
        } else {
            SCALE
        };
        proof {
            lemma_mul_fx_bound(cos_theta as int, cos_theta as int, 12 * SCALE as int, 12 * SCALE as int);
            assert((cos_theta as int) * (cos_theta as int) >= 0) by (nonlinear_arith);
            lemma_div_trunc_bound((cos_theta as int) * (cos_theta as int), SCALE as int);
        }
        let m: i64 = mul_fx64(cos_theta, cos_theta);
        let inner: i64 = SCALE - m;
        let sin_theta: i64 = if inner <= 0 {
            0
        } else {
            sqrt_fx64(inner)
        };
        proof {
            assert(sin_theta as int == sqrt_fx(SCALE - mul_fx(cos_theta as int, cos_theta as int)));
            lemma_sqrt_fx_le_scale(inner as int);
            lemma_mul_fx_bound(etai_over_etat as int, sin_theta as int, 4 * SCALE as int, SCALE as int);
        }
        let t: i64 = mul_fx64(etai_over_etat, sin_theta);
        if t > SCALE {
            let reflected: Vec3 = unit_in.reflect(rec.normal);
            return (Ray::new(rec.p, reflected), attenuation);
        }
        let reflect_prob: i64 = schlick(cos_theta, etai_over_etat);
        if u < reflect_prob {
            let reflected: Vec3 = unit_in.reflect(rec.normal);
            return (Ray::new(rec.p, reflected), attenuation);
        }
        let refracted: Vec3 = unit_in.reflact(rec.normal, etai_over_etat);
        (Ray::new(rec.p, refracted), attenuation)
    }

    /// Dielectric scattering: always a continuation, reflected or refracted
    /// by the rules of `dielectric_dir`, with white attenuation.
    pub fn scatter(&self, r_in: &Ray, rec: &HitRecord) -> (res: Option<(Ray, Color)>)
        requires
            self.wf(),
            rec_ok(*rec),
            v_bounded(r_in.direction@, MAX_DIR as int),
            sq_norm(r_in.direction@) > 0,
        ensures
            res is Some,
            match res {
                Some((scattered, attenuation)) => {
                    &&& scattered.origin == rec.p
                    &&& attenuation@ == (V3 {
                        x: SCALE as int,
                        y: SCALE as int,
                        z: SCALE as int,
                    })
                    &&& exists|u: int|
                        0 <= u < SCALE && scattered.direction@ == dielectric_dir(
                            self.ref_idx as int,
                            unit3(r_in.direction@),
                            rec.normal@,
                            rec.front_face,
                            u,
                        )
                },
                None => false,
            },
    {
        let unit_direction: Vec3 = r_in.direction.unit_vector();
        let u: i64 = random_double();
        let pair: (Ray, Color) = self.scatter_decided(unit_direction, rec, u);
        proof {
            assert(0 <= u && u < SCALE && pair.0.direction@ == dielectric_dir(
                self.ref_idx as int,
                unit3(r_in.direction@),
                rec.normal@,
                rec.front_face,
                u as int,
            ));
        }
        Some(pair)
    }
}

/// A ray striking a dielectric head on refracts deterministically once the
/// reflectance sample is at least the base reflectance: the sine vanishes,
/// so total internal reflection cannot occur, and the Schlick reflectance
/// sits exactly at the base reflectance, its minimum over all incidence
/// cosines up to one.
pub proof fn lemma_head_on_refracts(
    ref_idx: int,
    unit_in: V3,
    normal: V3,
    front_face: bool,
    u: int,
)
    requires
        SCALE / 2 <= ref_idx <= 4 * SCALE,
        incidence_cos(unit_in, normal) == SCALE,
        u >= crate::math::schlick_r0(refraction_ratio(ref_idx, front_face)),
    ensures
        !total_internal_reflection(SCALE as int, refraction_ratio(ref_idx, front_face)),
        schlick_spec(SCALE as int, refraction_ratio(ref_idx, front_face)) == crate::math::schlick_r0(
            refraction_ratio(ref_idx, front_face),
        ),
        forall|cos: int|
            0 <= cos <= SCALE ==> #[trigger] schlick_spec(
                cos,
                refraction_ratio(ref_idx, front_face),
            ) >= crate::math::schlick_r0(refraction_ratio(ref_idx, front_face)),
        dielectric_dir(ref_idx, unit_in, normal, front_face, u) == reflact3(
            unit_in,
            normal,
            refraction_ratio(ref_idx, front_face),
        ),
{
    lemma_ratio_range(ref_idx, front_face);
    let ratio = refraction_ratio(ref_idx, front_face);
    let s = SCALE as int;
    vstd::arithmetic::div_mod::lemma_div_multiples_vanish(s, s);
    assert(mul_fx(s, s) == s);
    assert(sqrt_fx(s - mul_fx(s, s)) == 0);
    assert(mul_fx(ratio, 0) == 0) by {
        assert(ratio * 0 == 0) by (nonlinear_arith);
        assert(div_trunc(0, s) == 0);
    }
    assert(!total_internal_reflection(s, ratio));
    crate::math::lemma_schlick_head_on(0, ratio);
    assert forall|cos: int| 0 <= cos <= SCALE implies #[trigger] schlick_spec(cos, ratio)
        >= crate::math::schlick_r0(ratio) by {
        crate::math::lemma_schlick_head_on(cos, ratio);
    }
}

/// The refraction ratio a lawful index produces lies in [1/4, 4].
pub proof fn lemma_ratio_range(ref_idx: int, front_face: bool)
    requires
        SCALE / 2 <= ref_idx <= 4 * SCALE,
    ensures
        1 <= refraction_ratio(ref_idx, front_face) <= 4 * SCALE,
{
    if front_face {
        let s = SCALE as int;
        assert(ref_idx * 250_000 <= s * s && s * s <= ref_idx * (2 * s)) by (nonlinear_arith)
            requires
                s == SCALE as int,
                s / 2 <= ref_idx <= 4 * s,
        ;
        lemma_div_trunc_abs_le(s * s, ref_idx, 2 * s);
        vstd::arithmetic::div_mod::lemma_div_multiples_vanish(250_000, ref_idx);
        vstd::arithmetic::div_mod::lemma_div_is_ordered(ref_idx * 250_000, s * s, ref_idx);
        assert(refraction_ratio(ref_idx, front_face) == (s * s) / ref_idx);
    }
}

} // verus!
