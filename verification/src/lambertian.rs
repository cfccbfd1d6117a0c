use vstd::prelude::*;
use crate::hittable::{HitRecord, rec_ok};
use crate::math::SCALE;
use crate::ray::Ray;
use crate::vec3::{Vec3, Color, V3, color_wf, vadd, sq_norm, v_bounded};

verus! {

/// A diffuse surface that always scatters, tinting the ray by its albedo.
#[derive(Clone, Copy, Debug, PartialEq, Eq, Structural)]
pub struct Lambertian {
    pub albedo: Color,
}

impl Lambertian {
    pub fn new(albedo: Color) -> (m: Self)
        ensures
            m.albedo == albedo,
    {
        Lambertian { albedo }
    }

    /// Well-formed when the albedo is a color with channels in [0, 1].
    pub open spec fn wf(self) -> bool {
        color_wf(self.albedo@)
    }

    /// Diffuse scattering: the ray continues from the hit point toward the
    /// normal plus a random near-unit direction, tinted by the albedo. A
    /// diffuse surface always scatters, and the perturbation is never
    /// degenerate: it is the normalization of a ball sample, with squared
    /// scaled length within the normalizer's proved band around one.
    pub fn scatter(&self, _r_in: &Ray, rec: &HitRecord) -> (res: Option<(Ray, Color)>)
        requires
            self.wf(),
            rec_ok(*rec),
        ensures
            res is Some,
            match res {
                Some((scattered, attenuation)) => {
                    &&& attenuation == self.albedo
                    &&& scattered.origin == rec.p
                    &&& exists|u: V3|
                        {
                            &&& v_bounded(u, SCALE as int)
                            &&& (SCALE as int) * (SCALE as int) - 6 * (SCALE as int) <= sq_norm(u)
                            &&& sq_norm(u) <= (SCALE as int) * (SCALE as int) + 13 * (SCALE as int)
                            &&& scattered.direction@ == vadd(rec.normal@, u)
                        }
                },
                None => false,
            },
    {
        let u: Vec3 = Vec3::random_unit_vector();
        let scatter_direction: Vec3 = rec.normal.add(u);
        proof {
            assert(v_bounded(u@, SCALE as int) && (SCALE as int) * (SCALE as int) - 6 * (
            SCALE as int) <= sq_norm(u@) && sq_norm(u@) <= (SCALE as int) * (SCALE as int) + 13 * (
            SCALE as int) && scatter_direction@ == vadd(rec.normal@, u@));
        }
        Some((Ray::new(rec.p, scatter_direction), self.albedo))
    }
}

} // verus!
