use vstd::prelude::*;
use crate::hittable::{HitRecord, rec_ok};
use crate::math::{SCALE, MAX_DIR, lemma_mul_fx_bound, lemma_div_trunc_abs_le};
use crate::ray::Ray;
use crate::vec3::{
    Vec3, Color, V3, color_wf, vadd, unit3, reflect3, dot3, sq_norm, v_bounded,
    lemma_sum_of_products_bound,
};

verus! {

/// A reflective surface with an albedo and a fuzz factor that perturbs the
/// mirrored direction.
#[derive(Clone, Copy, Debug, PartialEq, Eq, Structural)]
pub struct Metal {
    pub albedo: Color,
    pub fuzz: i64,
}

impl Metal {
    pub fn new(albedo: Color, fuzz: i64) -> (m: Self)
        ensures
            m.albedo == albedo,
            m.fuzz == fuzz,
    {
        Metal { albedo, fuzz }
    }

    /// Well-formed when the albedo is a color and the fuzz lies in [0, 1].
    pub open spec fn wf(self) -> bool {
        color_wf(self.albedo@) && 0 <= self.fuzz <= SCALE
    }

    /// The deterministic tail of metal scattering, for a fuzz offset already
    /// sampled: reflect the unit incoming direction about the normal and
    /// perturb it. The ray is absorbed exactly when the perturbed direction
    /// does not leave the surface.
    pub fn scatter_with_offset(&self, unit_in: Vec3, rec: &HitRecord, offset: Vec3) -> (res: Option<
        (Ray, Color),
    >)
        requires
            self.wf(),
            rec_ok(*rec),
            v_bounded(unit_in@, SCALE as int),
            v_bounded(offset@, SCALE as int),
        ensures
            res is Some <==> dot3(vadd(reflect3(unit_in@, rec.normal@), offset@), rec.normal@) > 0,
            match res {
                Some((scattered, attenuation)) => {
                    &&& scattered.origin == rec.p
                    &&& scattered.direction@ == vadd(reflect3(unit_in@, rec.normal@), offset@)
                    &&& attenuation == self.albedo
                },
                None => true,
            },
    {
        let reflected: Vec3 = unit_in.reflect(rec.normal);
        let dir: Vec3 = reflected.add(offset);
        proof {
            lemma_sum_of_products_bound(dir@, rec.normal@, 401_000_000, 4 * SCALE as int);
            lemma_div_trunc_abs_le(
                dir@.x * rec.normal@.x + dir@.y * rec.normal@.y + dir@.z * rec.normal@.z,
                SCALE as int,
                4_812_000_000,
            );
        }
        let scattered: Ray = Ray::new(rec.p, dir);
        let attenuation: Color = self.albedo;
        if scattered.direction.dot(rec.normal) > 0 {
            Some((scattered, attenuation))
        } else {
            None
        }
    }

    /// Metal scattering: a fuzz-scaled ball sample perturbs the mirror
    /// direction; a result that would pass into the surface is absorbed.
    /// Whatever was drawn, a continuation is the mirror direction plus an
    /// offset no larger than the fuzz; with zero fuzz the draw cannot
    /// decide, and the ray reflects exactly when the mirror direction
    /// leaves the surface.
    pub fn scatter(&self, r_in: &Ray, rec: &HitRecord) -> (res: Option<(Ray, Color)>)
        requires
            self.wf(),
            rec_ok(*rec),
            v_bounded(r_in.direction@, MAX_DIR as int),
            sq_norm(r_in.direction@) > 0,
        ensures
            match res {
                Some((scattered, attenuation)) => {
                    &&& scattered.origin == rec.p
                    &&& attenuation == self.albedo
                    &&& dot3(scattered.direction@, rec.normal@) > 0
                    &&& exists|off: V3|
                        v_bounded(off, self.fuzz as int) && scattered.direction@ == vadd(
                            reflect3(unit3(r_in.direction@), rec.normal@),
                            off,
                        )
                },
                None => true,
            },
            self.fuzz == 0 ==> (res is Some <==> dot3(
                reflect3(unit3(r_in.direction@), rec.normal@),
                rec.normal@,
            ) > 0),
            self.fuzz == 0 ==> match res {
                Some((scattered, _)) => scattered.direction@ == reflect3(
                    unit3(r_in.direction@),
                    rec.normal@,
                ),
                None => true,
            },
    {
        let unit_in: Vec3 = r_in.direction.unit_vector();
        let ball: Vec3 = Vec3::random_in_unit_sphere();
        proof {
            lemma_mul_fx_bound(ball@.x, self.fuzz as int, SCALE as int, self.fuzz as int);
            lemma_mul_fx_bound(ball@.y, self.fuzz as int, SCALE as int, self.fuzz as int);
            lemma_mul_fx_bound(ball@.z, self.fuzz as int, SCALE as int, self.fuzz as int);
            vstd::arithmetic::div_mod::lemma_div_multiples_vanish(
                self.fuzz as int,
                SCALE as int,
            );
        }
        let offset: Vec3 = ball.scale(self.fuzz);
        proof {
            assert(v_bounded(offset@, self.fuzz as int));
            if self.fuzz == 0 {
                assert(offset@ == (V3 { x: 0, y: 0, z: 0 }));
                assert(vadd(reflect3(unit_in@, rec.normal@), offset@) == reflect3(
                    unit_in@,
                    rec.normal@,
                ));
            }
        }
        self.scatter_with_offset(unit_in, rec, offset)
    }
}

} // verus!
