use vstd::prelude::*;
use crate::dielectric::Dielectric;
use crate::hittable::{HitRecord, rec_ok};
use crate::lambertian::Lambertian;
use crate::math::MAX_DIR;
use crate::metal::Metal;
use crate::ray::Ray;
use crate::vec3::{Color, color_wf, sq_norm, v_bounded};

verus! {

/// The closed set of surface materials a primitive can carry. Each variant
/// answers the scattering question: whether and how an incoming ray
/// continues after striking the surface.
#[derive(Clone, Copy, Debug, PartialEq, Eq, Structural)]
pub enum Material {
    Lambertian(Lambertian),
    Metal(Metal),
    Dielectric(Dielectric),
}

impl Material {
    /// Well-formed when the variant's own parameters are.
    pub open spec fn wf(self) -> bool {
        match self {
            Material::Lambertian(m) => m.wf(),
            Material::Metal(m) => m.wf(),
            Material::Dielectric(m) => m.wf(),
        }
    }

    /// The attenuation a continuation from this material carries: the albedo
    /// for the tinting materials, white for glass.
    pub open spec fn attenuation_of(self) -> crate::vec3::V3 {
        match self {
            Material::Lambertian(m) => m.albedo@,
            Material::Metal(m) => m.albedo@,
            Material::Dielectric(_) => crate::vec3::V3 {
                x: crate::math::SCALE as int,
                y: crate::math::SCALE as int,
                z: crate::math::SCALE as int,
            },
        }
    }

    /// Whether and how the incoming ray continues after the hit: nothing
    /// means full absorption. Whatever the variant decides, a continuation
    /// starts at the hit point and carries exactly the variant's attenuation
    /// color; diffuse and clear surfaces always continue, and a zero-fuzz
    /// metal continues exactly when the mirror direction leaves the surface.
    pub fn scatter(&self, r_in: &Ray, rec: &HitRecord) -> (res: Option<(Ray, Color)>)
        requires
            self.wf(),
            rec_ok(*rec),
            v_bounded(r_in.direction@, MAX_DIR as int),
            sq_norm(r_in.direction@) > 0,
        ensures
            match res {
                Some((scattered, attenuation)) => {
                    &&& scattered.origin == rec.p
                    &&& color_wf(attenuation@)
                    &&& attenuation@ == self.attenuation_of()
                },
                None => true,
            },
            self is Lambertian ==> res is Some,
            self is Dielectric ==> res is Some,
            self is Metal ==> match res {
                Some((scattered, _)) => crate::vec3::dot3(scattered.direction@, rec.normal@) > 0,
                None => true,
            },
            self matches Material::Metal(m) && m.fuzz == 0 ==> (res is Some <==> crate::vec3::dot3(
                crate::vec3::reflect3(crate::vec3::unit3(r_in.direction@), rec.normal@),
                rec.normal@,
            ) > 0),
    {
        match self {
            Material::Lambertian(m) => m.scatter(r_in, rec),
            Material::Metal(m) => m.scatter(r_in, rec),
            Material::Dielectric(m) => m.scatter(r_in, rec),
        }
    }
}

} // verus!
