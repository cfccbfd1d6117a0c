use raytracer::dielectric::Dielectric;
use raytracer::hittable::HitRecord;
use raytracer::lambertian::Lambertian;
use raytracer::material::Material;
use raytracer::metal::Metal;
use raytracer::ray::Ray;
use raytracer::vec3::Vec3;

const S: i64 = 1_000_000;

fn rec_at_origin(material: Material, front_face: bool) -> HitRecord {
    HitRecord {
        p: Vec3::new(0, 0, 0),
        normal: Vec3::new(0, 0, S),
        material,
        t: S,
        front_face,
    }
}

#[test]
fn lambertian_always_scatters() {
    let m = Lambertian::new(Vec3::new(300_000, 500_000, 700_000));
    let rec = rec_at_origin(Material::Lambertian(m), true);
    let r_in = Ray::new(Vec3::new(0, 0, 5 * S), Vec3::new(0, 0, -S));
    for _ in 0..32 {
        let (scattered, attenuation) = m.scatter(&r_in, &rec).expect("diffuse always scatters");
        assert_eq!(attenuation, Vec3::new(300_000, 500_000, 700_000));
        assert_eq!(scattered.origin, rec.p);
    }
}

#[test]
fn metal_reflects_head_on() {
    let m = Metal::new(Vec3::new(800_000, 800_000, 800_000), 0);
    let rec = rec_at_origin(Material::Metal(m), true);
    let res = m.scatter_with_offset(Vec3::new(0, 0, -S), &rec, Vec3::new(0, 0, 0));
    let (scattered, attenuation) = res.expect("head-on reflection leaves the surface");
    assert_eq!(scattered.direction, Vec3::new(0, 0, S));
    assert_eq!(attenuation, Vec3::new(800_000, 800_000, 800_000));
}

#[test]
fn metal_absorbs_when_scattered_into_surface() {
    // the perturbed direction lands exactly in the surface plane: its dot
    // with the normal is zero, so the ray is absorbed
    let m = Metal::new(Vec3::new(800_000, 800_000, 800_000), S);
    let rec = rec_at_origin(Material::Metal(m), true);
    let res = m.scatter_with_offset(Vec3::new(0, 0, -S), &rec, Vec3::new(0, 0, -S));
    assert!(res.is_none());
}

#[test]
fn zero_fuzz_metal_reflects_deterministically() {
    // with zero fuzz the random draw cannot decide: every call reflects the
    // mirror direction exactly
    let m = Metal::new(Vec3::new(800_000, 800_000, 800_000), 0);
    let rec = rec_at_origin(Material::Metal(m), true);
    let r_in = Ray::new(Vec3::new(0, 0, 5 * S), Vec3::new(0, 0, -S));
    for _ in 0..32 {
        let (scattered, _) = m.scatter(&r_in, &rec).expect("the mirror leaves the surface");
        assert_eq!(scattered.direction, Vec3::new(0, 0, S));
    }
}

#[test]
fn zero_fuzz_metal_absorbs_deterministically() {
    // arriving along the normal from behind, the mirror direction points
    // into the surface: every call absorbs
    let m = Metal::new(Vec3::new(800_000, 800_000, 800_000), 0);
    let rec = rec_at_origin(Material::Metal(m), false);
    let r_in = Ray::new(Vec3::new(0, 0, -5 * S), Vec3::new(0, 0, S));
    for _ in 0..32 {
        assert!(m.scatter(&r_in, &rec).is_none());
    }
}

#[test]
fn metal_scatter_leaves_surface_or_absorbs() {
    let m = Metal::new(Vec3::new(900_000, 900_000, 900_000), 500_000);
    let rec = rec_at_origin(Material::Metal(m), true);
    let r_in = Ray::new(Vec3::new(0, 0, 5 * S), Vec3::new(0, 0, -S));
    for _ in 0..32 {
        if let Some((scattered, _)) = m.scatter(&r_in, &rec) {
            assert!(scattered.direction.dot(rec.normal) > 0);
        }
    }
}

#[test]
fn glass_head_on_refracts_at_base_reflectance() {
    // head-on, the sample equal to the base reflectance refracts: the ray
    // passes straight through
    let d = Dielectric::new(1_500_000);
    let rec = rec_at_origin(Material::Dielectric(d), true);
    let (scattered, attenuation) = d.scatter_decided(Vec3::new(0, 0, -S), &rec, 40_000);
    assert_eq!(scattered.direction, Vec3::new(0, 0, -S));
    assert_eq!(attenuation, Vec3::new(S, S, S));
}

#[test]
fn glass_head_on_reflects_below_base_reflectance() {
    let d = Dielectric::new(1_500_000);
    let rec = rec_at_origin(Material::Dielectric(d), true);
    let (scattered, _) = d.scatter_decided(Vec3::new(0, 0, -S), &rec, 39_999);
    assert_eq!(scattered.direction, Vec3::new(0, 0, S));
}

#[test]
fn glass_always_scatters_white() {
    let d = Dielectric::new(1_500_000);
    let rec = rec_at_origin(Material::Dielectric(d), true);
    let r_in = Ray::new(Vec3::new(0, 0, 5 * S), Vec3::new(0, 0, -S));
    for _ in 0..32 {
        let (scattered, attenuation) = d.scatter(&r_in, &rec).expect("glass absorbs nothing");
        assert_eq!(attenuation, Vec3::new(S, S, S));
        assert_eq!(scattered.origin, rec.p);
    }
}

#[test]
fn schlick_head_on_is_base_reflectance() {
    // at cosine one the reflectance is exactly ((1 - r)/(1 + r)) squared:
    // for the ratio 1/1.5 that is 0.04
    assert_eq!(raytracer::math::schlick(S, 666_666), 40_000);
}

#[test]
fn schlick_grows_toward_grazing() {
    let head_on = raytracer::math::schlick(S, 666_666);
    let oblique = raytracer::math::schlick(S / 2, 666_666);
    let grazing = raytracer::math::schlick(0, 666_666);
    assert!(head_on <= oblique);
    assert!(oblique <= grazing);
}

#[test]
fn material_enum_dispatch() {
    let rec = rec_at_origin(
        Material::Lambertian(Lambertian::new(Vec3::new(S / 2, S / 2, S / 2))),
        true,
    );
    let r_in = Ray::new(Vec3::new(0, 0, 5 * S), Vec3::new(0, 0, -S));
    let res = rec.material.scatter(&r_in, &rec);
    assert!(res.is_some());
}
