use raytracer::lambertian::Lambertian;
use raytracer::material::Material;
use raytracer::math::{T_INF, T_MIN_HIT};
use raytracer::ray::Ray;
use raytracer::sphere::Sphere;
use raytracer::vec3::Vec3;

const S: i64 = 1_000_000;

fn gray() -> Material {
    Material::Lambertian(Lambertian::new(Vec3::new(S / 2, S / 2, S / 2)))
}

#[test]
fn entry_hit_from_z_axis() {
    // a unit sphere at the origin, a ray from (0,0,5) toward -z:
    // entry at t = 4 with outward normal (0,0,1), front face
    let s = Sphere::new(Vec3::new(0, 0, 0), S, gray());
    let r = Ray::new(Vec3::new(0, 0, 5 * S), Vec3::new(0, 0, -S));
    let rec = s.hit(&r, T_MIN_HIT, T_INF).expect("must hit");
    assert_eq!(rec.t, 4 * S);
    assert_eq!(rec.p, Vec3::new(0, 0, S));
    assert_eq!(rec.normal, Vec3::new(0, 0, S));
    assert!(rec.front_face);
}

#[test]
fn no_self_hit_from_surface_outward() {
    // starting on the surface and leaving it, with a positive bias, the
    // sphere is not hit again
    let s = Sphere::new(Vec3::new(0, 0, 0), S, gray());
    let r = Ray::new(Vec3::new(0, 0, S), Vec3::new(0, 0, S));
    assert!(s.hit(&r, T_MIN_HIT, T_INF).is_none());
}

#[test]
fn hit_from_inside_flips_normal() {
    let s = Sphere::new(Vec3::new(0, 0, 0), S, gray());
    let r = Ray::new(Vec3::new(0, 0, 0), Vec3::new(0, 0, S));
    let rec = s.hit(&r, T_MIN_HIT, T_INF).expect("must hit from inside");
    assert_eq!(rec.t, S);
    assert_eq!(rec.p, Vec3::new(0, 0, S));
    assert!(!rec.front_face);
    assert_eq!(rec.normal, Vec3::new(0, 0, -S));
}

#[test]
fn negative_radius_inverts_outward_normal() {
    // the hollow-shell convention: the same geometry, but the outward
    // normal is formed with a negative radius, so the face flag flips
    let s = Sphere::new(Vec3::new(0, 0, 0), -S, gray());
    let r = Ray::new(Vec3::new(0, 0, 5 * S), Vec3::new(0, 0, -S));
    let rec = s.hit(&r, T_MIN_HIT, T_INF).expect("must hit");
    assert_eq!(rec.t, 4 * S);
    assert!(!rec.front_face);
    assert_eq!(rec.normal, Vec3::new(0, 0, S));
}

#[test]
fn offset_ray_misses() {
    let s = Sphere::new(Vec3::new(0, 0, 0), S, gray());
    let r = Ray::new(Vec3::new(0, 3 * S, 5 * S), Vec3::new(0, 0, -S));
    assert!(s.hit(&r, T_MIN_HIT, T_INF).is_none());
}

#[test]
fn t_max_truncates_search() {
    let s = Sphere::new(Vec3::new(0, 0, 0), S, gray());
    let r = Ray::new(Vec3::new(0, 0, 5 * S), Vec3::new(0, 0, -S));
    assert!(s.hit(&r, T_MIN_HIT, 3 * S).is_none());
    assert!(s.hit(&r, T_MIN_HIT, 5 * S).is_some());
}

#[test]
fn second_root_when_first_below_t_min() {
    // t_min past the entry point: the exit root is taken instead
    let s = Sphere::new(Vec3::new(0, 0, 0), S, gray());
    let r = Ray::new(Vec3::new(0, 0, 5 * S), Vec3::new(0, 0, -S));
    let rec = s.hit(&r, 5 * S, T_INF).expect("exit root");
    assert_eq!(rec.t, 6 * S);
    assert!(!rec.front_face);
}
