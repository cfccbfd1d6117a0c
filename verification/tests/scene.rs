use raytracer::hittable::HittableList;
use raytracer::lambertian::Lambertian;
use raytracer::material::Material;
use raytracer::math::{T_INF, T_MIN_HIT};
use raytracer::ray::Ray;
use raytracer::renderer::{random_scene, ray_color};
use raytracer::sphere::Sphere;
use raytracer::vec3::Vec3;

const S: i64 = 1_000_000;

fn gray() -> Material {
    Material::Lambertian(Lambertian::new(Vec3::new(S / 2, S / 2, S / 2)))
}

fn near() -> Sphere {
    Sphere::new(Vec3::new(0, 0, -2 * S), S, gray())
}

fn far() -> Sphere {
    Sphere::new(Vec3::new(0, 0, -5 * S), S, gray())
}

#[test]
fn closest_hit_wins() {
    let world = HittableList::new(vec![near(), far()]);
    let r = Ray::new(Vec3::new(0, 0, 0), Vec3::new(0, 0, -S));
    let rec = world.hit(&r, T_MIN_HIT, T_INF).expect("must hit");
    assert_eq!(rec.t, S);
    assert_eq!(rec.p, Vec3::new(0, 0, -S));
}

#[test]
fn insertion_order_is_irrelevant() {
    let w1 = HittableList::new(vec![near(), far()]);
    let w2 = HittableList::new(vec![far(), near()]);
    let r = Ray::new(Vec3::new(0, 0, 0), Vec3::new(0, 0, -S));
    let r1 = w1.hit(&r, T_MIN_HIT, T_INF).expect("hit");
    let r2 = w2.hit(&r, T_MIN_HIT, T_INF).expect("hit");
    assert_eq!(r1, r2);
}

#[test]
fn add_and_clear() {
    let mut world = HittableList::new(Vec::new());
    world.add(near());
    world.add(far());
    assert_eq!(world.objects.len(), 2);
    world.clear();
    assert_eq!(world.objects.len(), 0);
}

#[test]
fn empty_scene_misses() {
    let world = HittableList::new(Vec::new());
    let r = Ray::new(Vec3::new(0, 0, 0), Vec3::new(0, S, -S));
    assert!(world.hit(&r, T_MIN_HIT, T_INF).is_none());
}

#[test]
fn depth_zero_is_black() {
    let world = HittableList::new(vec![near()]);
    let r = Ray::new(Vec3::new(0, 0, 0), Vec3::new(0, 0, -S));
    assert_eq!(ray_color(&r, &world, 0), Vec3::new(0, 0, 0));
}

#[test]
fn empty_scene_shows_background_gradient() {
    // a ray straight up sees the top of the gradient exactly
    let world = HittableList::new(Vec::new());
    let up = Ray::new(Vec3::new(0, 0, 0), Vec3::new(0, S, 0));
    assert_eq!(ray_color(&up, &world, 50), Vec3::new(500_000, 700_000, S));
    // a horizontal ray sees the midpoint: pure white
    let flat = Ray::new(Vec3::new(0, 0, 0), Vec3::new(S, 0, 0));
    assert_eq!(ray_color(&flat, &world, 50), Vec3::new(750_000, 850_000, S));
    // a ray straight down sees the bottom: white
    let down = Ray::new(Vec3::new(0, 0, 0), Vec3::new(0, -S, 0));
    assert_eq!(ray_color(&down, &world, 50), Vec3::new(S, S, S));
}

#[test]
fn absorbed_ray_is_black() {
    // a metal surface with the incoming ray reflected into it is absorption;
    // simplest stand-in: a scene hit whose scatter may or may not continue,
    // bounded by the unit cube of colors either way
    let world = HittableList::new(vec![near()]);
    let r = Ray::new(Vec3::new(0, 0, 0), Vec3::new(0, 0, -S));
    let c = ray_color(&r, &world, 3);
    assert!(0 <= c.x && c.x <= S);
    assert!(0 <= c.y && c.y <= S);
    assert!(0 <= c.z && c.z <= S);
}

#[test]
fn random_scene_is_populated() {
    let world = random_scene();
    let n = world.objects.len();
    assert!(n >= 4);
    assert!(n <= 4 + 484);
    // the ground sphere comes first
    assert_eq!(world.objects[0].center, Vec3::new(0, -1000 * S, 0));
    assert_eq!(world.objects[0].radius, 1000 * S);
    // the three large feature spheres come last
    assert_eq!(world.objects[n - 3].center, Vec3::new(0, S, 0));
    assert_eq!(world.objects[n - 2].center, Vec3::new(-4 * S, S, S));
    assert_eq!(world.objects[n - 1].center, Vec3::new(4 * S, S, 0));
    // everything between is a small grid sphere: resting at height 0.2 and
    // clear of the zone of radius 0.9 around (4, 0.2, 0)
    for i in 1..n - 3 {
        let s = &world.objects[i];
        assert_eq!(s.radius, S / 5);
        assert_eq!(s.center.y, S / 5);
        let dx = s.center.x - 4 * S;
        let dz = s.center.z;
        assert!(dx * dx + dz * dz > 810_000_000_000);
    }
}
