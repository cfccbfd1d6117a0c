use raytracer::camera::Camera;
use raytracer::hittable::HittableList;
use raytracer::renderer::pixel_color;
use raytracer::sphere::Sphere;
use raytracer::lambertian::Lambertian;
use raytracer::material::Material;
use raytracer::vec3::Vec3;

const S: i64 = 1_000_000;

fn simple_camera(aperture: i64) -> Camera {
    // eye at the origin looking down -z, a 90 degree field of view, square
    // aspect, focus at one
    Camera::new(
        Vec3::new(0, 0, 0),
        Vec3::new(0, 0, -S),
        Vec3::new(0, S, 0),
        S,
        S,
        aperture,
        S,
    )
    .expect("frame is not degenerate")
}

#[test]
fn degenerate_eye_is_rejected() {
    let r = Camera::new(
        Vec3::new(S, 2 * S, 3 * S),
        Vec3::new(S, 2 * S, 3 * S),
        Vec3::new(0, S, 0),
        S,
        S,
        0,
        S,
    );
    assert!(r.is_none());
}

#[test]
fn up_parallel_to_gaze_is_rejected() {
    let r = Camera::new(
        Vec3::new(0, 0, 5 * S),
        Vec3::new(0, 0, 0),
        Vec3::new(0, 0, S),
        S,
        S,
        0,
        S,
    );
    assert!(r.is_none());
}

#[test]
fn pinhole_rays_start_at_the_eye() {
    let cam = simple_camera(0);
    for _ in 0..16 {
        let r = cam.get_ray(S / 2, S / 2);
        assert_eq!(r.origin, Vec3::new(0, 0, 0));
    }
}

#[test]
fn center_ray_points_at_the_look_target() {
    let cam = simple_camera(0);
    let r = cam.get_ray(S / 2, S / 2);
    assert_eq!(r.direction, Vec3::new(0, 0, -S));
}

#[test]
fn corner_ray_spans_the_viewport() {
    let cam = simple_camera(0);
    let r = cam.get_ray(0, 0);
    assert_eq!(r.direction, Vec3::new(-S, -S, -S));
}

#[test]
fn pixel_sums_stay_within_sample_count() {
    let world = HittableList::new(vec![Sphere::new(
        Vec3::new(0, 0, -2 * S),
        S,
        Material::Lambertian(Lambertian::new(Vec3::new(S / 2, S / 2, S / 2))),
    )]);
    let cam = simple_camera(100_000);
    let samples = 4u32;
    let c = pixel_color(&cam, &world, 3, 2, 8, 8, samples, 5);
    let cap = samples as i64 * S;
    assert!(0 <= c.x() && c.x() <= cap);
    assert!(0 <= c.y() && c.y() <= cap);
    assert!(0 <= c.z() && c.z() <= cap);
}

#[test]
fn tiny_render_encodes_every_pixel() {
    // an end-to-end miniature: every encoded channel lands in the 8-bit range
    let world = HittableList::new(vec![
        Sphere::new(
            Vec3::new(0, 0, -2 * S),
            S,
            Material::Lambertian(Lambertian::new(Vec3::new(700_000, 300_000, 300_000))),
        ),
        Sphere::new(
            Vec3::new(0, -101 * S, -2 * S),
            100 * S,
            Material::Lambertian(Lambertian::new(Vec3::new(500_000, 500_000, 500_000))),
        ),
    ]);
    let cam = simple_camera(0);
    for j in 0..4u32 {
        for i in 0..4u32 {
            let c = pixel_color(&cam, &world, i, j, 4, 4, 2, 8);
            let (r, g, b) = raytracer::print::encode_color(c, 2);
            assert!((0..=255).contains(&r));
            assert!((0..=255).contains(&g));
            assert!((0..=255).contains(&b));
        }
    }
}
