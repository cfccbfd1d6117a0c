use raytracer::math::{degrees_to_radians, random_double, random_double_range};
use raytracer::vec3::Vec3;

const S: i64 = 1_000_000;

#[test]
fn random_double_in_unit_interval() {
    for _ in 0..256 {
        let u = random_double();
        assert!((0..S).contains(&u));
    }
}

#[test]
fn random_double_range_respects_bounds() {
    for _ in 0..256 {
        let u = random_double_range(-3 * S, 7 * S);
        assert!(-3 * S <= u && u < 7 * S);
    }
}

#[test]
fn ball_samples_lie_inside() {
    for _ in 0..64 {
        let p = Vec3::random_in_unit_sphere();
        assert!(p.length_squared() < S);
    }
}

#[test]
fn disk_samples_are_flat_and_inside() {
    for _ in 0..64 {
        let p = Vec3::random_in_unit_disk();
        assert_eq!(p.z(), 0);
        assert!(p.length_squared() < S);
    }
}

#[test]
fn random_unit_vectors_have_near_unit_length() {
    for _ in 0..64 {
        let v = Vec3::random_unit_vector();
        assert!(v.x().abs() <= S && v.y().abs() <= S && v.z().abs() <= S);
        let l = v.length();
        assert!(l >= S - 4, "unit sample too short: {}", l);
        assert!(l <= S + 7, "unit sample too long: {}", l);
    }
}

#[test]
fn degrees_convert_to_fixed_point_radians() {
    // 180 degrees is pi, 90 degrees half of it
    assert_eq!(degrees_to_radians(180 * S), 3_141_593);
    assert_eq!(degrees_to_radians(90 * S), 1_570_796);
    assert_eq!(degrees_to_radians(0), 0);
}
