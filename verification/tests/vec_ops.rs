use raytracer::vec3::Vec3;

const S: i64 = 1_000_000;

#[test]
fn new_and_getters() {
    let v = Vec3::new(1, 2, 3);
    assert_eq!(v.x(), 1);
    assert_eq!(v.y(), 2);
    assert_eq!(v.z(), 3);
}

#[test]
fn add_and_sub_are_componentwise() {
    let a = Vec3::new(1, -2, 3);
    let b = Vec3::new(10, 20, 30);
    assert_eq!(a.add(b), Vec3::new(11, 18, 33));
    assert_eq!(a.sub(b), Vec3::new(-9, -22, -27));
    assert_eq!(a.neg(), Vec3::new(-1, 2, -3));
}

#[test]
fn scale_is_fixed_point() {
    // 2.0 scaled by 0.5 is 1.0
    let v = Vec3::new(2 * S, -2 * S, 0);
    assert_eq!(v.scale(S / 2), Vec3::new(S, -S, 0));
}

#[test]
fn mul_is_componentwise_fixed_point() {
    let a = Vec3::new(2 * S, 3 * S, S / 2);
    let b = Vec3::new(S / 2, S, 2 * S);
    assert_eq!(a.mul(b), Vec3::new(S, 3 * S, S));
}

#[test]
fn div_by_scalar() {
    let v = Vec3::new(2 * S, -4 * S, 0);
    assert_eq!(v.div(2 * S), Vec3::new(S, -2 * S, 0));
}

#[test]
fn dot_product_exact() {
    let a = Vec3::new(S, 2 * S, 3 * S);
    let b = Vec3::new(4 * S, 5 * S, 6 * S);
    assert_eq!(a.dot(b), 32 * S);
}

#[test]
fn cross_product_of_axes() {
    let x = Vec3::new(S, 0, 0);
    let y = Vec3::new(0, S, 0);
    assert_eq!(x.cross(y), Vec3::new(0, 0, S));
    assert_eq!(y.cross(x), Vec3::new(0, 0, -S));
}

#[test]
fn length_of_three_four_five() {
    let v = Vec3::new(0, 3 * S, 4 * S);
    assert_eq!(v.length(), 5 * S);
    assert_eq!(v.length_squared(), 25 * S);
}

#[test]
fn unit_vector_exact_case() {
    let v = Vec3::new(0, 3 * S, 4 * S);
    let u = v.unit_vector();
    assert_eq!(u, Vec3::new(0, 600_000, 800_000));
    assert_eq!(u.length(), S);
}

#[test]
fn unit_vector_length_within_tolerance() {
    // an awkward vector: the normalized length stays within the proven band
    let v = Vec3::new(1_234_567, 7_654_321, -999_999);
    let u = v.unit_vector();
    let l = u.length();
    assert!(l >= S - 4, "unit length too short: {}", l);
    assert!(l <= S + 7, "unit length too long: {}", l);
}

#[test]
fn reflect_head_on() {
    let v = Vec3::new(0, 0, -S);
    let n = Vec3::new(0, 0, S);
    assert_eq!(v.reflect(n), Vec3::new(0, 0, S));
}

#[test]
fn reflect_at_angle() {
    // coming in diagonally, the vertical component flips
    let v = Vec3::new(S, -S, 0);
    let n = Vec3::new(0, S, 0);
    assert_eq!(v.reflect(n), Vec3::new(S, S, 0));
}

#[test]
fn reflact_head_on_passes_straight_through() {
    let v = Vec3::new(0, 0, -S);
    let n = Vec3::new(0, 0, S);
    let r = v.reflact(n, 666_666);
    assert_eq!(r, Vec3::new(0, 0, -S));
}
