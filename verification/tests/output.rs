use raytracer::print::{clamp, decode_channel, encode_channel, encode_color};
use raytracer::vec3::Vec3;

const S: i64 = 1_000_000;

#[test]
fn clamp_holds_the_interval() {
    assert_eq!(clamp(-5, 0, 10), 0);
    assert_eq!(clamp(5, 0, 10), 5);
    assert_eq!(clamp(15, 0, 10), 10);
    assert_eq!(clamp(0, 0, 10), 0);
    assert_eq!(clamp(10, 0, 10), 10);
}

#[test]
fn encode_extremes() {
    assert_eq!(encode_channel(0, 1), 0);
    assert_eq!(encode_channel(S, 1), 255);
}

#[test]
fn encode_quarter_intensity() {
    // sqrt(0.25) = 0.5, then 255.999 * 0.5 truncates to 127
    assert_eq!(encode_channel(250_000, 1), 127);
}

#[test]
fn encode_averages_over_samples() {
    // four samples summing to one unit average to a quarter
    assert_eq!(encode_channel(S, 4), 127);
}

#[test]
fn encode_is_monotone() {
    let mut last = -1;
    let mut sum: i64 = 0;
    while sum <= 2 * S {
        let q = encode_channel(sum, 2) as i64;
        assert!(q >= last, "encoding decreased at {}", sum);
        last = q;
        sum += 37_431;
    }
}

#[test]
fn round_trip_keeps_order() {
    let dim = decode_channel(encode_channel(100_000, 1));
    let mid = decode_channel(encode_channel(400_000, 1));
    let bright = decode_channel(encode_channel(900_000, 1));
    assert!(dim <= mid && mid <= bright);
}

#[test]
fn decode_range() {
    assert_eq!(decode_channel(0), 0);
    let full = decode_channel(255);
    assert!(0 < full && full <= S);
}

#[test]
fn encode_color_keeps_channel_order() {
    let c = Vec3::new(100_000, 400_000, 900_000);
    let (r, g, b) = encode_color(c, 1);
    assert!(r <= g && g <= b);
    assert!((0..=255).contains(&r));
    assert!((0..=255).contains(&b));
}
