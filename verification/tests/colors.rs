use fractal_core::color::Color;

const UNIT: i64 = 1_000_000;

#[test]
fn lerp_interpolates_each_channel() {
    let a = Color::new(200_000, 400_000, 600_000, UNIT);
    let b = Color::new(600_000, 400_000, 200_000, 0);
    let mid = a.lerp(&b, 500_000);
    assert_eq!(mid, Color::new(400_000, 400_000, 400_000, 500_000));
}

#[test]
fn lerp_at_zero_and_one_hits_the_endpoints() {
    let a = Color::new(123_456, 0, UNIT, 777);
    let b = Color::new(0, 999_999, 1, UNIT);
    assert_eq!(a.lerp(&b, 0), a);
    assert_eq!(a.lerp(&b, UNIT), b);
}

#[test]
fn lerp_truncates_toward_zero() {
    // Upward: 1 * 0.5 truncates to 0.
    let low = Color::new(0, 0, 0, 0);
    let high = Color::new(1, 1, 1, 1);
    assert_eq!(low.lerp(&high, 500_000), Color::new(0, 0, 0, 0));
    // Downward: 100 - 100 * 0.333333 leaves 67, not 66.
    let from = Color::new(100, 100, 100, 100);
    let to = Color::new(0, 0, 0, 0);
    assert_eq!(from.lerp(&to, 333_333), Color::new(67, 67, 67, 67));
}

#[test]
fn lerp_does_not_clamp_out_of_range_factors() {
    let a = Color::new(0, 0, 0, 0);
    let b = Color::new(UNIT, UNIT, UNIT, UNIT);
    // A factor of 2.0 extrapolates past the target.
    assert_eq!(a.lerp(&b, 2 * UNIT), Color::new(2 * UNIT, 2 * UNIT, 2 * UNIT, 2 * UNIT));
    // A factor of -1.0 extrapolates backwards.
    assert_eq!(a.lerp(&b, -UNIT), Color::new(-UNIT, -UNIT, -UNIT, -UNIT));
}

#[test]
fn quantization_truncates_instead_of_rounding() {
    // 0.999 scales to 254.745 and exports as 254, never 255.
    let c = Color::new(999_000, 0, 0, 0);
    assert_eq!(c.to_rgba()[0], 254);
}

#[test]
fn quantization_covers_the_full_byte_range() {
    let c = Color::new(0, UNIT, 500_000, 999_999);
    assert_eq!(c.to_rgba(), [0, 255, 127, 254]);
}

#[test]
fn quantization_saturates_out_of_range_channels() {
    let c = Color::new(-500_000, 2_000_000, UNIT, 0);
    assert_eq!(c.to_rgba(), [0, 255, 255, 0]);
}
