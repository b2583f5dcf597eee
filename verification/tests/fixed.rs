use sorot::fixed::{
    fixed_ceil, fixed_div, fixed_floor, fixed_mul, fixed_round, Fixed, FixedMatrix, FIXED_HALF,
    FIXED_ONE, FIXED_SHIFT,
};

fn float_to_fixed(f: f32) -> Fixed {
    (f * FIXED_ONE as f32) as Fixed
}

fn fixed_to_float(f: Fixed) -> f32 {
    f as f32 / FIXED_ONE as f32
}

#[test]
fn test_mul() {
    assert!((fixed_to_float(fixed_mul(float_to_fixed(2.5), float_to_fixed(3.0))) - 7.5).abs() < 0.01);
}

#[test]
fn test_div() {
    assert!((fixed_to_float(fixed_div(float_to_fixed(7.5), float_to_fixed(2.5))) - 3.0).abs() < 0.01);
}

#[test]
fn constants() {
    assert_eq!(FIXED_SHIFT, 8);
    assert_eq!(FIXED_ONE, 1 << FIXED_SHIFT);
    assert_eq!(FIXED_HALF, FIXED_ONE >> 1);
}

#[test]
fn mul_rounds_half_up() {
    // 1.5 * 0.5 = 0.75 exactly
    assert_eq!(fixed_mul(384, 128), 192);
    // 1/256 * 1/2 = 1/512, rounds up to 1/256
    assert_eq!(fixed_mul(1, 128), 1);
    // -1/256 * 1/2 = -1/512, rounds half up to 0
    assert_eq!(fixed_mul(-1, 128), 0);
    // -3/256 * 1/2 = -1.5/256 rounds to -1/256
    assert_eq!(fixed_mul(-3, 128), -1);
    assert_eq!(fixed_mul(12345, FIXED_ONE), 12345);
    assert_eq!(fixed_mul(-777, 0), 0);
}

#[test]
fn mul_wraps_to_32_bits() {
    // (2^24)^2 / 256 = 2^40, which wraps to 0.
    assert_eq!(fixed_mul(1 << 24, 1 << 24), 0);
    // (2^20)^2 / 256 = 2^32 + 0 -> 0; (2^20 + 1) * 2^20 / 256 = 2^32 + 2^12 -> 4096
    assert_eq!(fixed_mul((1 << 20) + 1, 1 << 20), 4096);
}

#[test]
fn div_rounds_toward_zero() {
    // 1 / 3 = 85.33/256 -> 85
    assert_eq!(fixed_div(FIXED_ONE, 3 * FIXED_ONE), 85);
    assert_eq!(fixed_div(-FIXED_ONE, 3 * FIXED_ONE), -85);
    assert_eq!(fixed_div(FIXED_ONE, -3 * FIXED_ONE), -85);
    assert_eq!(fixed_div(-FIXED_ONE, -3 * FIXED_ONE), 85);
    assert_eq!(fixed_div(1000, FIXED_ONE), 1000);
}

#[test]
fn div_wraps_to_32_bits() {
    // 2^30 * 256 / 1 = 2^38, which wraps to 0.
    assert_eq!(fixed_div(1 << 30, 1), 0);
}

#[test]
fn floor_ceil_round() {
    assert_eq!(fixed_floor(384), 256);
    assert_eq!(fixed_ceil(384), 512);
    assert_eq!(fixed_round(384), 512);
    assert_eq!(fixed_round(383), 256);
    assert_eq!(fixed_floor(-1), -256);
    assert_eq!(fixed_ceil(-1), 0);
    assert_eq!(fixed_round(-128), 0);
    assert_eq!(fixed_round(-129), -256);
    assert_eq!(fixed_floor(512), 512);
    assert_eq!(fixed_ceil(512), 512);
    assert_eq!(fixed_floor(i32::MIN), i32::MIN);
}

#[test]
fn matrix_identity_and_map() {
    let id = FixedMatrix::identity();
    assert_eq!(id, FixedMatrix::default());
    assert_eq!(id.map_point(1234, -5678), (1234, -5678));
    let m = FixedMatrix { a: 2 * FIXED_ONE, c: FIXED_HALF, e: 10, b: 0, d: -FIXED_ONE, f: -7 };
    // x' = 2x + y/2 + 10, y' = -y - 7
    assert_eq!(m.map_point(100, 40), (200 + 20 + 10, -40 - 7));
}

#[test]
fn rounding_is_ordered_and_idempotent() {
    for f in [-1000, -257, -256, -129, -128, -1, 0, 1, 127, 128, 255, 256, 1000] {
        assert!(fixed_floor(f) <= f && f <= fixed_ceil(f));
        assert!(fixed_floor(f) <= fixed_round(f) && fixed_round(f) <= fixed_ceil(f));
        assert_eq!(fixed_floor(fixed_floor(f)), fixed_floor(f));
        assert_eq!(fixed_ceil(fixed_ceil(f)), fixed_ceil(f));
        assert_eq!(fixed_round(fixed_round(f)), fixed_round(f));
    }
}
