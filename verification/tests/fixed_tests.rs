use t3d::fixed::{fxmul_i128, fxround_i128, sat_i32, sat_i64, tdiv_i128, HALF, SCALE};

#[test]
fn tdiv_truncates_toward_zero() {
    assert_eq!(tdiv_i128(7, 2), 3);
    assert_eq!(tdiv_i128(-7, 2), -3);
    assert_eq!(tdiv_i128(6, 2), 3);
    assert_eq!(tdiv_i128(-6, 2), -3);
    assert_eq!(tdiv_i128(0, 5), 0);
}

#[test]
fn fxmul_scales_products_down() {
    let one = SCALE as i128;
    assert_eq!(fxmul_i128(one, one), one); // 1 * 1 == 1
    assert_eq!(fxmul_i128(3 * one, 2 * one), 6 * one);
    assert_eq!(fxmul_i128(one / 2, one / 2), one / 4); // 0.5 * 0.5 == 0.25
    assert_eq!(fxmul_i128(-one, 3 * one), -3 * one);
}

#[test]
fn fxround_rounds_halves_away_from_zero() {
    let one = SCALE as i128;
    let half = HALF as i128;
    assert_eq!(fxround_i128(one), 1);
    assert_eq!(fxround_i128(one + half), 2); // 1.5 rounds up
    assert_eq!(fxround_i128(one + half - 1), 1); // just under 1.5
    assert_eq!(fxround_i128(-(one + half)), -2); // -1.5 rounds away
    assert_eq!(fxround_i128(0), 0);
}

#[test]
fn saturation_clamps_at_type_bounds() {
    assert_eq!(sat_i64(i128::MAX), i64::MAX);
    assert_eq!(sat_i64(i128::MIN), i64::MIN);
    assert_eq!(sat_i64(42), 42);
    assert_eq!(sat_i32(i64::MAX as i128), i32::MAX);
    assert_eq!(sat_i32(-(1i128 << 40)), i32::MIN);
    assert_eq!(sat_i32(-42), -42);
}
