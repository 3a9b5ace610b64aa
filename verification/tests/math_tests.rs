use amm_engine::math::{format_percent_bp, percentage_change_bp};

#[test]
fn percentage_change_undefined_for_zero_old() {
    assert_eq!(percentage_change_bp(0, 0), None);
    assert_eq!(percentage_change_bp(0, 1), None);
    assert_eq!(percentage_change_bp(0, 12345), None);
    assert_eq!(percentage_change_bp(0, u128::MAX), None);
}

#[test]
fn percentage_change_ten_percent_up() {
    assert_eq!(percentage_change_bp(100, 110), Some(1000));
}

#[test]
fn percentage_change_ten_percent_down() {
    assert_eq!(percentage_change_bp(100, 90), Some(-1000));
}

#[test]
fn percentage_change_no_change_is_zero() {
    assert_eq!(percentage_change_bp(77, 77), Some(0));
}

#[test]
fn percentage_change_rounds_towards_zero() {
    // |304 - 300| * 10000 / 300 = 133.33..., rounded towards zero both ways.
    assert_eq!(percentage_change_bp(300, 304), Some(133));
    assert_eq!(percentage_change_bp(300, 296), Some(-133));
    // A sub-basis-point loss rounds to zero, keeping the positive sign.
    assert_eq!(percentage_change_bp(20_000, 19_999), Some(0));
}

#[test]
fn percentage_change_overflow_is_none() {
    // The exact magnitude exceeds the signed result type.
    assert_eq!(percentage_change_bp(1, u128::MAX), None);
}

#[test]
fn percentage_change_survives_wide_intermediates() {
    // The product |new - old| * 10000 overflows 128 bits, but the exact
    // quotient is small and must come back.
    let old = 100_000_000_000_000_000_000_000_000_000_000_000u128;
    let new = 4 * old;
    assert_eq!(percentage_change_bp(old, new), Some(30_000));
    assert_eq!(percentage_change_bp(new, old), Some(-7_500));
    // A wide intermediate with a fractional tail still rounds down.
    assert_eq!(percentage_change_bp(3 * old, 4 * old), Some(3_333));
    // Near the signed boundary the exact magnitude still comes back...
    assert_eq!(
        percentage_change_bp(1, i128::MAX as u128 / 10_000),
        Some(170_141_183_460_469_231_731_687_303_715_884_090_000)
    );
    // ...and one step past it is the genuine machine limit.
    assert_eq!(percentage_change_bp(1, u128::MAX / 2), None);
}

#[test]
fn format_positive_basis_points() {
    assert_eq!(format_percent_bp(1234), "12.34%");
}

#[test]
fn format_negative_basis_points() {
    assert_eq!(format_percent_bp(-50), "-0.50%");
}

#[test]
fn format_zero_and_small_values() {
    assert_eq!(format_percent_bp(0), "0.00%");
    assert_eq!(format_percent_bp(5), "0.05%");
    assert_eq!(format_percent_bp(100), "1.00%");
    assert_eq!(format_percent_bp(-100), "-1.00%");
    assert_eq!(format_percent_bp(10000), "100.00%");
}

#[test]
fn format_large_value() {
    assert_eq!(format_percent_bp(123456789), "1234567.89%");
}
