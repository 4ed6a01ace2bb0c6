use joystepper::fixed::{
    clamp_wide, div_floor, div_toward_zero, magnitude_of, saturate_i64, scaled_quotient,
};
use joystepper::axis::clamp_to;
use joystepper::timeval::{diff_micros, TimeVal};

#[test]
fn magnitude_of_both_signs() {
    assert_eq!(magnitude_of(0), 0);
    assert_eq!(magnitude_of(17), 17);
    assert_eq!(magnitude_of(-17), 17);
    assert_eq!(magnitude_of(i128::MIN + 1), i128::MAX as u128);
}

#[test]
fn division_toward_zero() {
    assert_eq!(div_toward_zero(7, 2), 3);
    assert_eq!(div_toward_zero(-7, 2), -3);
    assert_eq!(div_toward_zero(7, -2), -3);
    assert_eq!(div_toward_zero(-7, -2), 3);
    assert_eq!(div_toward_zero(0, -2), 0);
    assert_eq!(div_toward_zero(1, 5), 0);
    assert_eq!(div_toward_zero(-1, 5), 0);
}

#[test]
fn division_rounding_down() {
    assert_eq!(div_floor(7, 2), 3);
    assert_eq!(div_floor(-7, 2), -4);
    assert_eq!(div_floor(-8, 2), -4);
    assert_eq!(div_floor(-1, 1_000_000), -1);
    assert_eq!(div_floor(0, 3), 0);
    assert_eq!(div_floor(i128::MIN + 1, 1), i128::MIN + 1);
}

#[test]
fn saturation_at_word_range() {
    assert_eq!(saturate_i64(5), 5);
    assert_eq!(saturate_i64(i64::MAX as i128), i64::MAX);
    assert_eq!(saturate_i64(i64::MAX as i128 + 1), i64::MAX);
    assert_eq!(saturate_i64(i64::MIN as i128), i64::MIN);
    assert_eq!(saturate_i64(i64::MIN as i128 - 1), i64::MIN);
}

#[test]
fn scaled_quotient_is_exact_within_bound() {
    assert_eq!(scaled_quotient(3, 7, 2, 100), 10);
    assert_eq!(scaled_quotient(-3, 7, 2, 100), -10);
    assert_eq!(scaled_quotient(3, 7, -2, 100), -10);
    assert_eq!(scaled_quotient(-3, 7, -2, 100), 10);
    assert_eq!(scaled_quotient(3, 0, 2, 100), 0);
    assert_eq!(scaled_quotient(0, 7, 2, 100), 0);
    assert_eq!(scaled_quotient(100, 2, 2, 100), 100);
}

#[test]
fn scaled_quotient_saturates_at_bound() {
    assert_eq!(scaled_quotient(101, 2, 2, 100), 100);
    assert_eq!(scaled_quotient(-101, 2, 2, 100), -100);
    // The product does not fit 128 bits.
    let big: i128 = 1 << 96;
    assert_eq!(scaled_quotient(big, u64::MAX, 3, 1 << 52), 1 << 52);
    assert_eq!(scaled_quotient(-big, u64::MAX, 3, 1 << 52), -(1 << 52));
    assert_eq!(scaled_quotient(big, u64::MAX, -(1 << 64), u64::MAX), -(u64::MAX as i128));
    assert_eq!(scaled_quotient(-big, u64::MAX, -(1 << 64), u64::MAX), u64::MAX as i128);
    // The product fits, the quotient is within the bound.
    assert_eq!(scaled_quotient(big, 1 << 20, 1 << 64, 1 << 53), 1 << 52);
    assert_eq!(scaled_quotient(big, 1 << 20, 1 << 64, u64::MAX), 1 << 52);
}

#[test]
fn clamp_raises_then_lowers() {
    assert_eq!(clamp_to(5, 0, 10), 5);
    assert_eq!(clamp_to(-5, 0, 10), 0);
    assert_eq!(clamp_to(15, 0, 10), 10);
    // With the bounds crossed, the upper one wins.
    assert_eq!(clamp_to(5, 10, 0), 0);
    assert_eq!(clamp_to(-5, 10, 0), 0);
    assert_eq!(clamp_to(i128::MAX, i64::MIN, i64::MAX), i64::MAX);
    assert_eq!(clamp_wide(5, 0, 10), 5);
    assert_eq!(clamp_wide(-5, 0, 10), 0);
    assert_eq!(clamp_wide(15, 0, 10), 10);
    assert_eq!(clamp_wide(5, 10, 0), 0);
    assert_eq!(clamp_wide(i128::MIN, i128::MIN + 1, i128::MAX), i128::MIN + 1);
}

#[test]
fn time_stamp_difference_in_microseconds() {
    let a = TimeVal { tv_sec: 10, tv_usec: 250_000 };
    let b = TimeVal { tv_sec: 8, tv_usec: 750_000 };
    assert_eq!(diff_micros(&a, &b), 1_500_000);
    assert_eq!(diff_micros(&b, &a), -1_500_000);
    assert_eq!(diff_micros(&a, &a), 0);
    let late = TimeVal { tv_sec: i64::MAX, tv_usec: i64::MAX };
    let early = TimeVal { tv_sec: i64::MIN, tv_usec: i64::MIN };
    assert_eq!(
        diff_micros(&late, &early),
        (i64::MAX as i128 - i64::MIN as i128) * 1_000_001
    );
}
