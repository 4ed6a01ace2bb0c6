use joystepper::error::EngineError;
use joystepper::fixed::isqrt;
use joystepper::pulse::{ramp_interval_at, ramp_time_at, PulseTable, MIN_PULSE, SLOWEST_PULSE};

#[test]
fn isqrt_exact_values() {
    assert_eq!(isqrt(0), 0);
    assert_eq!(isqrt(1), 1);
    assert_eq!(isqrt(3), 1);
    assert_eq!(isqrt(4), 2);
    assert_eq!(isqrt(99), 9);
    assert_eq!(isqrt(100), 10);
    assert_eq!(isqrt(100_000_000_000_000), 10_000_000);
    assert_eq!(isqrt(200_000_000_000_000), 14_142_135);
    assert_eq!(isqrt(u128::MAX), u64::MAX);
}

#[test]
fn table_starts_with_sentinel_and_first_ramp_intervals() {
    let table = PulseTable::new(20_000_000).unwrap();
    assert_eq!(table.interval(0), SLOWEST_PULSE);
    // t(1) = 10 ms, t(2) = 14.142135 ms.
    assert_eq!(table.interval(1), 10_000_000);
    assert_eq!(table.interval(2), 100_000_000_000_000 / (14_142_135 + 10_000_000));
    assert_eq!(table.interval(2), 4_142_135);
    assert_eq!(table.first_step, 1);
}

#[test]
fn table_is_truncated_at_min_pulse() {
    let table = PulseTable::new(20_000_000).unwrap();
    let len = table.len();
    // 50 microseconds is 20000 steps per second, reached after 10000 steps.
    assert_eq!(len, 10_001);
    assert!(table.interval(len - 1) >= MIN_PULSE);
    for k in 1..len {
        assert!(table.interval(k) <= table.interval(k - 1));
        assert!(table.interval(k) < SLOWEST_PULSE);
    }
}

#[test]
fn ramp_intervals_of_slow_acceleration() {
    // One step per second squared: the first interval is 1.41 s, longer than
    // the sentinel; the second is 0.59 s.
    assert_eq!(ramp_time_at(1_000, 0), 0);
    assert_eq!(ramp_time_at(1_000, 1), 1_414_213_562);
    assert_eq!(ramp_time_at(1_000, 2), 2_000_000_000);
    assert_eq!(ramp_interval_at(1_000, 1), 1_414_213_562);
    assert_eq!(ramp_interval_at(1_000, 2), 585_786_437);
    assert!(ramp_interval_at(1_000, 1) >= SLOWEST_PULSE as u128);
}

#[test]
fn table_is_deterministic() {
    let a = PulseTable::new(12_345_678).unwrap();
    let b = PulseTable::new(12_345_678).unwrap();
    assert_eq!(a.intervals, b.intervals);
    assert_eq!(a.first_step, b.first_step);
}

#[test]
fn table_refuses_non_positive_accel() {
    assert!(matches!(PulseTable::new(0), Err(EngineError::NonPositiveAccel)));
    assert!(matches!(PulseTable::new(-5), Err(EngineError::NonPositiveAccel)));
}

#[test]
fn table_of_huge_accel_is_sentinel_only() {
    let table = PulseTable::new(i64::MAX).unwrap();
    assert_eq!(table.len(), 1);
    assert_eq!(table.max_pulse_ix(200_000), 0);
}

#[test]
fn max_pulse_ix_is_first_interval_below_overhead() {
    let table = PulseTable::new(20_000_000).unwrap();
    let ix = table.max_pulse_ix(200_000);
    assert!(table.interval(ix) < 200_000);
    assert!(table.interval(ix - 1) >= 200_000);
    // 200 microseconds is 5000 steps per second, reached after 625 steps.
    assert_eq!(ix, 626);
    // No interval is below a negative or zero overhead: the last index.
    assert_eq!(table.max_pulse_ix(0), table.len() - 1);
    assert_eq!(table.max_pulse_ix(-7), table.len() - 1);
    // Every interval is below an overhead of more than a second.
    assert_eq!(table.max_pulse_ix(1_000_000_001), 0);
    assert_eq!(table.max_pulse_ix(1_000_000_000), 1);
}

#[test]
fn step_times_are_those_of_uniform_acceleration() {
    for accel in [1_000i64, 777_777, 20_000_000, i64::MAX] {
        for n in [0u64, 1, 2, 3, 10, 625, 10_000, 1_000_000_000_000] {
            let t = ramp_time_at(accel, n) as u128;
            let scaled = 2_000_000_000_000_000_000_000u128 * n as u128;
            assert!(accel as u128 * (t * t) <= scaled);
            assert!(scaled < accel as u128 * ((t + 1) * (t + 1)));
        }
    }
}

#[test]
fn intervals_are_the_times_between_steps() {
    for accel in [1_000i64, 777_777, 20_000_000] {
        for n in 1..2_000u64 {
            let gap = ramp_time_at(accel, n) as i128 - ramp_time_at(accel, n - 1) as i128;
            let dt = ramp_interval_at(accel, n) as i128;
            assert!(gap - 3 <= dt && dt <= gap + 2);
        }
    }
}

#[test]
fn rate_rises_by_the_acceleration_from_step_to_step() {
    for accel in [500i64, 1_000, 2_050, 777_777, 20_000_000] {
        let q = 2_000_000_000_000_000_000_000u128 / accel as u128;
        for n in 2..400u64 {
            let p = ramp_interval_at(accel, n - 1);
            let r = ramp_interval_at(accel, n);
            assert!(r <= p);
            let allowed = (p + 1) * (r + 1) * (p + r + 6);
            assert!((p - r).saturating_sub(1) * q <= allowed);
            // The bound is the exact relation, not a loose one.
            assert!((p - r + 2) * q >= p * r * (p + r) / 2);
        }
    }
}

#[test]
fn rate_changes_by_no_more_than_the_acceleration_along_the_table() {
    for accel in [2_000_000i64, 20_000_000] {
        let table = PulseTable::new(accel).unwrap();
        let room = 2_000_000_000_000_000_000_000u128 - accel as u128;
        for k in 1..table.len() - 1 {
            let p = table.interval(k) as u128;
            let r = table.interval(k + 1) as u128;
            assert!(
                (p - r).saturating_sub(1) * room
                    <= accel as u128 * ((r + 1) * 2_000_000_004_000_000_000)
            );
        }
    }
}
