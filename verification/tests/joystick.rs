use joystepper::config::{Config, Opt, MICRO, TIME_LIMIT, TRAVEL_LIMIT, VALUE_LIMIT};
use joystepper::device::{Control, Engine, StatusMessage};
use joystepper::error::JoyError;
use joystepper::axis::{AbsInfo, Axis, AxisSpec, EventCode, InputEvent};
use joystepper::joystick::{
    DeviceInfo, JoyState, TriggerLockState, ASYMMETRY_LIMIT, TRIGGER_FACTOR_LN,
    TRIGGER_RELEASED_LN,
};

const T0: u64 = 1_700_000_000_000_000;

fn config() -> Config {
    Config {
        max_accel: 20_000_000,
        ln_min_speed: 4_605_170,
        ln_init_speed: 6_907_755,
        ln_max_speed: 8_517_193,
        max_speed: 5_000_000,
        min_stroke: 40,
        max_pos: 1340,
        time_to_max: 2_000_000,
        report_events: false,
    }
}

fn stick() -> Option<AbsInfo> {
    Some(AbsInfo { maximum: 32767, flat: 4095 })
}

fn device() -> DeviceInfo {
    DeviceInfo {
        x: stick(),
        y: stick(),
        rx: stick(),
        ry: stick(),
        rz: Some(AbsInfo { maximum: 255, flat: 0 }),
    }
}

fn joy() -> JoyState {
    JoyState::new(config(), &device(), T0).unwrap()
}

fn event(time: u64, code: EventCode, value: i32) -> InputEvent {
    InputEvent { time, code, value }
}

fn plain_axis(flat: i32) -> Axis {
    Axis::new(
        AxisSpec { code: EventCode::AbsX, min: 0, max: 100 * MICRO, time_to_max: 2_000_000 },
        50 * MICRO,
        Some(AbsInfo { maximum: 1000, flat }),
        T0,
    )
    .unwrap()
}

#[test]
fn limits_have_their_values() {
    assert_eq!(MICRO, 1_000_000);
    assert_eq!(VALUE_LIMIT, 1_000_000_000_000_000);
    assert_eq!(TRAVEL_LIMIT, 1_000_000_000);
    assert_eq!(TIME_LIMIT, 8_000_000_000);
    assert_eq!(ASYMMETRY_LIMIT, 800_000);
    assert_eq!(TRIGGER_FACTOR_LN, 3_000_000);
    assert_eq!(TRIGGER_RELEASED_LN, -1_000_000);
}

#[test]
fn command_line_switches_reporting_on() {
    let quiet = Opt { config_file: String::from("stepper.toml"), report_events: false };
    let loud = Opt { config_file: String::from("stepper.toml"), report_events: true };
    assert!(!config().with_options(&quiet).report_events);
    assert!(config().with_options(&loud).report_events);
    let already = Config { report_events: true, ..config() };
    assert!(already.with_options(&quiet).report_events);
    let kept = config().with_options(&loud);
    assert_eq!(kept.max_pos, 1340);
    assert_eq!(kept.time_to_max, 2_000_000);
    assert!(JoyState::new(kept, &device(), T0).unwrap().reports_events());
    assert!(!joy().reports_events());
}

#[test]
fn config_range_is_checked() {
    assert!(config().is_in_range());
    assert!(!Config { time_to_max: 0, ..config() }.is_in_range());
    assert!(!Config { time_to_max: TIME_LIMIT + 1, ..config() }.is_in_range());
    assert!(Config { time_to_max: -TIME_LIMIT, ..config() }.is_in_range());
    assert!(!Config { max_pos: TRAVEL_LIMIT + 1, ..config() }.is_in_range());
    assert!(!Config { min_stroke: -TRAVEL_LIMIT - 1, ..config() }.is_in_range());
    assert!(!Config { max_pos: TRAVEL_LIMIT, min_stroke: -1, ..config() }.is_in_range());
    assert!(Config { max_pos: TRAVEL_LIMIT, min_stroke: 0, ..config() }.is_in_range());
    assert!(!Config { ln_min_speed: -VALUE_LIMIT - 1, ..config() }.is_in_range());
    assert!(!Config { ln_init_speed: VALUE_LIMIT + 1, ..config() }.is_in_range());
    assert!(!Config { ln_max_speed: VALUE_LIMIT + 1, ..config() }.is_in_range());
}

#[test]
fn deadzone_is_a_tenth_more_rounded_to_nearest() {
    assert_eq!(plain_axis(0).flat, 0);
    assert_eq!(plain_axis(4).flat, 4);
    assert_eq!(plain_axis(5).flat, 6);
    assert_eq!(plain_axis(9).flat, 10);
    assert_eq!(plain_axis(10).flat, 11);
    assert_eq!(plain_axis(4095).flat, 4505);
    assert_eq!(plain_axis(-5).flat, -6);
    assert_eq!(plain_axis(i32::MAX).flat, 2_362_232_012);
}

#[test]
fn axis_constructor_failures() {
    let spec = AxisSpec { code: EventCode::AbsY, min: 0, max: 10, time_to_max: 5 };
    assert_eq!(Axis::new(spec, 0, None, T0).err(), Some(JoyError::AbsInfoMissing(EventCode::AbsY)));
    assert_eq!(
        Axis::new(spec, 0, Some(AbsInfo { maximum: 0, flat: 1 }), T0).err(),
        Some(JoyError::ZeroMaximum(EventCode::AbsY))
    );
    let unswept = AxisSpec { time_to_max: 0, ..spec };
    assert_eq!(Axis::new(unswept, 0, None, T0).err(), Some(JoyError::OutOfRange));
    let wide = AxisSpec { max: VALUE_LIMIT + 1, ..spec };
    assert_eq!(Axis::new(wide, 0, stick(), T0).err(), Some(JoyError::OutOfRange));
}

#[test]
fn axis_starts_within_its_range() {
    let spec = AxisSpec { code: EventCode::AbsX, min: 10, max: 20, time_to_max: 5 };
    assert_eq!(Axis::new(spec, 0, stick(), T0).unwrap().driven, 10);
    assert_eq!(Axis::new(spec, 15, stick(), T0).unwrap().driven, 15);
    assert_eq!(Axis::new(spec, 25, stick(), T0).unwrap().driven, 20);
    let axis = Axis::new(spec, 15, stick(), T0).unwrap();
    assert_eq!(axis.last_time, T0);
    assert_eq!(axis.last_value, 0);
    assert_eq!(axis.raw_max, 32767);
}

#[test]
fn axis_integrates_deflection_over_time() {
    let mut axis = plain_axis(100);
    // Half deflection sweeps half the range in the sweep time: 25 per second.
    axis.handle_event(true, &event(T0 + 1_000, EventCode::AbsX, 500));
    assert_eq!(axis.driven, 50 * MICRO);
    assert_eq!(axis.last_value, 500);
    assert_eq!(axis.last_time, T0 + 1_000);
    assert_eq!(axis.speed(), 25_000);
    axis.handle_tick(true, T0 + 401_000);
    assert_eq!(axis.driven, 60 * MICRO);
    // 500 * 100e6 * 7 / (1000 * 2e6) = 175.
    axis.handle_tick(true, T0 + 401_007);
    assert_eq!(axis.driven, 60 * MICRO + 175);
    // Rounded toward zero: -111 * 100e6 * 1 / 2e9 is -5.55.
    axis.handle_event(true, &event(T0 + 401_007, EventCode::AbsX, -111));
    assert_eq!(axis.last_value, -111);
    axis.handle_tick(true, T0 + 401_008);
    assert_eq!(axis.driven, 60 * MICRO + 175 - 5);
    assert_eq!(axis.speed(), -5_550);
}

#[test]
fn axis_holds_still_when_not_driven_or_time_runs_back() {
    let mut axis = plain_axis(100);
    axis.handle_event(true, &event(T0 + 1_000, EventCode::AbsX, 1000));
    axis.handle_tick(false, T0 + 500_000);
    assert_eq!(axis.driven, 50 * MICRO);
    assert_eq!(axis.last_time, T0 + 500_000);
    axis.handle_tick(true, T0 + 400_000);
    assert_eq!(axis.driven, 50 * MICRO);
    assert_eq!(axis.last_time, T0 + 400_000);
    axis.handle_tick(true, T0 + 500_000);
    assert_eq!(axis.driven, 55 * MICRO);
}

#[test]
fn axis_is_held_to_its_range() {
    let mut axis = plain_axis(100);
    axis.handle_event(true, &event(T0, EventCode::AbsX, 1000));
    axis.handle_tick(true, T0 + 3_000_000);
    assert_eq!(axis.driven, 100 * MICRO);
    axis.handle_event(true, &event(T0 + 3_000_000, EventCode::AbsX, -1000));
    axis.handle_tick(true, u64::MAX);
    assert_eq!(axis.driven, 0);
    axis.handle_event(true, &event(0, EventCode::AbsX, i32::MAX));
    axis.handle_tick(true, u64::MAX);
    assert_eq!(axis.driven, 100 * MICRO);
}

#[test]
fn axis_ignores_other_codes() {
    let mut axis = plain_axis(100);
    axis.handle_event(true, &event(T0 + 9, EventCode::AbsY, 1000));
    assert_eq!(axis.last_value, 0);
    assert_eq!(axis.last_time, T0);
    assert_eq!(axis.driven, 50 * MICRO);
}

#[test]
fn axis_clamp_applies_bounds_then_range() {
    let mut axis = plain_axis(100);
    axis.clamp(60 * MICRO as i128, 70 * MICRO as i128);
    assert_eq!(axis.driven, 60 * MICRO);
    axis.clamp(10 * MICRO as i128, 20 * MICRO as i128);
    assert_eq!(axis.driven, 20 * MICRO);
    axis.clamp(150 * MICRO as i128, 170 * MICRO as i128);
    assert_eq!(axis.driven, 100 * MICRO);
    axis.clamp(-5 * MICRO as i128, -2 * MICRO as i128);
    assert_eq!(axis.driven, 0);
    axis.clamp(i128::MAX, i128::MIN);
    assert_eq!(axis.driven, 0);
    axis.clamp(i128::MAX, i128::MAX);
    assert_eq!(axis.driven, 100 * MICRO);
}

#[test]
fn deadzone_samples_leave_centre_unchanged() {
    let mut joy = joy();
    let mut ctrl = Control::new(20_000_000);
    let before = joy.report();
    for (k, value) in [0, 4505, -4505, 17, -4000].into_iter().enumerate() {
        joy.handle_event(&event(T0 + 20_000 * (k as u64 + 1), EventCode::AbsX, value), &mut ctrl);
        assert_eq!(joy.pos.last_value, 0);
        assert_eq!(joy.report().pos, before.pos);
    }
    joy.handle_tick(T0 + 200_000, &mut ctrl);
    assert_eq!(joy.report().pos, before.pos);
    assert_eq!(joy.report().stroke_len, before.stroke_len);
    assert_eq!(joy.report().asymmetry, before.asymmetry);
    assert_eq!(joy.report().ln_speed, before.ln_speed);
    // One count beyond the deadzone moves the centre.
    joy.handle_event(&event(T0 + 200_000, EventCode::AbsX, 4506), &mut ctrl);
    joy.handle_tick(T0 + 250_000, &mut ctrl);
    assert_eq!(joy.pos.last_value, 4506);
    assert!(joy.report().pos > before.pos);
}

#[test]
fn deadzone_samples_after_a_deflection_change_nothing_more() {
    let mut joy = joy();
    let mut ctrl = Control::new(20_000_000);
    joy.handle_event(&event(T0, EventCode::AbsRz, 255), &mut ctrl);
    for code in [EventCode::AbsX, EventCode::AbsY, EventCode::AbsRx, EventCode::AbsRy] {
        joy.handle_event(&event(T0, code, 20_000), &mut ctrl);
    }
    joy.handle_event(&event(T0 + 100_000, EventCode::AbsY, -20_000), &mut ctrl);
    for code in [EventCode::AbsX, EventCode::AbsY, EventCode::AbsRx, EventCode::AbsRy] {
        joy.handle_event(&event(T0 + 200_000, code, 100), &mut ctrl);
    }
    let first = joy.report();
    assert!(first.pos != 40 * MICRO && first.asymmetry != 0 && first.ln_speed != 6_907_755);
    assert!(first.stroke_len != 40 * MICRO);
    let codes = [EventCode::AbsX, EventCode::AbsY, EventCode::AbsRx, EventCode::AbsRy];
    for (k, code) in codes.into_iter().enumerate() {
        joy.handle_event(&event(T0 + 300_000 + k as u64, code, -4505), &mut ctrl);
        let again = joy.report();
        assert_eq!(again.pos, first.pos);
        assert_eq!(again.stroke_len, first.stroke_len);
        assert_eq!(again.asymmetry, first.asymmetry);
        assert_eq!(again.ln_speed, first.ln_speed);
    }
}

#[test]
fn integrator_starts_at_rest() {
    let joy = joy();
    let report = joy.report();
    // The centre starts at the low end of its range.
    assert_eq!(report.pos, 40 * MICRO);
    assert_eq!(report.stroke_len, 40 * MICRO);
    assert_eq!(report.asymmetry, 0);
    assert_eq!(report.ln_speed, 6_907_755);
    assert!(!report.drive);
    assert_eq!(joy.trigger_lock, TriggerLockState::Unlocked);
    assert_eq!(joy.trigger_ln, 0);
    assert_eq!(joy.trigger_max, 255);
    assert_eq!(joy.last_stop, 0);
    assert_eq!(joy.pos_offset, 0);
    assert_eq!((joy.pos.spec.min, joy.pos.spec.max), (40 * MICRO, 1300 * MICRO));
    assert_eq!((joy.stroke_len.spec.min, joy.stroke_len.spec.max), (40 * MICRO, 670 * MICRO));
    assert_eq!((joy.asymmetry.spec.min, joy.asymmetry.spec.max), (-800_000, 800_000));
    assert_eq!((joy.speed.spec.min, joy.speed.spec.max), (4_605_170, 8_517_193));
    assert_eq!(joy.pos.spec.time_to_max, 2_000_000);
    assert_eq!(joy.stroke_len.spec.time_to_max, -2_000_000);
    assert_eq!(joy.asymmetry.spec.time_to_max, 2_000_000);
    assert_eq!(joy.speed.spec.time_to_max, -2_000_000);
    assert_eq!(joy.pos.flat, 4505);
}

#[test]
fn integrator_clamps_initial_speed_into_range() {
    let slow = Config { ln_init_speed: 0, ..config() };
    assert_eq!(JoyState::new(slow, &device(), T0).unwrap().report().ln_speed, 4_605_170);
    let fast = Config { ln_init_speed: 9_000_000, ..config() };
    assert_eq!(JoyState::new(fast, &device(), T0).unwrap().report().ln_speed, 8_517_193);
}

#[test]
fn integrator_constructor_failures_in_order() {
    let bad = Config { time_to_max: 0, ..config() };
    let nothing = DeviceInfo { x: None, y: None, rx: None, ry: None, rz: None };
    assert_eq!(JoyState::new(bad, &nothing, T0).err(), Some(JoyError::OutOfRange));
    assert_eq!(
        JoyState::new(config(), &nothing, T0).err(),
        Some(JoyError::AbsInfoMissing(EventCode::AbsX))
    );
    let no_y = DeviceInfo { y: None, rx: None, ..device() };
    assert_eq!(
        JoyState::new(config(), &no_y, T0).err(),
        Some(JoyError::AbsInfoMissing(EventCode::AbsY))
    );
    let no_rx = DeviceInfo { rx: None, ry: Some(AbsInfo { maximum: 0, flat: 0 }), ..device() };
    assert_eq!(
        JoyState::new(config(), &no_rx, T0).err(),
        Some(JoyError::AbsInfoMissing(EventCode::AbsRx))
    );
    let zero_ry = DeviceInfo { ry: Some(AbsInfo { maximum: 0, flat: 0 }), rz: None, ..device() };
    assert_eq!(
        JoyState::new(config(), &zero_ry, T0).err(),
        Some(JoyError::ZeroMaximum(EventCode::AbsRy))
    );
    let no_rz = DeviceInfo { rz: None, ..device() };
    assert_eq!(
        JoyState::new(config(), &no_rz, T0).err(),
        Some(JoyError::AbsInfoMissing(EventCode::AbsRz))
    );
    let zero_rz = DeviceInfo { rz: Some(AbsInfo { maximum: 0, flat: 0 }), ..device() };
    assert_eq!(
        JoyState::new(config(), &zero_rz, T0).err(),
        Some(JoyError::ZeroMaximum(EventCode::AbsRz))
    );
    // A travel whose centre range leaves the limits of axis values.
    let wide = Config { max_pos: TRAVEL_LIMIT, min_stroke: -1, ..config() };
    assert_eq!(JoyState::new(wide, &device(), T0).err(), Some(JoyError::OutOfRange));
}

#[test]
fn idle_tick_writes_full_travel_and_creep_speeds() {
    let mut joy = joy();
    let mut ctrl = Control::new(20_000_000);
    ctrl.set_target_speeds(&[7, 7]);
    assert_eq!(joy.handle_tick(T0 + 50_000, &mut ctrl), None);
    assert_eq!((ctrl.end(0), ctrl.end(1)), (0, 1340));
    assert_eq!((ctrl.target_speed(0), ctrl.target_speed(1)), (0, 0));
    // Full deflection sweeps 1300 steps in two seconds: 650 steps per second.
    joy.handle_event(&event(T0 + 50_000, EventCode::AbsX, 32767), &mut ctrl);
    assert_eq!(joy.handle_tick(T0 + 100_000, &mut ctrl), None);
    assert_eq!(joy.report().pos, 40 * MICRO + 32_500_000);
    assert_eq!((ctrl.end(0), ctrl.end(1)), (0, 1340));
    assert_eq!((ctrl.target_speed(0), ctrl.target_speed(1)), (-650_000, 650_000));
    assert_eq!(ctrl.accel, 20_000_000);
    assert!(!ctrl.stop());
}

#[test]
fn idle_tick_leaves_other_axes_alone() {
    let mut joy = joy();
    let mut ctrl = Control::new(20_000_000);
    for code in [EventCode::AbsY, EventCode::AbsRx, EventCode::AbsRy] {
        joy.handle_event(&event(T0, code, -32767), &mut ctrl);
    }
    joy.handle_tick(T0 + 1_000_000, &mut ctrl);
    let report = joy.report();
    assert_eq!(report.stroke_len, 40 * MICRO);
    assert_eq!(report.asymmetry, 0);
    assert_eq!(report.ln_speed, 6_907_755);
    assert_eq!(joy.speed.last_time, T0 + 1_000_000);
}

#[test]
fn idle_tick_shrinks_stroke_to_distance_from_range_ends() {
    let mut joy = joy();
    let mut ctrl = Control::new(20_000_000);
    joy.handle_event(&event(T0, EventCode::AbsRz, 255), &mut ctrl);
    joy.handle_event(&event(T0, EventCode::AbsY, -32767), &mut ctrl);
    joy.handle_event(&event(T0, EventCode::AbsX, 32767), &mut ctrl);
    joy.handle_tick(T0 + 400_000, &mut ctrl);
    // 0.4 s at full deflection: the half-length has grown by 134 steps and
    // the centre has been pushed up to keep the stroke within its range.
    assert_eq!(joy.report().stroke_len, 174 * MICRO);
    assert_eq!(joy.report().pos, 300 * MICRO);
    joy.handle_event(&event(T0 + 400_000, EventCode::AbsY, 0), &mut ctrl);
    joy.handle_event(&event(T0 + 400_000, EventCode::AbsX, -32767), &mut ctrl);
    joy.handle_event(&event(T0 + 400_000, EventCode::AbsRz, 0), &mut ctrl);
    assert!(!joy.report().drive);
    // 0.3 s back down: the centre is at 105, 65 above the low end of its
    // range, and the half-length shrinks to that.
    assert_eq!(joy.handle_tick(T0 + 700_000, &mut ctrl), None);
    assert_eq!(joy.report().pos, 105 * MICRO);
    assert_eq!(joy.report().stroke_len, 65 * MICRO);
    assert_eq!((ctrl.end(0), ctrl.end(1)), (0, 1340));
    assert_eq!((ctrl.target_speed(0), ctrl.target_speed(1)), (650_000, -650_000));
}

#[test]
fn drive_tick_writes_stroke_ends_and_returns_exponent() {
    let mut joy = joy();
    let mut ctrl = Control::new(20_000_000);
    ctrl.set_target_speeds(&[7, 9]);
    joy.handle_event(&event(T0, EventCode::AbsRz, 255), &mut ctrl);
    assert!(joy.report().drive);
    assert_eq!(joy.trigger_ln, 0);
    // The centre is pushed a half-length up from the low end of its range.
    assert_eq!(joy.handle_tick(T0 + 50_000, &mut ctrl), Some(6_907_755));
    assert_eq!(joy.report().pos, 80 * MICRO);
    assert_eq!((ctrl.end(0), ctrl.end(1)), (40, 120));
    assert_eq!((ctrl.target_speed(0), ctrl.target_speed(1)), (7, 9));
    joy.apply_speed(1_000_000, &mut ctrl);
    assert_eq!((ctrl.target_speed(0), ctrl.target_speed(1)), (1_000_000, 1_000_000));
    assert_eq!((ctrl.end(0), ctrl.end(1)), (40, 120));
}

#[test]
fn drive_tick_rounds_ends_down_to_whole_steps() {
    let mut joy = joy();
    let mut ctrl = Control::new(20_000_000);
    joy.handle_event(&event(T0, EventCode::AbsRz, 255), &mut ctrl);
    joy.handle_tick(T0, &mut ctrl);
    joy.handle_event(&event(T0, EventCode::AbsX, 32767), &mut ctrl);
    // 1 ms at 650 steps per second: the centre is at 80.65.
    joy.handle_tick(T0 + 1_000, &mut ctrl);
    assert_eq!(joy.report().pos, 80_650_000);
    assert_eq!((ctrl.end(0), ctrl.end(1)), (40, 120));
    joy.handle_tick(T0 + 2_000, &mut ctrl);
    assert_eq!(joy.report().pos, 81_300_000);
    assert_eq!((ctrl.end(0), ctrl.end(1)), (41, 121));
}

#[test]
fn drive_ends_stay_within_travel() {
    let mut joy = joy();
    let mut ctrl = Control::new(20_000_000);
    joy.handle_event(&event(T0, EventCode::AbsRz, 255), &mut ctrl);
    joy.handle_event(&event(T0, EventCode::AbsY, -32767), &mut ctrl);
    joy.handle_event(&event(T0, EventCode::AbsX, 32767), &mut ctrl);
    joy.handle_tick(T0 + 10_000_000, &mut ctrl);
    // The half-length is at its largest, 670; the centre range leaves only
    // 630 above the largest half-length, so the range end wins.
    assert_eq!(joy.report().stroke_len, 670 * MICRO);
    assert_eq!(joy.report().pos, 630 * MICRO);
    assert_eq!((ctrl.end(0), ctrl.end(1)), (0, 1300));
    assert!(ctrl.end(0) <= ctrl.end(1));
}

#[test]
fn speeds_follow_asymmetry_and_centre_rate() {
    let mut joy = joy();
    let mut ctrl = Control::new(20_000_000);
    joy.handle_event(&event(T0, EventCode::AbsRz, 255), &mut ctrl);
    joy.handle_event(&event(T0, EventCode::AbsRx, 32767), &mut ctrl);
    // Full deflection sweeps 0.8 in two seconds: 0.25 after 0.625 s.
    joy.handle_tick(T0 + 625_000, &mut ctrl);
    assert_eq!(joy.report().asymmetry, 250_000);
    joy.handle_event(&event(T0 + 625_000, EventCode::AbsRx, 0), &mut ctrl);
    joy.apply_speed(1_000_000, &mut ctrl);
    // 1000 / 1.25 and 1000 / 0.75.
    assert_eq!((ctrl.target_speed(0), ctrl.target_speed(1)), (800_000, 1_333_333));
    joy.handle_event(&event(T0 + 625_000, EventCode::AbsX, 3277), &mut ctrl);
    assert_eq!(joy.pos.last_value, 0);
    joy.handle_event(&event(T0 + 625_000, EventCode::AbsX, -16384), &mut ctrl);
    // The centre moves at -16384 / 32767 of 650 steps per second.
    assert_eq!(joy.pos.speed(), -325_009);
    joy.apply_speed(1_000_000, &mut ctrl);
    assert_eq!((ctrl.target_speed(0), ctrl.target_speed(1)), (1_125_009, 1_008_324));
    // The highest target speed caps both.
    joy.apply_speed(4_000_000, &mut ctrl);
    assert_eq!((ctrl.target_speed(0), ctrl.target_speed(1)), (3_525_009, 5_000_000));
    joy.apply_speed(i64::MAX, &mut ctrl);
    assert_eq!((ctrl.target_speed(0), ctrl.target_speed(1)), (5_000_000, 5_000_000));
    joy.apply_speed(0, &mut ctrl);
    assert_eq!((ctrl.target_speed(0), ctrl.target_speed(1)), (325_009, -325_009));
    joy.apply_speed(i64::MIN, &mut ctrl);
    assert_eq!(ctrl.target_speed(1), i64::MIN);
}

#[test]
fn apply_speed_does_nothing_while_idle() {
    let joy = joy();
    let mut ctrl = Control::new(20_000_000);
    ctrl.set_target_speeds(&[3, 4]);
    joy.apply_speed(1_000_000, &mut ctrl);
    assert_eq!((ctrl.target_speed(0), ctrl.target_speed(1)), (3, 4));
}

#[test]
fn trigger_sets_speed_adjustment() {
    let mut joy = joy();
    let mut ctrl = Control::new(20_000_000);
    joy.handle_event(&event(T0, EventCode::AbsRz, 255), &mut ctrl);
    assert_eq!(joy.trigger_ln, 0);
    joy.handle_event(&event(T0, EventCode::AbsRz, 1), &mut ctrl);
    // (1 / 255 - 1) * 3, toward zero in the quotient.
    assert_eq!(joy.trigger_ln, 11_764 - 3_000_000);
    joy.handle_event(&event(T0, EventCode::AbsRz, 85), &mut ctrl);
    assert_eq!(joy.trigger_ln, -2_000_000);
    assert_eq!(joy.handle_tick(T0, &mut ctrl), Some(4_907_755));
}

#[test]
fn trigger_release_stops_the_motor() {
    let mut joy = joy();
    let mut ctrl = Control::new(20_000_000);
    joy.handle_event(&event(T0, EventCode::AbsRz, 255), &mut ctrl);
    joy.handle_tick(T0 + 50_000, &mut ctrl);
    joy.apply_speed(1_000_000, &mut ctrl);
    assert_eq!((ctrl.target_speed(0), ctrl.target_speed(1)), (1_000_000, 1_000_000));
    joy.handle_event(&event(T0 + 60_000, EventCode::AbsRz, 0), &mut ctrl);
    assert_eq!((ctrl.target_speed(0), ctrl.target_speed(1)), (0, 0));
    assert!(!joy.report().drive);
    assert_eq!(joy.trigger_ln, TRIGGER_RELEASED_LN);
    assert_eq!(joy.trigger_lock, TriggerLockState::Unlocked);
    assert_eq!(joy.handle_tick(T0 + 100_000, &mut ctrl), None);
    assert_eq!((ctrl.target_speed(0), ctrl.target_speed(1)), (0, 0));
    // The lock button does nothing on a released trigger.
    joy.handle_event(&event(T0 + 110_000, EventCode::BtnTr, 1), &mut ctrl);
    assert_eq!(joy.trigger_lock, TriggerLockState::Unlocked);
}

#[test]
fn trigger_lock_keeps_the_motor_running() {
    let mut joy = joy();
    let mut ctrl = Control::new(20_000_000);
    joy.handle_event(&event(T0, EventCode::AbsRz, 200), &mut ctrl);
    assert_eq!(joy.trigger_lock, TriggerLockState::Unlocked);
    assert!(joy.report().drive);
    let held = joy.trigger_ln;
    assert_eq!(held, 200 * 3_000_000 / 255 - 3_000_000);
    joy.apply_speed(1_000_000, &mut ctrl);
    joy.handle_event(&event(T0 + 1, EventCode::BtnTr, 1), &mut ctrl);
    assert_eq!(joy.trigger_lock, TriggerLockState::LockedTriggerNonzero);
    // Further travel of the pressed trigger is ignored.
    joy.handle_event(&event(T0 + 2, EventCode::AbsRz, 30), &mut ctrl);
    assert_eq!(joy.trigger_lock, TriggerLockState::LockedTriggerNonzero);
    assert_eq!(joy.trigger_ln, held);
    joy.handle_event(&event(T0 + 3, EventCode::AbsRz, 0), &mut ctrl);
    assert_eq!(joy.trigger_lock, TriggerLockState::LockedTriggerZero);
    assert!(joy.report().drive);
    assert_eq!(joy.trigger_ln, held);
    assert_eq!((ctrl.target_speed(0), ctrl.target_speed(1)), (1_000_000, 1_000_000));
    joy.handle_event(&event(T0 + 4, EventCode::AbsRz, 0), &mut ctrl);
    assert_eq!(joy.trigger_lock, TriggerLockState::LockedTriggerZero);
    assert!(joy.handle_tick(T0 + 5, &mut ctrl).is_some());
    joy.handle_event(&event(T0 + 6, EventCode::AbsRz, 255), &mut ctrl);
    assert_eq!(joy.trigger_lock, TriggerLockState::Unlocked);
    assert!(joy.report().drive);
    assert_eq!(joy.trigger_ln, 0);
}

#[test]
fn lock_button_acts_from_every_state() {
    let mut joy = joy();
    let mut ctrl = Control::new(20_000_000);
    // A release of the button, and any value but 1, does nothing.
    joy.handle_event(&event(T0, EventCode::BtnTr, 0), &mut ctrl);
    joy.handle_event(&event(T0, EventCode::BtnTr, 2), &mut ctrl);
    assert_eq!(joy.trigger_lock, TriggerLockState::Unlocked);
    // At start the trigger adjustment does not mark a release.
    joy.handle_event(&event(T0, EventCode::BtnTr, 1), &mut ctrl);
    assert_eq!(joy.trigger_lock, TriggerLockState::LockedTriggerNonzero);
    assert!(!joy.report().drive);
    joy.handle_event(&event(T0, EventCode::BtnTr, 1), &mut ctrl);
    assert_eq!(joy.trigger_lock, TriggerLockState::LockedTriggerNonzero);
    joy.handle_event(&event(T0, EventCode::AbsRz, -3), &mut ctrl);
    assert_eq!(joy.trigger_lock, TriggerLockState::LockedTriggerZero);
    joy.handle_event(&event(T0, EventCode::BtnTr, 1), &mut ctrl);
    assert_eq!(joy.trigger_lock, TriggerLockState::LockedTriggerNonzero);
}

#[test]
fn asymmetry_reset() {
    let mut joy = joy();
    let mut ctrl = Control::new(20_000_000);
    joy.handle_event(&event(T0, EventCode::AbsRz, 255), &mut ctrl);
    joy.handle_event(&event(T0, EventCode::AbsRx, -32767), &mut ctrl);
    joy.handle_tick(T0 + 5_000_000, &mut ctrl);
    assert_eq!(joy.report().asymmetry, -800_000);
    joy.handle_event(&event(T0 + 5_000_000, EventCode::BtnThumbR, 0), &mut ctrl);
    assert_eq!(joy.report().asymmetry, -800_000);
    joy.handle_event(&event(T0 + 5_000_000, EventCode::BtnThumbR, 1), &mut ctrl);
    assert_eq!(joy.report().asymmetry, 0);
    assert_eq!(joy.asymmetry.last_value, -32767);
}

#[test]
fn directional_pad_realigns_offset_to_last_stop() {
    let mut joy = joy();
    let mut ctrl = Control::new(20_000_000);
    joy.handle_event(&event(T0, EventCode::AbsX, 32767), &mut ctrl);
    joy.handle_tick(T0 + 1_000_000, &mut ctrl);
    assert_eq!(joy.report().pos, 690 * MICRO);
    joy.handle_status(StatusMessage(250));
    joy.handle_event(&event(T0 + 1_000_000, EventCode::AbsHat0X, 0), &mut ctrl);
    joy.handle_event(&event(T0 + 1_000_000, EventCode::AbsHat0X, 2), &mut ctrl);
    assert_eq!(joy.pos_offset, 0);
    assert_eq!(joy.report().pos, 690 * MICRO);
    // Right: the offset becomes the last stop, the centre moves back by it.
    joy.handle_event(&event(T0 + 1_000_000, EventCode::AbsHat0X, 1), &mut ctrl);
    assert_eq!(joy.pos_offset, 250);
    assert_eq!(joy.report().pos, 440 * MICRO);
    joy.handle_tick(T0 + 1_000_000, &mut ctrl);
    assert_eq!((ctrl.end(0), ctrl.end(1)), (250, 1590));
    // Left: the last stop becomes the far end of the travel. The centre
    // moves by as much the other way, out of its range.
    joy.handle_event(&event(T0 + 1_000_000, EventCode::AbsHat0X, -1), &mut ctrl);
    assert_eq!(joy.pos_offset, 250 - 1340);
    assert_eq!(joy.report().pos, 1780 * MICRO);
    assert_eq!(joy.last_stop, 250);
    // The next integration holds it to its range.
    joy.handle_tick(T0 + 1_000_000, &mut ctrl);
    assert_eq!(joy.report().pos, 1300 * MICRO);
    assert_eq!((ctrl.end(0), ctrl.end(1)), (-1090, 250));
}

#[test]
fn realignment_moves_centre_by_the_shift_and_no_more() {
    let mut joy = joy();
    let mut ctrl = Control::new(20_000_000);
    joy.handle_event(&event(T0, EventCode::AbsX, 32767), &mut ctrl);
    // 460 steps at 650 steps per second bring the centre from 40 to 500.
    joy.handle_tick(T0 + 707_693, &mut ctrl);
    joy.handle_event(&event(T0 + 707_693, EventCode::AbsX, 0), &mut ctrl);
    let centre = joy.report().pos;
    assert_eq!(centre / MICRO, 500);
    joy.handle_status(StatusMessage(1340));
    let before = joy;
    joy.handle_event(&event(T0 + 707_693, EventCode::AbsHat0X, 1), &mut ctrl);
    assert_eq!(joy.pos_offset, 1340);
    assert_eq!(joy.report().pos, centre - 1340 * MICRO);
    assert_eq!(joy.report().pos / MICRO, -839);
    // The absolute place of the centre is where it was.
    assert_eq!(
        joy.pos_offset * MICRO + joy.report().pos,
        before.pos_offset * MICRO + before.report().pos
    );
    // Nothing else has moved.
    assert_eq!(joy.last_stop, 1340);
    assert_eq!(joy.report().drive, before.report().drive);
    assert_eq!(joy.trigger_lock, before.trigger_lock);
    assert_eq!(joy.report().stroke_len, before.report().stroke_len);
    assert_eq!(joy.report().asymmetry, before.report().asymmetry);
    assert_eq!(joy.report().ln_speed, before.report().ln_speed);
    // Left and right again, with no integration between, undo each other.
    joy.handle_event(&event(T0 + 707_693, EventCode::AbsHat0X, -1), &mut ctrl);
    assert_eq!(joy.pos_offset, 0);
    assert_eq!(joy.report().pos, centre);
    joy.handle_event(&event(T0 + 707_693, EventCode::AbsHat0X, 1), &mut ctrl);
    assert_eq!(joy.pos_offset, 1340);
    assert_eq!(joy.report().pos, centre - 1340 * MICRO);
}

#[test]
fn centre_out_of_range_integrates_from_where_it_is() {
    let mut joy = joy();
    let mut ctrl = Control::new(20_000_000);
    joy.handle_event(&event(T0, EventCode::AbsX, 32767), &mut ctrl);
    joy.handle_status(StatusMessage(-100));
    joy.handle_event(&event(T0, EventCode::AbsHat0X, 1), &mut ctrl);
    // The centre stands 100 steps above where it was, within its range.
    assert_eq!(joy.pos_offset, -100);
    assert_eq!(joy.report().pos, 140 * MICRO);
    joy.handle_status(StatusMessage(0));
    joy.handle_event(&event(T0, EventCode::AbsHat0X, 1), &mut ctrl);
    assert_eq!(joy.report().pos, 40 * MICRO);
    joy.handle_status(StatusMessage(30));
    joy.handle_event(&event(T0, EventCode::AbsHat0X, 1), &mut ctrl);
    // Ten steps, then, below its range.
    assert_eq!(joy.report().pos, 10 * MICRO);
    // 6.5 steps in 10 ms do not bring it back into range: held to the end.
    joy.handle_tick(T0 + 10_000, &mut ctrl);
    assert_eq!(joy.report().pos, 40 * MICRO);
    joy.handle_status(StatusMessage(60));
    joy.handle_event(&event(T0 + 10_000, EventCode::AbsHat0X, 1), &mut ctrl);
    assert_eq!(joy.report().pos, 10 * MICRO);
    // 65 steps in 100 ms do: the increment counts from where it stood.
    joy.handle_tick(T0 + 110_000, &mut ctrl);
    assert_eq!(joy.report().pos, 75 * MICRO);
}

#[test]
fn realignment_saturates_at_the_machine_word() {
    let mut joy = joy();
    let mut ctrl = Control::new(20_000_000);
    joy.handle_status(StatusMessage(i64::MAX));
    joy.handle_event(&event(T0, EventCode::AbsHat0X, 1), &mut ctrl);
    assert_eq!(joy.pos_offset, i64::MAX);
    assert_eq!(joy.report().pos, i64::MIN);
    joy.handle_tick(T0, &mut ctrl);
    assert_eq!(joy.report().pos, 40 * MICRO);
    assert_eq!((ctrl.end(0), ctrl.end(1)), (i64::MAX, i64::MAX));
    joy.handle_status(StatusMessage(i64::MIN));
    joy.handle_event(&event(T0, EventCode::AbsHat0X, -1), &mut ctrl);
    assert_eq!(joy.pos_offset, i64::MIN);
    assert_eq!(joy.report().pos, i64::MAX);
    joy.handle_tick(T0, &mut ctrl);
    assert_eq!(joy.report().pos, 1300 * MICRO);
    assert_eq!((ctrl.end(0), ctrl.end(1)), (i64::MIN, i64::MIN + 1340));
    // A centre at the end of the word still integrates without overflow.
    joy.handle_status(StatusMessage(i64::MAX));
    joy.handle_event(&event(T0, EventCode::AbsHat0X, 1), &mut ctrl);
    assert_eq!(joy.report().pos, i64::MIN);
    joy.handle_event(&event(T0, EventCode::AbsX, 32767), &mut ctrl);
    joy.handle_tick(u64::MAX, &mut ctrl);
    assert_eq!(joy.report().pos, 1300 * MICRO);
}

#[test]
fn other_events_change_nothing() {
    let mut joy = joy();
    let mut ctrl = Control::new(20_000_000);
    ctrl.set_target_speeds(&[5, 6]);
    ctrl.set_ends(&[1, 2]);
    joy.handle_event(&event(T0 + 5, EventCode::Other, 1), &mut ctrl);
    let report = joy.report();
    assert_eq!(report.pos, 40 * MICRO);
    assert!(!report.drive);
    assert_eq!(joy.pos.last_time, T0);
    assert_eq!((ctrl.end(0), ctrl.end(1)), (1, 2));
    assert_eq!((ctrl.target_speed(0), ctrl.target_speed(1)), (5, 6));
}

#[test]
fn status_round_trip() {
    let mut joy = joy();
    let mut ctrl = Control::new(20_000_000);
    ctrl.set_ends(&[0, 1340]);
    ctrl.set_target_speeds(&[2_000_000, 2_000_000]);
    let mut engine = Engine::new(&ctrl).unwrap();
    assert_eq!(engine.begin_stroke(&ctrl), Ok(Some(1)));
    while engine.is_ramping() {
        engine.step(&ctrl);
    }
    let msg = engine.end_stroke(800_000_000);
    joy.handle_status(msg);
    assert_eq!(joy.last_stop, engine.pos());
    assert_eq!(joy.last_stop, 1340);
}
