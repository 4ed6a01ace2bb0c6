//! The joystick state integrator: turns raw axis samples and button events
//! into end-stops and target speeds.
//!
//! The four axes are the centre of the stroke and its half-length, in
//! millionths of a step, the asymmetry between the two directions, in
//! millionths, and the natural logarithm of the cycle speed in steps per
//! second, in millionths. Times are in microseconds.

use vstd::prelude::*;
use crate::axis::{AbsInfo, Axis, AxisSpec, EventCode, InputEvent};
use crate::config::{Config, MICRO};
use crate::device::{Control, StatusMessage};
use crate::error::JoyError;
use crate::fixed::{
    div_floor, div_toward_zero, lemma_quotient_reaches, magnitude, sat_i64, saturate_i64,
    trunc_div,
};

verus! {

/// Whether a released trigger still keeps the motor running.
#[derive(Debug, Clone, Copy, PartialEq, Eq, Structural)]
pub enum TriggerLockState {
    /// The trigger alone decides.
    Unlocked,
    /// Locked while the trigger was pressed; the trigger has not been
    /// released since.
    LockedTriggerNonzero,
    /// Locked, and the trigger has been released.
    LockedTriggerZero,
}

/// What the device reports of the five axes the integrator reads.
#[derive(Debug, Clone, Copy)]
pub struct DeviceInfo {
    /// Of `AbsX`.
    pub x: Option<AbsInfo>,
    /// Of `AbsY`.
    pub y: Option<AbsInfo>,
    /// Of `AbsRx`.
    pub rx: Option<AbsInfo>,
    /// Of `AbsRy`.
    pub ry: Option<AbsInfo>,
    /// Of `AbsRz`.
    pub rz: Option<AbsInfo>,
}

/// What the integrator shows of itself.
#[derive(Debug, Clone, Copy)]
pub struct Report {
    /// Centre of the stroke, in millionths of a step.
    pub pos: i64,
    /// Half-length of the stroke, in millionths of a step.
    pub stroke_len: i64,
    /// Asymmetry, in millionths.
    pub asymmetry: i64,
    /// Natural logarithm of the cycle speed, in millionths.
    pub ln_speed: i64,
    /// Whether the motor is allowed to run.
    pub drive: bool,
}

/// A fully pressed trigger adds nothing to the logarithm of the speed; one
/// barely pressed takes this much off, in millionths.
pub const TRIGGER_FACTOR_LN: i64 = 3_000_000;

/// The trigger adjustment that marks a released trigger, in millionths.
pub const TRIGGER_RELEASED_LN: i64 = -1_000_000;

/// The asymmetry stays within this much of zero, in millionths.
pub const ASYMMETRY_LIMIT: i64 = 800_000;

/// Largest magnitude of the trigger adjustment, in millionths.
pub const TRIGGER_LN_LIMIT: i64 = 7_000_000_000_000_000;

/// The adjustment to the logarithm of the speed for a raw trigger value.
pub open spec fn trigger_level(value: int, trigger_max: int) -> int {
    trunc_div(value * TRIGGER_FACTOR_LN, trigger_max) - TRIGGER_FACTOR_LN
}

/// The lock after a trigger sample: a press unlocks unless the lock was set
/// during this very press; a release leaves an unlocked trigger unlocked and
/// moves a lock on to its released state.
pub open spec fn lock_after_trigger(lock: TriggerLockState, value: int) -> TriggerLockState {
    if value > 0 {
        if lock == TriggerLockState::LockedTriggerNonzero {
            lock
        } else {
            TriggerLockState::Unlocked
        }
    } else if lock == TriggerLockState::Unlocked {
        lock
    } else {
        TriggerLockState::LockedTriggerZero
    }
}

/// The lock after a sample of the lock button: a press locks, unless the
/// trigger adjustment marks a released trigger.
pub open spec fn lock_after_button(
    lock: TriggerLockState,
    value: int,
    trigger_ln: int,
) -> TriggerLockState {
    if value == 1 && trigger_ln != TRIGGER_RELEASED_LN {
        TriggerLockState::LockedTriggerNonzero
    } else {
        lock
    }
}

/// The axis of the stroke centre.
pub open spec fn pos_spec(config: Config) -> AxisSpec {
    AxisSpec {
        code: EventCode::AbsX,
        min: (config.min_stroke * MICRO) as i64,
        max: ((config.max_pos - config.min_stroke) * MICRO) as i64,
        time_to_max: config.time_to_max,
    }
}

/// The axis of the stroke half-length; its stick is inverted.
pub open spec fn stroke_len_spec(config: Config) -> AxisSpec {
    AxisSpec {
        code: EventCode::AbsY,
        min: (config.min_stroke * MICRO) as i64,
        max: (config.max_pos * (MICRO / 2)) as i64,
        time_to_max: (-config.time_to_max) as i64,
    }
}

/// The axis of the asymmetry.
pub open spec fn asymmetry_spec(config: Config) -> AxisSpec {
    AxisSpec {
        code: EventCode::AbsRx,
        min: (-ASYMMETRY_LIMIT) as i64,
        max: ASYMMETRY_LIMIT,
        time_to_max: config.time_to_max,
    }
}

/// The axis of the logarithm of the speed; its stick is inverted.
pub open spec fn speed_spec(config: Config) -> AxisSpec {
    AxisSpec {
        code: EventCode::AbsRy,
        min: config.ln_min_speed,
        max: config.ln_max_speed,
        time_to_max: (-config.time_to_max) as i64,
    }
}

/// The state of the integrator.
#[derive(Debug, Clone, Copy)]
pub struct JoyState {
    /// The settings.
    pub config: Config,
    /// Centre of the stroke.
    pub pos: Axis,
    /// Half-length of the stroke.
    pub stroke_len: Axis,
    /// Asymmetry between the speeds of the two directions.
    pub asymmetry: Axis,
    /// Logarithm of the cycle speed.
    pub speed: Axis,
    /// Largest raw value of the trigger.
    pub trigger_max: i32,
    /// Adjustment of the logarithm of the speed by the trigger.
    pub trigger_ln: i64,
    /// The trigger lock.
    pub trigger_lock: TriggerLockState,
    /// Whether the motor is allowed to run.
    pub drive: bool,
    /// Position at which the engine last came to rest.
    pub last_stop: i64,
    /// What is added to the integrator's positions to give the engine's.
    pub pos_offset: i64,
}

impl JoyState {
    /// The settings are in range, the four axes are well formed and are those
    /// of the settings, the half-length, the asymmetry and the logarithm of
    /// the speed lie within their ranges, and the trigger is calibrated. The
    /// centre may lie outside its range between a realignment and the next
    /// integration.
    pub open spec fn wf(&self) -> bool {
        &&& self.config.in_range()
        &&& self.pos.wf()
        &&& self.stroke_len.wf()
        &&& self.stroke_len.settled()
        &&& self.asymmetry.wf()
        &&& self.asymmetry.settled()
        &&& self.speed.wf()
        &&& self.speed.settled()
        &&& self.pos.spec == pos_spec(self.config)
        &&& self.stroke_len.spec == stroke_len_spec(self.config)
        &&& self.asymmetry.spec == asymmetry_spec(self.config)
        &&& self.speed.spec == speed_spec(self.config)
        &&& self.trigger_max != 0
        &&& -TRIGGER_LN_LIMIT <= self.trigger_ln <= TRIGGER_LN_LIMIT
    }

    /// What `new` makes: the four axes at rest, the trigger unlocked and
    /// released, nothing driven; or the first failure among the settings, the
    /// four axes and the trigger, in this order.
    pub open spec fn made(config: Config, info: DeviceInfo, now: u64) -> Result<
        JoyState,
        JoyError,
    > {
        if !config.in_range() {
            Err(JoyError::OutOfRange)
        } else {
            match Axis::made(pos_spec(config), 0, info.x, now) {
                Err(e) => Err(e),
                Ok(pos) => match Axis::made(
                    stroke_len_spec(config),
                    (config.min_stroke * MICRO) as i64,
                    info.y,
                    now,
                ) {
                    Err(e) => Err(e),
                    Ok(stroke_len) => match Axis::made(asymmetry_spec(config), 0, info.rx, now) {
                        Err(e) => Err(e),
                        Ok(asymmetry) => match Axis::made(
                            speed_spec(config),
                            config.ln_init_speed,
                            info.ry,
                            now,
                        ) {
                            Err(e) => Err(e),
                            Ok(speed) => match info.rz {
                                None => Err(JoyError::AbsInfoMissing(EventCode::AbsRz)),
                                Some(trigger) => if trigger.maximum == 0 {
                                    Err(JoyError::ZeroMaximum(EventCode::AbsRz))
                                } else {
                                    Ok(
                                        JoyState {
                                            config,
                                            pos,
                                            stroke_len,
                                            asymmetry,
                                            speed,
                                            trigger_max: trigger.maximum,
                                            trigger_ln: 0,
                                            trigger_lock: TriggerLockState::Unlocked,
                                            drive: false,
                                            last_stop: 0,
                                            pos_offset: 0,
                                        },
                                    )
                                },
                            },
                        },
                    },
                },
            }
        }
    }

    /// The integrator at rest at time `now`, for the settings `config` and a
    /// device that reports `info`.
    pub fn new(config: Config, info: &DeviceInfo, now: u64) -> (r: Result<JoyState, JoyError>)
        ensures
            r == JoyState::made(config, *info, now),
            r is Ok ==> r->Ok_0.wf() && r->Ok_0.pos.settled(),
    {
        if !config.is_in_range() {
            return Err(JoyError::OutOfRange);
        }
        let pos = match Axis::new(
            AxisSpec {
                code: EventCode::AbsX,
                min: config.min_stroke * MICRO,
                max: (config.max_pos - config.min_stroke) * MICRO,
                time_to_max: config.time_to_max,
            },
            0,
            info.x,
            now,
        ) {
            Ok(axis) => axis,
            Err(e) => { return Err(e); },
        };
        let stroke_len = match Axis::new(
            AxisSpec {
                code: EventCode::AbsY,
                min: config.min_stroke * MICRO,
                max: config.max_pos * (MICRO / 2),
                time_to_max: -config.time_to_max,
            },
            config.min_stroke * MICRO,
            info.y,
            now,
        ) {
            Ok(axis) => axis,
            Err(e) => { return Err(e); },
        };
        let asymmetry = match Axis::new(
            AxisSpec {
                code: EventCode::AbsRx,
                min: -ASYMMETRY_LIMIT,
                max: ASYMMETRY_LIMIT,
                time_to_max: config.time_to_max,
            },
            0,
            info.rx,
            now,
        ) {
            Ok(axis) => axis,
            Err(e) => { return Err(e); },
        };
        let speed = match Axis::new(
            AxisSpec {
                code: EventCode::AbsRy,
                min: config.ln_min_speed,
                max: config.ln_max_speed,
                time_to_max: -config.time_to_max,
            },
            config.ln_init_speed,
            info.ry,
            now,
        ) {
            Ok(axis) => axis,
            Err(e) => { return Err(e); },
        };
        match info.rz {
            None => Err(JoyError::AbsInfoMissing(EventCode::AbsRz)),
            Some(trigger) => {
                if trigger.maximum == 0 {
                    return Err(JoyError::ZeroMaximum(EventCode::AbsRz));
                }
                Ok(
                    JoyState {
                        config,
                        pos,
                        stroke_len,
                        asymmetry,
                        speed,
                        trigger_max: trigger.maximum,
                        trigger_ln: 0,
                        trigger_lock: TriggerLockState::Unlocked,
                        drive: false,
                        last_stop: 0,
                        pos_offset: 0,
                    },
                )
            },
        }
    }
}

impl JoyState {
    /// The state with every axis brought to time `now`: the stroke centre
    /// always, the other three only while the motor is allowed to run.
    pub open spec fn integrated(&self, now: u64) -> JoyState {
        JoyState {
            pos: self.pos.after_tick(true, now),
            stroke_len: self.stroke_len.after_tick(self.drive, now),
            asymmetry: self.asymmetry.after_tick(self.drive, now),
            speed: self.speed.after_tick(self.drive, now),
            ..*self
        }
    }

    /// The state after the periodic tick at time `now`. While the motor is
    /// allowed to run, the centre is kept a half-length away from both ends of
    /// its range; otherwise the half-length is shrunk to the distance from
    /// the centre to the nearer end of that range.
    pub open spec fn after_tick(&self, now: u64) -> JoyState {
        let t = self.integrated(now);
        if self.drive {
            JoyState {
                pos: t.pos.clamped(
                    t.pos.spec.min + t.stroke_len.driven,
                    t.pos.spec.max - t.stroke_len.driven,
                ),
                ..t
            }
        } else {
            JoyState {
                stroke_len: t.stroke_len.clamped(0, t.pos.driven - t.pos.spec.min).clamped(
                    0,
                    t.pos.spec.max - t.pos.driven,
                ),
                ..t
            }
        }
    }

    /// The lower end-stop that the state asks for.
    pub open spec fn low_end(&self) -> int {
        if self.drive {
            let reach = (self.pos.driven - self.stroke_len.driven) / (MICRO as int);
            sat_i64(
                self.pos_offset + (if reach > 0 {
                    reach
                } else {
                    0
                }),
            )
        } else {
            self.pos_offset as int
        }
    }

    /// The upper end-stop that the state asks for.
    pub open spec fn high_end(&self) -> int {
        if self.drive {
            let reach = (self.pos.driven + self.stroke_len.driven) / (MICRO as int);
            sat_i64(
                self.pos_offset + (if reach < self.config.max_pos {
                    reach
                } else {
                    self.config.max_pos as int
                }),
            )
        } else {
            sat_i64(self.pos_offset + self.config.max_pos)
        }
    }

    /// The sum whose exponential is the cycle speed: the logarithm of the
    /// speed plus the adjustment by the trigger.
    pub open spec fn exponent(&self) -> int {
        self.speed.driven + self.trigger_ln
    }

    /// A speed no higher than the highest target speed.
    pub open spec fn capped(&self, speed: int) -> int {
        if speed <= self.config.max_speed {
            speed
        } else {
            self.config.max_speed as int
        }
    }

    /// The target speed toward the lower end-stop for a cycle speed `v`:
    /// `v / (1 + asymmetry)` less the rate at which the centre moves.
    pub open spec fn low_target(&self, v: int) -> int {
        sat_i64(
            self.capped(
                trunc_div(v * MICRO, MICRO + self.asymmetry.driven) - self.pos.rate(),
            ),
        )
    }

    /// The target speed toward the upper end-stop for a cycle speed `v`:
    /// `v / (1 - asymmetry)` plus the rate at which the centre moves.
    pub open spec fn high_target(&self, v: int) -> int {
        sat_i64(
            self.capped(
                trunc_div(v * MICRO, MICRO - self.asymmetry.driven) + self.pos.rate(),
            ),
        )
    }

    /// The state with the offset moved to `target` and the centre moved the
    /// other way by as much, each as far as a machine word reaches. The sum
    /// of offset and centre, and with it the absolute place of the stroke,
    /// stays as it is; the centre is not held to its range here.
    pub open spec fn realigned(&self, target: int) -> JoyState {
        let offset = sat_i64(target);
        JoyState {
            pos_offset: offset as i64,
            pos: Axis {
                driven: sat_i64(self.pos.driven - (offset - self.pos_offset) * MICRO) as i64,
                ..self.pos
            },
            ..*self
        }
    }

    /// The event is a release of the trigger while it is unlocked, which
    /// stops the motor.
    pub open spec fn releases(&self, event: InputEvent) -> bool {
        event.code == EventCode::AbsRz && event.value <= 0 && self.trigger_lock
            == TriggerLockState::Unlocked
    }

    /// The state after an input event. Each axis takes the event if it bears
    /// the axis's code; then the trigger, the lock button, the asymmetry reset
    /// and the directional pad act.
    pub open spec fn after_event(&self, event: InputEvent) -> JoyState {
        let a = JoyState {
            pos: self.pos.after_event(true, event),
            stroke_len: self.stroke_len.after_event(self.drive, event),
            asymmetry: self.asymmetry.after_event(self.drive, event),
            speed: self.speed.after_event(self.drive, event),
            ..*self
        };
        match event.code {
            EventCode::AbsRz => {
                let lock = lock_after_trigger(self.trigger_lock, event.value as int);
                if event.value > 0 {
                    if self.trigger_lock == TriggerLockState::LockedTriggerNonzero {
                        a
                    } else {
                        JoyState {
                            trigger_lock: lock,
                            trigger_ln: trigger_level(
                                event.value as int,
                                self.trigger_max as int,
                            ) as i64,
                            drive: true,
                            ..a
                        }
                    }
                } else if self.trigger_lock == TriggerLockState::Unlocked {
                    JoyState { trigger_ln: TRIGGER_RELEASED_LN, drive: false, ..a }
                } else {
                    JoyState { trigger_lock: lock, ..a }
                }
            },
            EventCode::BtnThumbR => if event.value != 0 {
                JoyState { asymmetry: Axis { driven: 0, ..a.asymmetry }, ..a }
            } else {
                a
            },
            EventCode::AbsHat0X => if event.value == 1 {
                a.realigned(self.last_stop as int)
            } else if event.value == -1 {
                a.realigned(self.last_stop - self.config.max_pos)
            } else {
                a
            },
            EventCode::BtnTr => JoyState {
                trigger_lock: lock_after_button(
                    self.trigger_lock,
                    event.value as int,
                    self.trigger_ln as int,
                ),
                ..a
            },
            _ => a,
        }
    }

    /// The state after the engine's notice of a stroke end.
    pub open spec fn after_status(&self, status: StatusMessage) -> JoyState {
        JoyState { last_stop: status.0, ..*self }
    }

    /// Whether every input event is to be reported.
    pub fn reports_events(&self) -> (on: bool)
        ensures
            on == self.config.report_events,
    {
        self.config.report_events
    }

    /// The periodic tick at time `now`: integrates the axes and writes the
    /// end-stops to `ctrl`. While the motor is not allowed to run, also writes
    /// the target speeds, minus and plus the rate of the centre, and returns
    /// `None`. While it is, leaves the target speeds alone and returns the
    /// exponent of the cycle speed, for `apply_speed`.
    pub fn handle_tick(&mut self, now: u64, ctrl: &mut Control) -> (exponent: Option<i64>)
        requires
            old(self).wf(),
        ensures
            final(self).wf(),
            *final(self) == old(self).after_tick(now),
            final(ctrl).ends[0] == final(self).low_end(),
            final(ctrl).ends[1] == final(self).high_end(),
            final(ctrl).stop == old(ctrl).stop,
            final(ctrl).accel == old(ctrl).accel,
            old(self).drive ==> exponent == Some(final(self).exponent() as i64),
            old(self).drive ==> final(ctrl).target_speeds == old(ctrl).target_speeds,
            !old(self).drive ==> exponent is None,
            !old(self).drive ==> final(ctrl).target_speeds[0] == sat_i64(-final(self).pos.rate()),
            !old(self).drive ==> final(ctrl).target_speeds[1] == sat_i64(final(self).pos.rate()),
            old(self).config.has_room() ==> final(ctrl).ends[0] <= final(ctrl).ends[1],
    {
        self.pos.handle_tick(true, now);
        self.stroke_len.handle_tick(self.drive, now);
        self.asymmetry.handle_tick(self.drive, now);
        self.speed.handle_tick(self.drive, now);
        let offset: i128 = self.pos_offset as i128;
        proof {
            if self.config.has_room() {
                old(self).after_tick(now).lemma_ends_ordered();
            }
        }
        if self.drive {
            self.pos.clamp(
                self.pos.spec.min as i128 + self.stroke_len.driven as i128,
                self.pos.spec.max as i128 - self.stroke_len.driven as i128,
            );
            let below: i128 = div_floor(
                self.pos.driven as i128 - self.stroke_len.driven as i128,
                MICRO as i128,
            );
            let above: i128 = div_floor(
                self.pos.driven as i128 + self.stroke_len.driven as i128,
                MICRO as i128,
            );
            let low: i128 = if below > 0 {
                below
            } else {
                0
            };
            let high: i128 = if above < self.config.max_pos as i128 {
                above
            } else {
                self.config.max_pos as i128
            };
            ctrl.set_ends(&[saturate_i64(offset + low), saturate_i64(offset + high)]);
            Some(self.speed.driven + self.trigger_ln)
        } else {
            self.stroke_len.clamp(0, self.pos.driven as i128 - self.pos.spec.min as i128);
            self.stroke_len.clamp(0, self.pos.spec.max as i128 - self.pos.driven as i128);
            ctrl.set_ends(
                &[self.pos_offset, saturate_i64(offset + self.config.max_pos as i128)],
            );
            let rate: i128 = self.pos.speed();
            ctrl.set_target_speeds(&[saturate_i64(-rate), saturate_i64(rate)]);
            None
        }
    }

    /// Writes to `ctrl` the target speeds for the cycle speed `v`, in
    /// thousandths of a step per second, while the motor is allowed to run;
    /// otherwise leaves `ctrl` as it is.
    pub fn apply_speed(&self, v: i64, ctrl: &mut Control)
        requires
            self.wf(),
        ensures
            final(ctrl).ends == old(ctrl).ends,
            final(ctrl).stop == old(ctrl).stop,
            final(ctrl).accel == old(ctrl).accel,
            self.drive ==> final(ctrl).target_speeds[0] == self.low_target(v as int),
            self.drive ==> final(ctrl).target_speeds[1] == self.high_target(v as int),
            !self.drive ==> final(ctrl).target_speeds == old(ctrl).target_speeds,
    {
        if !self.drive {
            return ;
        }
        let rate: i128 = self.pos.speed();
        assert(-0x8000_0000_0000_0000 * 1_000_000 <= v * MICRO <= 0x8000_0000_0000_0000
            * 1_000_000) by (nonlinear_arith)
            requires
                -0x8000_0000_0000_0000 <= v <= 0x8000_0000_0000_0000,
                MICRO == 1_000_000,
        ;
        let scaled: i128 = v as i128 * MICRO as i128;
        let asymmetry: i128 = self.asymmetry.driven as i128;
        let toward_low: i128 = div_toward_zero(scaled, MICRO as i128 + asymmetry) - rate;
        let toward_high: i128 = div_toward_zero(scaled, MICRO as i128 - asymmetry) + rate;
        let top: i128 = self.config.max_speed as i128;
        let low: i128 = if toward_low <= top {
            toward_low
        } else {
            top
        };
        let high: i128 = if toward_high <= top {
            toward_high
        } else {
            top
        };
        ctrl.set_target_speeds(&[saturate_i64(low), saturate_i64(high)]);
    }

    /// Moves the offset to `target` and the centre the other way.
    fn realign(&mut self, target: i128)
        requires
            old(self).wf(),
            -0x1_0000_0000_0000_0000 <= target <= 0x1_0000_0000_0000_0000,
        ensures
            final(self).wf(),
            *final(self) == old(self).realigned(target as int),
    {
        let offset: i64 = saturate_i64(target);
        let shift: i128 = offset as i128 - self.pos_offset as i128;
        assert(-0x1_0000_0000_0000_0000 * 1_000_000 <= shift * MICRO <= 0x1_0000_0000_0000_0000
            * 1_000_000) by (nonlinear_arith)
            requires
                -0x1_0000_0000_0000_0000 <= shift <= 0x1_0000_0000_0000_0000,
                MICRO == 1_000_000,
        ;
        self.pos.driven = saturate_i64(self.pos.driven as i128 - shift * MICRO as i128);
        self.pos_offset = offset;
    }

    /// Takes an input event. The release of an unlocked trigger also writes
    /// zero target speeds to `ctrl`; nothing else touches `ctrl`.
    pub fn handle_event(&mut self, event: &InputEvent, ctrl: &mut Control)
        requires
            old(self).wf(),
        ensures
            final(self).wf(),
            *final(self) == old(self).after_event(*event),
            final(ctrl).ends == old(ctrl).ends,
            final(ctrl).stop == old(ctrl).stop,
            final(ctrl).accel == old(ctrl).accel,
            old(self).releases(*event) ==> final(ctrl).target_speeds[0] == 0,
            old(self).releases(*event) ==> final(ctrl).target_speeds[1] == 0,
            !old(self).releases(*event) ==> final(ctrl).target_speeds == old(ctrl).target_speeds,
    {
        self.pos.handle_event(true, event);
        self.stroke_len.handle_event(self.drive, event);
        self.asymmetry.handle_event(self.drive, event);
        self.speed.handle_event(self.drive, event);
        match event.code {
            EventCode::AbsRz => {
                if event.value > 0 {
                    if self.trigger_lock != TriggerLockState::LockedTriggerNonzero {
                        self.trigger_lock = TriggerLockState::Unlocked;
                        let level: i128 = div_toward_zero(
                            event.value as i128 * TRIGGER_FACTOR_LN as i128,
                            self.trigger_max as i128,
                        );
                        proof {
                            lemma_quotient_reaches(
                                magnitude(event.value * TRIGGER_FACTOR_LN),
                                magnitude(self.trigger_max as int),
                                0,
                            );
                        }
                        self.trigger_ln = (level - TRIGGER_FACTOR_LN as i128) as i64;
                        self.drive = true;
                    }
                } else if self.trigger_lock == TriggerLockState::Unlocked {
                    self.trigger_ln = TRIGGER_RELEASED_LN;
                    self.drive = false;
                    ctrl.set_target_speeds(&[0, 0]);
                } else {
                    self.trigger_lock = TriggerLockState::LockedTriggerZero;
                }
            },
            EventCode::BtnThumbR => {
                if event.value != 0 {
                    self.asymmetry.driven = 0;
                }
            },
            EventCode::AbsHat0X => {
                if event.value == 1 {
                    self.realign(self.last_stop as i128);
                } else if event.value == -1 {
                    self.realign(self.last_stop as i128 - self.config.max_pos as i128);
                }
            },
            EventCode::BtnTr => {
                if event.value == 1 && self.trigger_ln != TRIGGER_RELEASED_LN {
                    self.trigger_lock = TriggerLockState::LockedTriggerNonzero;
                }
            },
            _ => {},
        }
    }

    /// Takes the engine's notice of a stroke end.
    pub fn handle_status(&mut self, status: StatusMessage)
        ensures
            *final(self) == old(self).after_status(status),
            old(self).wf() ==> final(self).wf(),
    {
        self.last_stop = status.0;
    }

    /// What the integrator shows of itself.
    pub fn report(&self) -> (report: Report)
        ensures
            report.pos == self.pos.driven,
            report.stroke_len == self.stroke_len.driven,
            report.asymmetry == self.asymmetry.driven,
            report.ln_speed == self.speed.driven,
            report.drive == self.drive,
    {
        Report {
            pos: self.pos.driven,
            stroke_len: self.stroke_len.driven,
            asymmetry: self.asymmetry.driven,
            ln_speed: self.speed.driven,
            drive: self.drive,
        }
    }
}

impl JoyState {
    /// The event is a sample of one of the four axes within its deadzone.
    pub open spec fn in_deadzone(&self, event: InputEvent) -> bool {
        match event.code {
            EventCode::AbsX => -self.pos.flat <= event.value <= self.pos.flat,
            EventCode::AbsY => -self.stroke_len.flat <= event.value <= self.stroke_len.flat,
            EventCode::AbsRx => -self.asymmetry.flat <= event.value <= self.asymmetry.flat,
            EventCode::AbsRy => -self.speed.flat <= event.value <= self.speed.flat,
            _ => false,
        }
    }

    /// Repeated samples of one axis within its deadzone change none of the
    /// four values after the first, where the centre lies within its range.
    pub proof fn lemma_deadzone_idempotent(&self, first: InputEvent, second: InputEvent)
        requires
            self.wf(),
            self.pos.settled(),
            first.code == second.code,
            self.in_deadzone(first),
            self.in_deadzone(second),
        ensures
            self.after_event(first).after_event(second).pos.driven == self.after_event(
                first,
            ).pos.driven,
            self.after_event(first).after_event(second).stroke_len.driven == self.after_event(
                first,
            ).stroke_len.driven,
            self.after_event(first).after_event(second).asymmetry.driven == self.after_event(
                first,
            ).asymmetry.driven,
            self.after_event(first).after_event(second).speed.driven == self.after_event(
                first,
            ).speed.driven,
    {
        match first.code {
            EventCode::AbsX => self.pos.lemma_deadzone_holds(true, first, true, second),
            EventCode::AbsY => self.stroke_len.lemma_deadzone_holds(
                self.drive,
                first,
                self.drive,
                second,
            ),
            EventCode::AbsRx => self.asymmetry.lemma_deadzone_holds(
                self.drive,
                first,
                self.drive,
                second,
            ),
            _ => self.speed.lemma_deadzone_holds(self.drive, first, self.drive, second),
        }
    }

    /// A sample within the deadzone of an axis at rest changes none of the
    /// four values, where the centre lies within its range.
    pub proof fn lemma_deadzone_at_rest(&self, event: InputEvent)
        requires
            self.wf(),
            self.pos.settled(),
            self.in_deadzone(event),
            self.pos.last_value == 0,
            self.stroke_len.last_value == 0,
            self.asymmetry.last_value == 0,
            self.speed.last_value == 0,
        ensures
            self.after_event(event).pos.driven == self.pos.driven,
            self.after_event(event).stroke_len.driven == self.stroke_len.driven,
            self.after_event(event).asymmetry.driven == self.asymmetry.driven,
            self.after_event(event).speed.driven == self.speed.driven,
    {
        self.pos.lemma_rest_holds(true, event.time);
        self.stroke_len.lemma_rest_holds(self.drive, event.time);
        self.asymmetry.lemma_rest_holds(self.drive, event.time);
        self.speed.lemma_rest_holds(self.drive, event.time);
    }

    /// Whatever the event, the lock moves as its two transition functions
    /// say: by the trigger, by the lock button, and not at all otherwise.
    pub proof fn lemma_lock_after_event(&self, event: InputEvent)
        ensures
            self.after_event(event).trigger_lock == (match event.code {
                EventCode::AbsRz => lock_after_trigger(self.trigger_lock, event.value as int),
                EventCode::BtnTr => lock_after_button(
                    self.trigger_lock,
                    event.value as int,
                    self.trigger_ln as int,
                ),
                _ => self.trigger_lock,
            }),
    {
    }

    /// With settings in range the integrator fails to start only over what
    /// the device reports, never over a range.
    pub proof fn lemma_made_fails_only_on_device(config: Config, info: DeviceInfo, now: u64)
        requires
            config.in_range(),
        ensures
            JoyState::made(config, info, now) != Err::<JoyState, JoyError>(JoyError::OutOfRange),
            info.x is Some && info.y is Some && info.rx is Some && info.ry is Some && info.rz
                is Some && info.x->0.maximum != 0 && info.y->0.maximum != 0 && info.rx->0.maximum
                != 0 && info.ry->0.maximum != 0 && info.rz->0.maximum != 0 ==> JoyState::made(
                config,
                info,
                now,
            ) is Ok,
    {
        assert(config.min_stroke * MICRO == config.min_stroke * 1_000_000);
        assert((config.max_pos - config.min_stroke) * MICRO == (config.max_pos
            - config.min_stroke) * 1_000_000);
        assert(config.max_pos * (MICRO / 2) == config.max_pos * 500_000);
        assert(pos_spec(config).in_range());
        assert(stroke_len_spec(config).in_range());
        assert(asymmetry_spec(config).in_range());
        assert(speed_spec(config).in_range());
    }

    /// A realignment by the directional pad moves the offset to its target
    /// and leaves the sum of offset and centre, in millionths of a step, as
    /// it was, as long as offset and centre stay within a machine word.
    pub proof fn lemma_realign_keeps_place(&self, target: int)
        requires
            i64::MIN <= target <= i64::MAX,
            i64::MIN <= self.pos.driven - (target - self.pos_offset) * MICRO <= i64::MAX,
        ensures
            self.realigned(target).pos_offset == target,
            self.realigned(target).pos.driven == self.pos.driven - (target - self.pos_offset)
                * MICRO,
            self.realigned(target).pos_offset * MICRO + self.realigned(target).pos.driven
                == self.pos_offset * MICRO + self.pos.driven,
            self.realigned(target).last_stop == self.last_stop,
            self.realigned(target).drive == self.drive,
            self.realigned(target).trigger_lock == self.trigger_lock,
            self.realigned(target).stroke_len == self.stroke_len,
            self.realigned(target).asymmetry == self.asymmetry,
            self.realigned(target).speed == self.speed,
    {
        assert((target - self.pos_offset) * MICRO == target * MICRO - self.pos_offset * MICRO)
            by (nonlinear_arith);
    }

    /// The position that the engine reports at the end of a stroke is the
    /// last stop that the integrator then knows.
    pub proof fn lemma_status_round_trip(&self, pos: i64)
        ensures
            self.after_status(StatusMessage(pos)).last_stop == pos,
    {
    }

    /// With settings that leave room for the shortest stroke, and a centre
    /// within its range while the motor is allowed to run, the lower end-stop
    /// that the state asks for is never above the upper one, and both lie
    /// within the travel, which starts at the offset.
    pub proof fn lemma_ends_ordered(&self)
        requires
            self.wf(),
            self.drive ==> self.pos.settled(),
            self.config.has_room(),
        ensures
            self.low_end() <= self.high_end(),
            self.pos_offset <= self.low_end(),
            self.high_end() <= sat_i64(self.pos_offset + self.config.max_pos),
    {
    }
}

/// The nine transitions of the trigger lock: from each of its three states
/// by a released trigger, a pressed trigger, and a press of the lock button
/// while the trigger adjustment does not mark a released trigger.
pub proof fn lemma_lock_transitions(released: int, pressed: int, trigger_ln: int)
    requires
        released <= 0,
        pressed > 0,
        trigger_ln != TRIGGER_RELEASED_LN,
    ensures
        lock_after_trigger(TriggerLockState::Unlocked, released) == TriggerLockState::Unlocked,
        lock_after_trigger(TriggerLockState::Unlocked, pressed) == TriggerLockState::Unlocked,
        lock_after_button(TriggerLockState::Unlocked, 1, trigger_ln)
            == TriggerLockState::LockedTriggerNonzero,
        lock_after_trigger(TriggerLockState::LockedTriggerNonzero, released)
            == TriggerLockState::LockedTriggerZero,
        lock_after_trigger(TriggerLockState::LockedTriggerNonzero, pressed)
            == TriggerLockState::LockedTriggerNonzero,
        lock_after_button(TriggerLockState::LockedTriggerNonzero, 1, trigger_ln)
            == TriggerLockState::LockedTriggerNonzero,
        lock_after_trigger(TriggerLockState::LockedTriggerZero, released)
            == TriggerLockState::LockedTriggerZero,
        lock_after_trigger(TriggerLockState::LockedTriggerZero, pressed)
            == TriggerLockState::Unlocked,
        lock_after_button(TriggerLockState::LockedTriggerZero, 1, trigger_ln)
            == TriggerLockState::LockedTriggerNonzero,
{
}

} // verus!
