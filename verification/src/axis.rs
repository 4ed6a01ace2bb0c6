//! Axes: values that the deflection of a stick drives up and down.
//!
//! Axis values are kept in millionths of their unit, times in microseconds.
//! Every integration holds the value to the range of its axis; a value that
//! has been shifted from outside may lie out of range until the next one.

use vstd::prelude::*;
use crate::config::{TIME_LIMIT, VALUE_LIMIT};
use crate::error::JoyError;
use crate::fixed::{
    clamp, clamp_wide, div_toward_zero, lemma_quotient_reaches, magnitude, magnitude_of,
    scaled_quotient, trunc_div,
};

verus! {

/// The event codes the integrator tells apart.
#[derive(Debug, Clone, Copy, PartialEq, Eq, Structural)]
pub enum EventCode {
    /// Left stick, horizontal: the centre of the stroke.
    AbsX,
    /// Left stick, vertical: the half-length of the stroke.
    AbsY,
    /// Right stick, horizontal: the asymmetry.
    AbsRx,
    /// Right stick, vertical: the logarithm of the speed.
    AbsRy,
    /// The analog trigger.
    AbsRz,
    /// The directional pad, horizontal.
    AbsHat0X,
    /// The shoulder button that locks the trigger.
    BtnTr,
    /// The button under the right stick, which resets the asymmetry.
    BtnThumbR,
    /// Any other code.
    Other,
}

/// One input event.
#[derive(Debug, Clone, Copy)]
pub struct InputEvent {
    /// When the event occurred, in microseconds.
    pub time: u64,
    /// What the event is about.
    pub code: EventCode,
    /// The raw value.
    pub value: i32,
}

/// What the device reports of an absolute axis.
#[derive(Debug, Clone, Copy)]
pub struct AbsInfo {
    /// Largest raw value.
    pub maximum: i32,
    /// Raw values within this distance of zero are noise.
    pub flat: i32,
}

/// The fixed description of an axis.
#[derive(Debug, Clone, Copy)]
pub struct AxisSpec {
    /// The event code that feeds the axis.
    pub code: EventCode,
    /// Smallest value.
    pub min: i64,
    /// Largest value.
    pub max: i64,
    /// Time a full deflection takes to sweep from zero to `max`, in
    /// microseconds; negative where the stick is inverted.
    pub time_to_max: i64,
}

/// An axis: a value that the deflection of a stick drives up and down.
#[derive(Debug, Clone, Copy)]
pub struct Axis {
    /// The fixed description.
    pub spec: AxisSpec,
    /// Largest raw value the device reports.
    pub raw_max: i32,
    /// Raw samples of at most this magnitude count as zero.
    pub flat: i64,
    /// The integrated value.
    pub driven: i64,
    /// When the value was last integrated.
    pub last_time: u64,
    /// The last raw sample, zero if it lay in the deadzone.
    pub last_value: i32,
}

/// The deadzone for a reported flat value: a tenth more, rounded to the
/// nearest whole number, halves away from zero.
pub open spec fn deadzone(raw_flat: int) -> int {
    trunc_div(
        raw_flat * 11 + (if raw_flat >= 0 {
            5int
        } else {
            -5int
        }),
        10,
    )
}

impl AxisSpec {
    /// The range and the sweep time lie within the limits, and the sweep
    /// time is not zero.
    pub open spec fn in_range(&self) -> bool {
        &&& -VALUE_LIMIT <= self.min <= VALUE_LIMIT
        &&& -VALUE_LIMIT <= self.max <= VALUE_LIMIT
        &&& -TIME_LIMIT <= self.time_to_max <= TIME_LIMIT
        &&& self.time_to_max != 0
    }

    /// Whether the description lies within the limits.
    pub fn is_in_range(&self) -> (ok: bool)
        ensures
            ok == self.in_range(),
    {
        -VALUE_LIMIT <= self.min && self.min <= VALUE_LIMIT && -VALUE_LIMIT <= self.max
            && self.max <= VALUE_LIMIT && -TIME_LIMIT <= self.time_to_max && self.time_to_max
            <= TIME_LIMIT && self.time_to_max != 0
    }
}

/// `x` held to `lo ..= hi` as `clamp` does.
pub fn clamp_to(x: i128, lo: i64, hi: i64) -> (r: i64)
    ensures
        r == clamp(x as int, lo as int, hi as int),
{
    let raised: i128 = if x >= lo as i128 {
        x
    } else {
        lo as i128
    };
    if raised <= hi as i128 {
        raised as i64
    } else {
        hi
    }
}

impl Axis {
    /// The description is in range and the device's largest raw value is not
    /// zero.
    pub open spec fn wf(&self) -> bool {
        &&& self.spec.in_range()
        &&& self.raw_max != 0
    }

    /// The value lies where clamping to the axis range leaves it. Every
    /// integration leaves the value so; only a shift of the value from
    /// outside can take it out of its range until the next integration.
    pub open spec fn settled(&self) -> bool {
        self.driven == clamp(self.driven as int, self.spec.min as int, self.spec.max as int)
    }

    /// Numerator of the rate of change: the last sample times the range.
    pub open spec fn rate_num(&self) -> int {
        self.last_value * self.spec.max
    }

    /// Denominator of the rate of change: the largest raw value times the
    /// sweep time.
    pub open spec fn rate_den(&self) -> int {
        self.raw_max * self.spec.time_to_max
    }

    /// Rate of change of the value, in thousandths of a unit per second.
    pub open spec fn rate(&self) -> int {
        trunc_div(self.rate_num() * 1000, self.rate_den())
    }

    /// Change of the value over `dt` microseconds at the current rate.
    pub open spec fn increment(&self, dt: int) -> int {
        trunc_div(self.rate_num() * dt, self.rate_den())
    }

    /// The raw sample as the axis keeps it: zero inside the deadzone.
    pub open spec fn quantized(&self, value: i32) -> i32 {
        if -self.flat <= value <= self.flat {
            0i32
        } else {
            value
        }
    }

    /// The axis at time `now`: where it is driven and time has not run
    /// backwards, the value has moved at the current rate and is held to the
    /// axis range.
    pub open spec fn after_tick(&self, drive: bool, now: u64) -> Axis {
        Axis {
            driven: if drive && now >= self.last_time {
                clamp(
                    self.driven + self.increment(now - self.last_time),
                    self.spec.min as int,
                    self.spec.max as int,
                ) as i64
            } else {
                self.driven
            },
            last_time: now,
            ..*self
        }
    }

    /// The axis after an event: one with another code leaves it alone; one
    /// with its own code integrates up to the event's time and then takes the
    /// sample.
    pub open spec fn after_event(&self, drive: bool, event: InputEvent) -> Axis {
        if event.code != self.spec.code {
            *self
        } else {
            Axis { last_value: self.quantized(event.value), ..self.after_tick(drive, event.time) }
        }
    }

    /// The axis with its value held to `lo ..= hi` and then to the axis
    /// range.
    pub open spec fn clamped(&self, lo: int, hi: int) -> Axis {
        Axis {
            driven: clamp(
                clamp(self.driven as int, lo, hi),
                self.spec.min as int,
                self.spec.max as int,
            ) as i64,
            ..*self
        }
    }

    /// What `new` makes: an axis at `driven`, held to the range of `spec`,
    /// with the calibration that the device reports; or the failure where
    /// `spec` is out of range, where the device does not report the axis, or
    /// where it reports a largest raw value of zero, in this order.
    pub open spec fn made(spec: AxisSpec, driven: i64, info: Option<AbsInfo>, now: u64) -> Result<
        Axis,
        JoyError,
    > {
        if !spec.in_range() {
            Err(JoyError::OutOfRange)
        } else {
            match info {
                None => Err(JoyError::AbsInfoMissing(spec.code)),
                Some(abs) => if abs.maximum == 0 {
                    Err(JoyError::ZeroMaximum(spec.code))
                } else {
                    Ok(
                        Axis {
                            spec,
                            raw_max: abs.maximum,
                            flat: deadzone(abs.flat as int) as i64,
                            driven: clamp(driven as int, spec.min as int, spec.max as int) as i64,
                            last_time: now,
                            last_value: 0,
                        },
                    )
                },
            }
        }
    }

    /// An axis at rest at `driven`, calibrated by what the device reports.
    pub fn new(spec: AxisSpec, driven: i64, info: Option<AbsInfo>, now: u64) -> (r: Result<
        Axis,
        JoyError,
    >)
        ensures
            r == Axis::made(spec, driven, info, now),
            r is Ok ==> r->Ok_0.wf() && r->Ok_0.settled(),
    {
        if !spec.is_in_range() {
            return Err(JoyError::OutOfRange);
        }
        match info {
            None => Err(JoyError::AbsInfoMissing(spec.code)),
            Some(abs) => {
                if abs.maximum == 0 {
                    return Err(JoyError::ZeroMaximum(spec.code));
                }
                let half: i128 = if abs.flat >= 0 {
                    5
                } else {
                    -5
                };
                let flat: i128 = div_toward_zero(abs.flat as i128 * 11 + half, 10);
                Ok(
                    Axis {
                        spec,
                        raw_max: abs.maximum,
                        flat: flat as i64,
                        driven: clamp_to(driven as i128, spec.min, spec.max),
                        last_time: now,
                        last_value: 0,
                    },
                )
            },
        }
    }

    /// Rate of change of the value, in thousandths of a unit per second.
    pub fn speed(&self) -> (rate: i128)
        requires
            self.wf(),
        ensures
            rate == self.rate(),
            -0x1_0000_0000_0000_0000_0000_0000 <= rate <= 0x1_0000_0000_0000_0000_0000_0000,
    {
        let num: i128 = self.numerator();
        let den: i128 = self.denominator();
        assert(-0x1_0000_0000_0000_0000_0000_0000 <= num * 1000
            <= 0x1_0000_0000_0000_0000_0000_0000);
        let q: i128 = div_toward_zero(num * 1000, den);
        proof {
            lemma_quotient_reaches(
                magnitude(num * 1000),
                magnitude(den as int),
                0,
            );
        }
        q
    }

    /// The last sample times the range.
    fn numerator(&self) -> (num: i128)
        requires
            self.wf(),
        ensures
            num == self.rate_num(),
            -0x8000_0000 * VALUE_LIMIT <= num <= 0x8000_0000 * VALUE_LIMIT,
    {
        assert(-0x8000_0000 * VALUE_LIMIT <= self.last_value * self.spec.max <= 0x8000_0000
            * VALUE_LIMIT) by (nonlinear_arith)
            requires
                -0x8000_0000 <= self.last_value <= 0x8000_0000,
                -VALUE_LIMIT <= self.spec.max <= VALUE_LIMIT,
        ;
        self.last_value as i128 * self.spec.max as i128
    }

    /// The largest raw value times the sweep time.
    fn denominator(&self) -> (den: i128)
        requires
            self.wf(),
        ensures
            den == self.rate_den(),
            den != 0,
            -0x8000_0000 * TIME_LIMIT <= den <= 0x8000_0000 * TIME_LIMIT,
    {
        assert(-0x8000_0000 * TIME_LIMIT <= self.raw_max * self.spec.time_to_max <= 0x8000_0000
            * TIME_LIMIT && self.raw_max * self.spec.time_to_max != 0) by (nonlinear_arith)
            requires
                -0x8000_0000 <= self.raw_max <= 0x8000_0000,
                -TIME_LIMIT <= self.spec.time_to_max <= TIME_LIMIT,
                self.raw_max != 0,
                self.spec.time_to_max != 0,
        ;
        self.raw_max as i128 * self.spec.time_to_max as i128
    }

    /// Brings the axis to time `now`.
    pub fn handle_tick(&mut self, drive: bool, now: u64)
        requires
            old(self).wf(),
        ensures
            *final(self) == old(self).after_tick(drive, now),
            final(self).wf(),
            old(self).settled() || (drive && now >= old(self).last_time) ==> final(self).settled(),
    {
        if drive && now >= self.last_time {
            let dt: u64 = now - self.last_time;
            let num: i128 = self.numerator();
            let den: i128 = self.denominator();
            // A change of this size takes the value past either end of the
            // axis range, wherever it stands.
            let swing: u128 = magnitude_of(self.driven as i128) + VALUE_LIMIT as u128 + 1;
            let inc: i128 = scaled_quotient(num, dt, den, swing as u64);
            self.driven = clamp_to(self.driven as i128 + inc, self.spec.min, self.spec.max);
        }
        self.last_time = now;
    }

    /// Takes an event: one with the axis's own code brings the axis to the
    /// event's time and replaces the sample.
    pub fn handle_event(&mut self, drive: bool, event: &InputEvent)
        requires
            old(self).wf(),
        ensures
            *final(self) == old(self).after_event(drive, *event),
            final(self).wf(),
            old(self).settled() ==> final(self).settled(),
    {
        if event.code != self.spec.code {
            return ;
        }
        self.handle_tick(drive, event.time);
        self.last_value = if event.value as i64 <= self.flat && event.value as i64 >= -self.flat {
            0
        } else {
            event.value
        };
    }

    /// Holds the value to `lo ..= hi`, then to the axis range.
    pub fn clamp(&mut self, lo: i128, hi: i128)
        requires
            old(self).wf(),
        ensures
            *final(self) == old(self).clamped(lo as int, hi as int),
            final(self).wf(),
            final(self).settled(),
    {
        let inner: i128 = clamp_wide(self.driven as i128, lo, hi);
        self.driven = clamp_to(inner, self.spec.min, self.spec.max);
    }
}

impl Axis {
    /// While the last sample lies in the deadzone a value within its range
    /// stays where it is, whatever time passes.
    pub proof fn lemma_rest_holds(&self, drive: bool, now: u64)
        requires
            self.wf(),
            self.settled(),
            self.last_value == 0,
        ensures
            self.after_tick(drive, now).driven == self.driven,
            self.after_tick(drive, now).wf(),
            self.after_tick(drive, now).settled(),
    {
        assert(self.rate_num() == 0) by (nonlinear_arith)
            requires
                self.rate_num() == self.last_value * self.spec.max,
                self.last_value == 0,
        ;
        let dt = now - self.last_time;
        assert(self.rate_num() * dt == 0) by (nonlinear_arith)
            requires
                self.rate_num() == 0,
        ;
        assert(self.rate_den() != 0) by (nonlinear_arith)
            requires
                self.rate_den() == self.raw_max * self.spec.time_to_max,
                self.raw_max != 0,
                self.spec.time_to_max != 0,
        ;
        lemma_quotient_reaches(0, magnitude(self.rate_den()), 0);
    }

    /// A sample in the deadzone that follows a sample in the deadzone leaves
    /// a value that was within its range where the first one left it.
    pub proof fn lemma_deadzone_holds(
        &self,
        drive1: bool,
        first: InputEvent,
        drive2: bool,
        second: InputEvent,
    )
        requires
            self.wf(),
            self.settled(),
            first.code == self.spec.code,
            second.code == self.spec.code,
            -self.flat <= first.value <= self.flat,
            -self.flat <= second.value <= self.flat,
        ensures
            self.after_event(drive1, first).after_event(drive2, second).driven == self.after_event(
                drive1,
                first,
            ).driven,
            self.after_event(drive1, first).after_event(drive2, second).last_value == 0,
    {
        let rested = self.after_event(drive1, first);
        rested.lemma_rest_holds(drive2, second.time);
    }
}

} // verus!
