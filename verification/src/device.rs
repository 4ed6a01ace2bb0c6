//! The motion engine and the control block it reads.
//!
//! Positions are whole steps. Speeds are in thousandths of a step per second,
//! accelerations in thousandths of a step per second squared, and times in
//! nanoseconds.

use vstd::prelude::*;
use crate::error::EngineError;
use crate::fixed::div_floor;
use crate::pulse::{
    PulseTable, SLOWEST_PULSE, ceiling_index, lemma_climb_cost, lemma_first_below_found,
    lemma_ramp_time_monotone, lemma_table_is_ramp, ramp_time,
};
use crate::ramp::{
    RampState, CREEP_SPEED, INTERVAL_SCALE, MIN_DISTANCE, MIN_SPEED, band_clamp,
    choose_direction, commanded_interval, cruise_index, end_fixed, lemma_commanded_interval,
    lemma_no_over_travel, lemma_no_under_travel, lemma_stroke_terminates, lemma_stroke_time,
    on_ramp, overshoots, ramp_run, ramp_step, remaining, stop_fixed, target_above_min,
    target_fixed, viable,
};

verus! {

/// How long the step line is held high for one pulse, in nanoseconds.
pub const PULSE_DURATION: u64 = 1_000;

/// How long the direction line must settle before the first pulse of a
/// stroke, in nanoseconds.
pub const DIR_SLEEP: u64 = 1_000_000;

/// How long to wait before looking again when no direction is viable, in
/// nanoseconds.
pub const POLL_SLEEP: u64 = 50_000_000;

/// The overhead per pulse assumed before any stroke has been measured, in
/// nanoseconds.
pub const INITIAL_TIME_ERROR: i64 = 200_000;

/// Only strokes of more than this many steps update the overhead estimate.
pub const CALIBRATION_STEPS: i64 = 50;

/// Notice sent by the motion engine each time a stroke has come to rest,
/// carrying the absolute position of the carriage in steps.
#[derive(Debug, Clone, Copy, PartialEq, Eq, Structural)]
pub struct StatusMessage(pub i64);

/// The control block: what the integrator writes and the engine reads.
#[derive(Debug, Clone, Copy)]
pub struct Control {
    /// Shutdown has been requested.
    pub stop: bool,
    /// The two end-stops, in steps.
    pub ends: [i64; 2],
    /// The speed wanted while moving toward each end-stop.
    pub target_speeds: [i64; 2],
    /// The acceleration bound.
    pub accel: i64,
}

impl Control {
    /// A block at rest: both ends and both targets zero, no stop requested.
    pub fn new(accel: i64) -> (ctrl: Control)
        ensures
            ctrl.accel == accel,
            !ctrl.stop,
            ctrl.ends@ == seq![0i64, 0i64],
            ctrl.target_speeds@ == seq![0i64, 0i64],
    {
        Control { stop: false, ends: [0, 0], target_speeds: [0, 0], accel }
    }

    /// Whether shutdown has been requested.
    pub fn stop(&self) -> (stop: bool)
        ensures
            stop == self.stop,
    {
        self.stop
    }

    /// The end-stop of direction `i`.
    pub fn end(&self, i: usize) -> (end: i64)
        requires
            i < 2,
        ensures
            end == self.ends[i as int],
    {
        self.ends[i]
    }

    /// Replaces both end-stops.
    pub fn set_ends(&mut self, ends: &[i64; 2])
        ensures
            final(self).ends == *ends,
            final(self).stop == old(self).stop,
            final(self).target_speeds == old(self).target_speeds,
            final(self).accel == old(self).accel,
    {
        self.ends = *ends;
    }

    /// The target speed of direction `i`.
    pub fn target_speed(&self, i: usize) -> (speed: i64)
        requires
            i < 2,
        ensures
            speed == self.target_speeds[i as int],
    {
        self.target_speeds[i]
    }

    /// Replaces both target speeds.
    pub fn set_target_speeds(&mut self, target_speeds: &[i64; 2])
        ensures
            final(self).target_speeds == *target_speeds,
            final(self).stop == old(self).stop,
            final(self).ends == old(self).ends,
            final(self).accel == old(self).accel,
    {
        self.target_speeds = *target_speeds;
    }
}

/// The level of the direction line is low for direction 1 and high for
/// direction 0.
pub const UPWARD_IS_LOW: bool = true;

/// Whether the direction line is to be high for direction `dir`.
pub fn direction_line_high(dir: usize) -> (high: bool)
    ensures
        high == ((dir == 1) != UPWARD_IS_LOW),
{
    (dir == 1) != UPWARD_IS_LOW
}

/// Steps covered so far by the current stroke.
pub open spec fn travelled(s: RampState) -> int {
    remaining(s.dir, s.pos, s.start_pos)
}

/// The state at the start of a stroke in direction `dir`: ramp index 1 under
/// the ceiling that the overhead estimate allows, nothing slept yet.
pub open spec fn stroke_start(s: RampState, ctrl: Control, dir: int) -> RampState {
    RampState {
        dir,
        commanded: commanded_interval(ctrl.target_speeds[dir] as int),
        start_pos: s.pos,
        pulse_ix: 1,
        max_pulse_ix: ceiling_index(s.table, s.time_error),
        slept: 0,
        time_clip: false,
        ..s
    }
}

/// The state after a stroke that took `elapsed` nanoseconds of wall time: a
/// stroke of more than `CALIBRATION_STEPS` steps sets the overhead estimate to
/// the time not accounted for by the intervals waited, per step.
pub open spec fn calibrated(s: RampState, elapsed: int) -> RampState {
    if travelled(s) > CALIBRATION_STEPS {
        RampState { time_error: (elapsed - s.slept) / travelled(s), ..s }
    } else {
        s
    }
}

/// The motion engine: position, direction, overhead estimate and the state
/// of the ramp of the current stroke.
pub struct Engine {
    /// The pulse table of the acceleration the engine was made for.
    pub table: PulseTable,
    /// Absolute position since start, in steps.
    pub pos: i64,
    /// Direction of travel: 0 toward `ends[0]`, 1 toward `ends[1]`.
    pub dir: usize,
    /// Estimated overhead per pulse, in nanoseconds.
    pub time_error: i64,
    /// Ramp index; 0 when at rest.
    pub pulse_ix: usize,
    /// Highest ramp index of the current stroke.
    pub max_pulse_ix: usize,
    /// The interval commanded by the target speed last read, in nanoseconds.
    pub commanded: u64,
    /// Position at which the current stroke began.
    pub start_pos: i64,
    /// Sum of the intervals waited in the current stroke, in nanoseconds.
    pub slept: u128,
    /// The commanded speed has exceeded what the overhead permits.
    pub time_clip: bool,
}

impl View for Engine {
    type V = RampState;

    open spec fn view(&self) -> RampState {
        RampState {
            table: self.table@,
            pos: self.pos as int,
            dir: self.dir as int,
            time_error: self.time_error as int,
            pulse_ix: self.pulse_ix as int,
            max_pulse_ix: self.max_pulse_ix as int,
            commanded: self.commanded as int,
            start_pos: self.start_pos as int,
            slept: self.slept as int,
            time_clip: self.time_clip,
        }
    }
}

/// The interval in nanoseconds that a target speed commands.
pub fn commanded_for(target: i64) -> (interval: u64)
    ensures
        interval == commanded_interval(target as int),
{
    if target >= CREEP_SPEED {
        INTERVAL_SCALE / (target as u64)
    } else {
        INTERVAL_SCALE / (CREEP_SPEED as u64)
    }
}

/// Whether direction `d` may be taken from `pos`.
pub fn is_viable(ctrl: &Control, pos: i64, d: usize) -> (ok: bool)
    requires
        d < 2,
    ensures
        ok == viable(*ctrl, pos as int, d as int),
{
    let end: i128 = ctrl.end(d) as i128;
    let rem: i128 = if d == 1 {
        end - pos as i128
    } else {
        pos as i128 - end
    };
    ctrl.target_speed(d) >= MIN_SPEED && rem > MIN_DISTANCE as i128
}

impl Engine {
    /// The table is well formed, the ramp index lies under its ceiling, and
    /// no interval waited was longer than the sentinel.
    pub open spec fn wf(&self) -> bool {
        &&& self.table.wf()
        &&& self.dir < 2
        &&& self.pulse_ix <= self.max_pulse_ix < self.table@.len()
        &&& travelled(self@) >= 0
        &&& self.slept <= travelled(self@) * SLOWEST_PULSE
    }

    /// The position is not at the end of the machine word that the direction
    /// of travel leads to.
    pub open spec fn has_room_to_step(&self) -> bool {
        if self.dir == 1 {
            self.pos < i64::MAX
        } else {
            self.pos > i64::MIN
        }
    }

    /// A well-formed engine is on its ramp, so what holds of strokes in the
    /// model holds of the strokes it runs.
    pub proof fn lemma_on_ramp(&self)
        requires
            self.wf(),
        ensures
            on_ramp(self@),
    {
        lemma_table_is_ramp(self.table@, self.table.accel as int, self.table.first_step as int);
    }

    /// A stroke starts with room to brake: at ramp index 1, with more than
    /// `MIN_DISTANCE` steps to the end-stop of its direction.
    pub proof fn lemma_stroke_start(&self, ctrl: Control, dir: int)
        requires
            self.wf(),
            choose_direction(ctrl, self.pos as int, self.dir as int) == Some(dir),
            ceiling_index(self.table@, self.time_error as int) != 0,
        ensures
            on_ramp(stroke_start(self@, ctrl, dir)),
            stroke_start(self@, ctrl, dir).pulse_ix == 1,
            remaining(dir, ctrl.ends[dir] as int, stroke_start(self@, ctrl, dir).pos)
                > MIN_DISTANCE,
            ctrl.target_speeds[dir] >= MIN_SPEED,
    {
        self.lemma_on_ramp();
        lemma_first_below_found(
            self.table@,
            self.time_error as int,
            0,
            self.table@.len() - 1,
        );
    }

    /// A stroke that starts from rest toward an end-stop that stays where it
    /// is, under targets that stay above `MIN_SPEED` and with no stop
    /// requested, is over within twice its distance in pulses, plus one, and
    /// comes to rest at its end-stop or one step past it.
    pub proof fn lemma_stroke_reaches_end(&self, ctrl: Control, dir: int, inputs: Seq<Control>)
        requires
            self.wf(),
            choose_direction(ctrl, self.pos as int, self.dir as int) == Some(dir),
            ceiling_index(self.table@, self.time_error as int) != 0,
            end_fixed(inputs, dir, ctrl.ends[dir] as int),
            target_above_min(inputs, dir),
            stop_fixed(inputs, false),
            inputs.len() >= 1 + 2 * remaining(dir, ctrl.ends[dir] as int, self.pos as int),
        ensures
            ramp_run(stroke_start(self@, ctrl, dir), inputs).pulse_ix == 0,
            -1 <= remaining(
                dir,
                ctrl.ends[dir] as int,
                ramp_run(stroke_start(self@, ctrl, dir), inputs).pos,
            ) <= 0,
    {
        let start = stroke_start(self@, ctrl, dir);
        let end = ctrl.ends[dir] as int;
        self.lemma_stroke_start(ctrl, dir);
        lemma_stroke_terminates(start, inputs, end);
        lemma_no_under_travel(start, inputs, end);
    }

    /// A stroke that starts from rest and runs under a block that stays as
    /// it is never passes its end-stop, unless its distance is even and less
    /// than twice the ramp index at which it would cruise.
    pub proof fn lemma_stroke_stays_before_end(
        &self,
        ctrl: Control,
        dir: int,
        inputs: Seq<Control>,
    )
        requires
            self.wf(),
            choose_direction(ctrl, self.pos as int, self.dir as int) == Some(dir),
            ceiling_index(self.table@, self.time_error as int) != 0,
            end_fixed(inputs, dir, ctrl.ends[dir] as int),
            target_fixed(inputs, dir, ctrl.target_speeds[dir] as int),
            stop_fixed(inputs, ctrl.stop),
            !overshoots(
                self.table@,
                ceiling_index(self.table@, self.time_error as int),
                remaining(dir, ctrl.ends[dir] as int, self.pos as int),
                commanded_interval(ctrl.target_speeds[dir] as int),
                ctrl.stop,
            ),
        ensures
            remaining(
                dir,
                ctrl.ends[dir] as int,
                ramp_run(stroke_start(self@, ctrl, dir), inputs).pos,
            ) >= 0,
    {
        let start = stroke_start(self@, ctrl, dir);
        self.lemma_stroke_start(ctrl, dir);
        lemma_no_over_travel(
            start,
            inputs,
            ctrl.ends[dir] as int,
            ctrl.target_speeds[dir] as int,
            ctrl.stop,
        );
    }

    /// The time a stroke takes that starts from rest and runs under a block
    /// that stays as it is, with a target above `MIN_SPEED` that the ceiling
    /// of the ramp index does not clip: the intervals waited sum to the
    /// commanded interval for every pulse, and to no more on top of that than
    /// twice the time the uniform ramp takes to reach the cruise index, give
    /// or take two nanoseconds for each step of each ramp.
    pub proof fn lemma_stroke_takes(&self, ctrl: Control, dir: int, inputs: Seq<Control>)
        requires
            self.wf(),
            choose_direction(ctrl, self.pos as int, self.dir as int) == Some(dir),
            ceiling_index(self.table@, self.time_error as int) != 0,
            ctrl.target_speeds[dir] > MIN_SPEED,
            !ctrl.stop,
            end_fixed(inputs, dir, ctrl.ends[dir] as int),
            target_fixed(inputs, dir, ctrl.target_speeds[dir] as int),
            stop_fixed(inputs, false),
            self.table@[cruise_index(
                self.table@,
                ceiling_index(self.table@, self.time_error as int),
                commanded_interval(ctrl.target_speeds[dir] as int),
            )] <= commanded_interval(ctrl.target_speeds[dir] as int),
        ensures
            ({
                let rest = ramp_run(stroke_start(self@, ctrl, dir), inputs);
                let commanded = commanded_interval(ctrl.target_speeds[dir] as int);
                let pulses = remaining(dir, rest.pos, self.pos as int);
                let cruise = cruise_index(
                    self.table@,
                    ceiling_index(self.table@, self.time_error as int),
                    commanded,
                );
                &&& pulses >= 0
                &&& commanded * pulses <= rest.slept
                &&& rest.slept <= commanded * pulses + 2 * (ramp_time(
                    self.table.accel as int,
                    self.table.first_step + cruise - 1,
                ) + 2 * cruise)
            }),
    {
        let start = stroke_start(self@, ctrl, dir);
        let commanded = commanded_interval(ctrl.target_speeds[dir] as int);
        let cruise = cruise_index(self.table@, start.max_pulse_ix, commanded);
        self.lemma_stroke_start(ctrl, dir);
        lemma_first_below_found(self.table@, commanded + 1, 0, start.max_pulse_ix);
        lemma_commanded_interval(ctrl.target_speeds[dir] as int);
        lemma_stroke_time(start, inputs, ctrl.ends[dir] as int, ctrl.target_speeds[dir] as int);
        lemma_climb_cost(
            self.table@,
            self.table.accel as int,
            self.table.first_step as int,
            commanded,
            cruise,
        );
        lemma_ramp_time_monotone(
            self.table.accel as int,
            0,
            self.table.first_step as int - 1,
        );
    }

    /// An engine at rest at position 0, facing direction 0, for the
    /// acceleration of `ctrl`; fails where that is not positive.
    pub fn new(ctrl: &Control) -> (r: Result<Engine, EngineError>)
        ensures
            ctrl.accel <= 0 ==> r == Err::<Engine, EngineError>(EngineError::NonPositiveAccel),
            ctrl.accel > 0 ==> r is Ok && ({
                let e = r->Ok_0;
                &&& e.wf()
                &&& e.table.accel == ctrl.accel
                &&& e.pos == 0
                &&& e.dir == 0
                &&& e.time_error == INITIAL_TIME_ERROR
                &&& e.pulse_ix == 0
                &&& e.start_pos == 0
                &&& e.max_pulse_ix == 0
                &&& e.commanded == 0
                &&& e.slept == 0
                &&& !e.time_clip
            }),
    {
        match PulseTable::new(ctrl.accel) {
            Err(e) => Err(e),
            Ok(table) => Ok(
                Engine {
                    table,
                    pos: 0,
                    dir: 0,
                    time_error: INITIAL_TIME_ERROR,
                    pulse_ix: 0,
                    max_pulse_ix: 0,
                    commanded: 0,
                    start_pos: 0,
                    slept: 0,
                    time_clip: false,
                },
            ),
        }
    }

    /// Absolute position, in steps.
    pub fn pos(&self) -> (pos: i64)
        ensures
            pos == self.pos,
    {
        self.pos
    }

    /// Direction of travel.
    pub fn dir(&self) -> (dir: usize)
        ensures
            dir == self.dir,
    {
        self.dir
    }

    /// Whether the position has room for one more step in the direction of
    /// travel.
    pub fn can_step(&self) -> (ok: bool)
        ensures
            ok == self.has_room_to_step(),
    {
        if self.dir == 1 {
            self.pos < i64::MAX
        } else {
            self.pos > i64::MIN
        }
    }

    /// Whether a stroke is under way.
    pub fn is_ramping(&self) -> (ramping: bool)
        ensures
            ramping == (self.pulse_ix > 0),
    {
        self.pulse_ix > 0
    }

    /// The direction of the next stroke, if any is viable.
    pub fn select_direction(&self, ctrl: &Control) -> (dir: Option<usize>)
        requires
            self.dir < 2,
        ensures
            match choose_direction(*ctrl, self.pos as int, self.dir as int) {
                Some(d) => dir == Some(d as usize),
                None => dir is None,
            },
    {
        let other: usize = 1 - self.dir;
        if is_viable(ctrl, self.pos, self.dir) {
            Some(self.dir)
        } else if is_viable(ctrl, self.pos, other) {
            Some(other)
        } else {
            None
        }
    }

    /// Starts a stroke from rest. Returns the direction to arm, or `None`
    /// where no direction is viable and the caller should wait `POLL_SLEEP`;
    /// fails where a direction is viable but the overhead estimate leaves no
    /// ramp index above zero. The state changes only when a stroke starts.
    pub fn begin_stroke(&mut self, ctrl: &Control) -> (r: Result<Option<usize>, EngineError>)
        requires
            old(self).wf(),
            old(self).pulse_ix == 0,
        ensures
            final(self).wf(),
            final(self).table == old(self).table,
            match choose_direction(*ctrl, old(self).pos as int, old(self).dir as int) {
                None => r == Ok::<Option<usize>, EngineError>(None) && *final(self) == *old(self),
                Some(d) => if ceiling_index(old(self).table@, old(self).time_error as int) == 0 {
                    &&& r == Err::<Option<usize>, EngineError>(
                        EngineError::TimeErrorTooLarge {
                            time_error: old(self).time_error,
                            slowest: old(self).table@[0],
                        },
                    )
                    &&& *final(self) == *old(self)
                } else {
                    &&& r == Ok::<Option<usize>, EngineError>(Some(d as usize))
                    &&& final(self)@ == stroke_start(old(self)@, *ctrl, d)
                },
            },
    {
        match self.select_direction(ctrl) {
            None => Ok(None),
            Some(d) => {
                let max_ix: usize = self.table.max_pulse_ix(self.time_error);
                if max_ix == 0 {
                    return Err(
                        EngineError::TimeErrorTooLarge {
                            time_error: self.time_error,
                            slowest: self.table.interval(0),
                        },
                    );
                }
                self.dir = d;
                self.commanded = commanded_for(ctrl.target_speed(d));
                self.start_pos = self.pos;
                self.pulse_ix = 1;
                self.max_pulse_ix = max_ix;
                self.slept = 0;
                self.time_clip = false;
                Ok(Some(d))
            },
        }
    }

    /// How long to wait after the next pulse, in nanoseconds.
    pub fn pulse_len(&self) -> (len: u64)
        requires
            self.wf(),
            self.pulse_ix >= 1,
        ensures
            len == band_clamp(self.table@, self.pulse_ix as int, self.commanded as int),
            self.table@[self.pulse_ix as int] <= len <= SLOWEST_PULSE,
    {
        let slower: u64 = self.table.interval(self.pulse_ix - 1);
        let current: u64 = self.table.interval(self.pulse_ix);
        proof {
            self.table.lemma_sorted(0, self.pulse_ix - 1);
            self.table.lemma_sorted(self.pulse_ix - 1, self.pulse_ix as int);
        }
        let capped: u64 = if self.commanded <= slower {
            self.commanded
        } else {
            slower
        };
        if capped >= current {
            capped
        } else {
            current
        }
    }

    /// Accounts for one pulse and the wait after it: moves the position one
    /// step, reads the end-stop and the target of the direction of travel
    /// from `ctrl`, and steps the ramp index down, up, or not at all.
    pub fn step(&mut self, ctrl: &Control)
        requires
            old(self).wf(),
            old(self).pulse_ix >= 1,
            old(self).has_room_to_step(),
        ensures
            final(self).wf(),
            final(self).table == old(self).table,
            final(self)@ == ramp_step(old(self)@, *ctrl),
            old(self).pulse_ix - 1 <= final(self).pulse_ix <= old(self).pulse_ix + 1,
    {
        let len: u64 = self.pulse_len();
        assert(travelled(self@) * SLOWEST_PULSE <= 0x1_0000_0000_0000_0000 * SLOWEST_PULSE)
            by (nonlinear_arith)
            requires
                travelled(self@) <= 0x1_0000_0000_0000_0000,
        ;
        self.slept = self.slept + len as u128;
        if self.dir == 1 {
            self.pos = self.pos + 1;
        } else {
            self.pos = self.pos - 1;
        }
        let end: i128 = ctrl.end(self.dir) as i128;
        let commanded: u64 = commanded_for(ctrl.target_speed(self.dir));
        let rem: i128 = if self.dir == 1 {
            end - self.pos as i128
        } else {
            self.pos as i128 - end
        };
        let slower: u64 = self.table.interval(self.pulse_ix - 1);
        let current: u64 = self.table.interval(self.pulse_ix);
        self.commanded = commanded;
        if rem < self.pulse_ix as i128 || slower <= commanded || ctrl.stop() {
            self.pulse_ix = self.pulse_ix - 1;
        } else if current > commanded {
            if self.pulse_ix == self.max_pulse_ix {
                self.time_clip = true;
            } else {
                self.pulse_ix = self.pulse_ix + 1;
            }
        }
    }

    /// Closes a stroke that took `elapsed` nanoseconds of wall time: returns
    /// the notice of the position reached and updates the overhead estimate.
    pub fn end_stroke(&mut self, elapsed: u64) -> (msg: StatusMessage)
        requires
            old(self).wf(),
        ensures
            final(self).wf(),
            final(self).table == old(self).table,
            msg.0 == old(self).pos,
            final(self)@ == calibrated(old(self)@, elapsed as int),
    {
        let ticks: i128 = if self.dir == 1 {
            self.pos as i128 - self.start_pos as i128
        } else {
            self.start_pos as i128 - self.pos as i128
        };
        if ticks > CALIBRATION_STEPS as i128 {
            let unslept: i128 = elapsed as i128 - self.slept as i128;
            let per_step: i128 = div_floor(unslept, ticks);
            assert(-SLOWEST_PULSE <= (unslept as int) / (ticks as int) <= i64::MAX)
                by (nonlinear_arith)
                requires
                    ticks > 50,
                    -(ticks * SLOWEST_PULSE) <= unslept <= u64::MAX,
            ;
            self.time_error = per_step as i64;
        }
        StatusMessage(self.pos)
    }
}

} // verus!
