//! The mathematical model of a stroke: how the ramp index and the position
//! move with each pulse, and what follows for whole strokes.

use vstd::prelude::*;
use vstd::arithmetic::div_mod::{lemma_div_is_ordered, lemma_div_is_ordered_by_denominator};
use crate::device::Control;
use crate::pulse::{
    RAMP_SCALE, SLOWEST_PULSE, first_below, is_table_for, lemma_first_below_found,
    lemma_table_rate_change,
};

verus! {

/// A direction is taken only toward an end-stop more than this many steps away.
pub const MIN_DISTANCE: i64 = 2;

/// Lowest target speed at which the motor is driven: one step per second.
pub const MIN_SPEED: i64 = 1_000;

/// Targets below a tenth of `MIN_SPEED` command the interval of that tenth.
pub const CREEP_SPEED: i64 = 100;

/// The interval in nanoseconds of a speed in thousandths of a step per second
/// is `INTERVAL_SCALE` divided by the speed.
pub const INTERVAL_SCALE: u64 = 1_000_000_000_000;

/// The state of the engine as numbers.
pub struct RampState {
    /// The pulse table.
    pub table: Seq<u64>,
    /// Absolute position, in steps.
    pub pos: int,
    /// Direction of travel: 0 toward the lower end-stop, 1 toward the upper.
    pub dir: int,
    /// Estimated overhead per pulse, in nanoseconds.
    pub time_error: int,
    /// Ramp index; 0 when at rest.
    pub pulse_ix: int,
    /// Highest ramp index of the current stroke.
    pub max_pulse_ix: int,
    /// The interval commanded by the target speed last read.
    pub commanded: int,
    /// Position at which the current stroke began.
    pub start_pos: int,
    /// Sum of the intervals waited in the current stroke.
    pub slept: int,
    /// The commanded speed has exceeded what the overhead permits.
    pub time_clip: bool,
}

/// The sign of a direction: -1 for 0, +1 for 1.
pub open spec fn dir_mul(dir: int) -> int {
    2 * dir - 1
}

/// Steps left from `pos` to `end`, counted along direction `dir`; negative
/// once `pos` has passed `end`.
pub open spec fn remaining(dir: int, end: int, pos: int) -> int {
    if dir == 1 {
        end - pos
    } else {
        pos - end
    }
}

/// The interval in nanoseconds that a target speed commands.
pub open spec fn commanded_interval(target: int) -> int {
    if target >= CREEP_SPEED {
        (INTERVAL_SCALE as int) / target
    } else {
        (INTERVAL_SCALE as int) / (CREEP_SPEED as int)
    }
}

/// Direction `d` may be taken from `pos`: its target is at least `MIN_SPEED`
/// and its end-stop is more than `MIN_DISTANCE` steps ahead.
pub open spec fn viable(ctrl: Control, pos: int, d: int) -> bool {
    ctrl.target_speeds[d] >= MIN_SPEED && remaining(d, ctrl.ends[d] as int, pos) > MIN_DISTANCE
}

/// The direction of the next stroke: the current one if viable, else the
/// other if viable, else none.
pub open spec fn choose_direction(ctrl: Control, pos: int, dir: int) -> Option<int> {
    if viable(ctrl, pos, dir) {
        Some(dir)
    } else if viable(ctrl, pos, 1 - dir) {
        Some(1 - dir)
    } else {
        None
    }
}

/// The interval actually waited at ramp index `ix`: the commanded one, held
/// between the table's interval at `ix` and the next slower one.
pub open spec fn band_clamp(table: Seq<u64>, ix: int, commanded: int) -> int {
    let capped = if commanded <= table[ix - 1] {
        commanded
    } else {
        table[ix - 1] as int
    };
    if capped >= table[ix] {
        capped
    } else {
        table[ix] as int
    }
}

/// The ramp must step down: the end-stop is nearer than the braking distance,
/// or the commanded interval is no shorter than the next slower one of the
/// table, or shutdown is requested.
pub open spec fn brakes(table: Seq<u64>, ix: int, rem: int, commanded: int, stop: bool) -> bool {
    rem < ix || table[ix - 1] <= commanded || stop
}

/// The ramp index after a pulse at index `ix`, with `rem` steps then left.
pub open spec fn next_index(
    table: Seq<u64>,
    ix: int,
    max_ix: int,
    rem: int,
    commanded: int,
    stop: bool,
) -> int {
    if brakes(table, ix, rem, commanded, stop) {
        ix - 1
    } else if table[ix] > commanded && ix < max_ix {
        ix + 1
    } else {
        ix
    }
}

/// The commanded speed asks for more than the ceiling of the stroke allows.
pub open spec fn clips(
    table: Seq<u64>,
    ix: int,
    max_ix: int,
    rem: int,
    commanded: int,
    stop: bool,
) -> bool {
    !brakes(table, ix, rem, commanded, stop) && table[ix] > commanded && ix == max_ix
}

/// The state after one pulse, with the control block as read after the pulse.
pub open spec fn ramp_step(s: RampState, ctrl: Control) -> RampState {
    let pos = s.pos + dir_mul(s.dir);
    let commanded = commanded_interval(ctrl.target_speeds[s.dir] as int);
    let rem = remaining(s.dir, ctrl.ends[s.dir] as int, pos);
    RampState {
        pos,
        commanded,
        slept: s.slept + band_clamp(s.table, s.pulse_ix, s.commanded),
        pulse_ix: next_index(s.table, s.pulse_ix, s.max_pulse_ix, rem, commanded, ctrl.stop),
        time_clip: s.time_clip || clips(
            s.table,
            s.pulse_ix,
            s.max_pulse_ix,
            rem,
            commanded,
            ctrl.stop,
        ),
        ..s
    }
}

/// The state after pulsing through `inputs`, one control block per pulse,
/// until the ramp index reaches zero or the inputs run out.
pub open spec fn ramp_run(s: RampState, inputs: Seq<Control>) -> RampState
    decreases inputs.len(),
{
    if inputs.len() == 0 || s.pulse_ix <= 0 {
        s
    } else {
        ramp_run(ramp_step(s, inputs[0]), inputs.drop_first())
    }
}

/// The table starts at the sentinel and never grows.
pub open spec fn ramp_table(table: Seq<u64>) -> bool {
    &&& table.len() >= 1
    &&& table[0] == SLOWEST_PULSE
    &&& forall|i: int, j: int| 0 <= i <= j < table.len() ==> table[i] >= table[j]
}

/// A state on its ramp: the direction is one of the two, and the ramp index
/// lies at or below a ceiling within the table.
pub open spec fn on_ramp(s: RampState) -> bool {
    &&& ramp_table(s.table)
    &&& 0 <= s.dir <= 1
    &&& 0 <= s.pulse_ix <= s.max_pulse_ix < s.table.len()
}

/// Steps left to `end` beyond the braking distance of the state.
pub open spec fn slack(s: RampState, end: int) -> int {
    remaining(s.dir, end, s.pos) - s.pulse_ix
}

/// Every block of `inputs` has `end` as the end-stop of direction `dir`.
pub open spec fn end_fixed(inputs: Seq<Control>, dir: int, end: int) -> bool {
    forall|i: int| 0 <= i < inputs.len() ==> (#[trigger] inputs[i]).ends[dir] == end
}

/// Every block of `inputs` has `target` as the target speed of direction `dir`.
pub open spec fn target_fixed(inputs: Seq<Control>, dir: int, target: int) -> bool {
    forall|i: int| 0 <= i < inputs.len() ==> (#[trigger] inputs[i]).target_speeds[dir] == target
}

/// Every block of `inputs` has the target speed of direction `dir` above
/// `MIN_SPEED`.
pub open spec fn target_above_min(inputs: Seq<Control>, dir: int) -> bool {
    forall|i: int| 0 <= i < inputs.len() ==> (#[trigger] inputs[i]).target_speeds[dir] > MIN_SPEED
}

/// Every block of `inputs` has its stop flag equal to `stop`.
pub open spec fn stop_fixed(inputs: Seq<Control>, stop: bool) -> bool {
    forall|i: int| 0 <= i < inputs.len() ==> (#[trigger] inputs[i]).stop == stop
}

/// The ramp index moves by at most one per pulse, stays within the ceiling,
/// and the position moves by exactly one step along the direction.
pub proof fn lemma_step_by_one(s: RampState, ctrl: Control)
    requires
        on_ramp(s),
        s.pulse_ix >= 1,
    ensures
        on_ramp(ramp_step(s, ctrl)),
        s.pulse_ix - 1 <= ramp_step(s, ctrl).pulse_ix <= s.pulse_ix + 1,
        ramp_step(s, ctrl).pos == s.pos + dir_mul(s.dir),
        ramp_step(s, ctrl).table == s.table,
        ramp_step(s, ctrl).dir == s.dir,
        ramp_step(s, ctrl).max_pulse_ix == s.max_pulse_ix,
        ramp_step(s, ctrl).start_pos == s.start_pos,
        ramp_step(s, ctrl).time_error == s.time_error,
{
}

/// A change of the control block takes effect with the first pulse that
/// sees it: the ramp steps down at once when the end-stop has come within
/// the braking distance, when the target has fallen to the speed of the next
/// slower interval or below, and when a stop is requested; and the interval
/// waited never leaves the band of the ramp index.
pub proof fn lemma_responds_within_one_pulse(s: RampState, ctrl: Control)
    requires
        on_ramp(s),
        s.pulse_ix >= 1,
    ensures
        remaining(s.dir, ctrl.ends[s.dir] as int, s.pos + dir_mul(s.dir)) < s.pulse_ix
            ==> ramp_step(s, ctrl).pulse_ix == s.pulse_ix - 1,
        commanded_interval(ctrl.target_speeds[s.dir] as int) >= s.table[s.pulse_ix - 1]
            ==> ramp_step(s, ctrl).pulse_ix == s.pulse_ix - 1,
        ctrl.stop ==> ramp_step(s, ctrl).pulse_ix == s.pulse_ix - 1,
        s.table[s.pulse_ix] <= band_clamp(s.table, s.pulse_ix, s.commanded) <= s.table[s.pulse_ix
            - 1],
{
}

/// The interval commanded by a target lies between zero and that of
/// `CREEP_SPEED`, and a target above `MIN_SPEED` commands less than the
/// sentinel.
pub proof fn lemma_commanded_interval(target: int)
    ensures
        0 <= commanded_interval(target) <= 10_000_000_000,
        target >= MIN_SPEED ==> commanded_interval(target) <= SLOWEST_PULSE,
        target > MIN_SPEED ==> commanded_interval(target) < SLOWEST_PULSE,
        target <= MIN_SPEED ==> commanded_interval(target) >= SLOWEST_PULSE,
{
    let scale = INTERVAL_SCALE as int;
    if target >= CREEP_SPEED {
        lemma_div_is_ordered_by_denominator(scale, CREEP_SPEED as int, target);
        lemma_div_is_ordered(0, scale, target);
        if target >= MIN_SPEED {
            lemma_div_is_ordered_by_denominator(scale, 1000, target);
            assert(scale / 1000 == SLOWEST_PULSE);
        }
        if target > MIN_SPEED {
            lemma_div_is_ordered_by_denominator(scale, 1001, target);
        } else {
            lemma_div_is_ordered_by_denominator(scale, target, MIN_SPEED as int);
        }
    }
}

/// The ramp index at which a stroke cruises under a constant command: the
/// first index whose interval is no longer than the commanded one, or the
/// ceiling where that comes first.
pub open spec fn cruise_index(table: Seq<u64>, max_ix: int, commanded: int) -> int {
    first_below(table, commanded + 1, 0, max_ix)
}

/// A stroke over `distance` steps under a constant command passes its
/// end-stop: the distance is even and too short for the ramp to reach its
/// cruise index, so the last step up leaves one step too few to brake in.
pub open spec fn overshoots(
    table: Seq<u64>,
    max_ix: int,
    distance: int,
    commanded: int,
    stop: bool,
) -> bool {
    !stop && distance % 2 == 0 && distance / 2 < cruise_index(table, max_ix, commanded)
}

/// A number of pulses within which a stroke toward a fixed end-stop is over.
pub open spec fn stroke_bound(s: RampState, end: int) -> int {
    let rem = remaining(s.dir, end, s.pos);
    s.pulse_ix + 2 * (if rem > 0 {
        rem
    } else {
        0
    })
}

/// What is fixed over `inputs` is fixed over all but its first block.
proof fn lemma_fixed_tail(inputs: Seq<Control>, dir: int, end: int, target: int, stop: bool)
    requires
        inputs.len() > 0,
    ensures
        end_fixed(inputs, dir, end) ==> end_fixed(inputs.drop_first(), dir, end),
        target_fixed(inputs, dir, target) ==> target_fixed(inputs.drop_first(), dir, target),
        target_above_min(inputs, dir) ==> target_above_min(inputs.drop_first(), dir),
        stop_fixed(inputs, stop) ==> stop_fixed(inputs.drop_first(), stop),
{
    let tail = inputs.drop_first();
    assert forall|i: int| 0 <= i < tail.len() implies #[trigger] tail[i] == inputs[i + 1] by {}
}

/// A run leaves the table, the direction, the ceiling, the start of the
/// stroke and the overhead estimate as they were, and the state on its ramp.
pub proof fn lemma_run_keeps(s: RampState, inputs: Seq<Control>)
    requires
        on_ramp(s),
    ensures
        on_ramp(ramp_run(s, inputs)),
        ramp_run(s, inputs).table == s.table,
        ramp_run(s, inputs).dir == s.dir,
        ramp_run(s, inputs).max_pulse_ix == s.max_pulse_ix,
        ramp_run(s, inputs).start_pos == s.start_pos,
        ramp_run(s, inputs).time_error == s.time_error,
    decreases inputs.len(),
{
    if inputs.len() > 0 && s.pulse_ix > 0 {
        lemma_step_by_one(s, inputs[0]);
        lemma_run_keeps(ramp_step(s, inputs[0]), inputs.drop_first());
    }
}

/// While the end-stop stays where it is, the braking distance never exceeds
/// the steps left by more than one: a stroke that began with room to brake
/// passes its end-stop by one step at most.
pub proof fn lemma_overshoot_at_most_one(s: RampState, inputs: Seq<Control>, end: int)
    requires
        on_ramp(s),
        end_fixed(inputs, s.dir, end),
        slack(s, end) >= -1,
    ensures
        slack(ramp_run(s, inputs), end) >= -1,
        remaining(s.dir, end, ramp_run(s, inputs).pos) >= -1,
    decreases inputs.len(),
{
    if inputs.len() > 0 && s.pulse_ix > 0 {
        lemma_step_by_one(s, inputs[0]);
        lemma_fixed_tail(inputs, s.dir, end, 0, false);
        lemma_overshoot_at_most_one(ramp_step(s, inputs[0]), inputs.drop_first(), end);
    }
    lemma_run_keeps(s, inputs);
}

/// A stroke under a constant command passes its end-stop from a state at
/// ramp index `ix` with `room` steps left beyond the braking distance: the
/// room is odd and runs out while the ramp is still climbing, so the last
/// step up leaves one step too few to brake in.
pub open spec fn overshoots_from(
    table: Seq<u64>,
    max_ix: int,
    ix: int,
    room: int,
    commanded: int,
    stop: bool,
) -> bool {
    !stop && room % 2 == 1 && ix + (room - 1) / 2 < cruise_index(table, max_ix, commanded)
}

/// Running through `before` and then through `after` is running through
/// both in a row.
pub proof fn lemma_run_concat(s: RampState, before: Seq<Control>, after: Seq<Control>)
    ensures
        ramp_run(s, before + after) == ramp_run(ramp_run(s, before), after),
    decreases before.len(),
{
    if before.len() == 0 {
        assert(before + after =~= after);
    } else if s.pulse_ix > 0 {
        assert((before + after)[0] == before[0]);
        assert((before + after).drop_first() =~= before.drop_first() + after);
        lemma_run_concat(ramp_step(s, before[0]), before.drop_first(), after);
    } else {
        // At rest nothing runs, whatever the inputs.
        assert(ramp_run(s, before) == s);
        assert(ramp_run(s, after) == s);
    }
}

/// While a stop is requested, or the target is at `MIN_SPEED` or below, and
/// the end-stop stays where it is, the ramp brakes with every pulse and the
/// room beyond the braking distance stays what it is.
pub proof fn lemma_braking_keeps_slack(s: RampState, inputs: Seq<Control>, end: int)
    requires
        on_ramp(s),
        end_fixed(inputs, s.dir, end),
        winding_down(inputs, s.dir),
    ensures
        slack(ramp_run(s, inputs), end) == slack(s, end),
    decreases inputs.len(),
{
    if inputs.len() > 0 && s.pulse_ix > 0 {
        let next = ramp_step(s, inputs[0]);
        lemma_step_by_one(s, inputs[0]);
        lemma_commanded_interval(inputs[0].target_speeds[s.dir] as int);
        lemma_fixed_tail(inputs, s.dir, end, 0, false);
        let tail = inputs.drop_first();
        assert forall|i: int| 0 <= i < tail.len() implies (#[trigger] tail[i]).stop
            || tail[i].target_speeds[s.dir] <= MIN_SPEED by {
            assert(tail[i] == inputs[i + 1]);
        }
        lemma_braking_keeps_slack(next, tail, end);
    }
}

/// The invariant of a stroke under a constant command that does not
/// overshoot: room to brake is never lost, and while the ramp is still
/// climbing the room is what the climb has left of `base`, the room plus
/// twice the ramp index at the start.
spec fn holding(s: RampState, end: int, base: int, cruise: int) -> bool {
    &&& 0 <= s.pulse_ix
    &&& slack(s, end) >= 0
    &&& (s.pulse_ix >= cruise || slack(s, end) == 0 || slack(s, end) == base - 2 * s.pulse_ix)
}

proof fn lemma_holding_run(s: RampState, inputs: Seq<Control>, end: int, target: int, base: int)
    requires
        on_ramp(s),
        end_fixed(inputs, s.dir, end),
        target_fixed(inputs, s.dir, target),
        stop_fixed(inputs, false),
        holding(
            s,
            end,
            base,
            cruise_index(s.table, s.max_pulse_ix, commanded_interval(target)),
        ),
        !(base % 2 == 1 && (base - 1) / 2 < cruise_index(
            s.table,
            s.max_pulse_ix,
            commanded_interval(target),
        )),
    ensures
        slack(ramp_run(s, inputs), end) >= 0,
    decreases inputs.len(),
{
    if inputs.len() > 0 && s.pulse_ix > 0 {
        let next = ramp_step(s, inputs[0]);
        let commanded = commanded_interval(target);
        let cruise = cruise_index(s.table, s.max_pulse_ix, commanded);
        lemma_step_by_one(s, inputs[0]);
        lemma_fixed_tail(inputs, s.dir, end, target, false);
        lemma_first_below_found(s.table, commanded + 1, 0, s.max_pulse_ix);
        if s.pulse_ix > cruise {
            // Above the cruise index the next slower interval is already no
            // longer than the commanded one: the ramp steps down.
            assert(s.table[cruise] >= s.table[s.pulse_ix - 1]);
        }
        lemma_holding_run(next, inputs.drop_first(), end, target, base);
    }
}

/// From any state with room to brake, a stroke whose end-stop, target speed
/// and stop flag stay constant never passes its end-stop, unless it is one
/// of those that `overshoots_from` singles out: at every pulse the steps
/// left cover the braking distance. This holds of the rest of a stroke
/// after its target or its end-stop has changed.
pub proof fn lemma_keeps_room(
    s: RampState,
    inputs: Seq<Control>,
    end: int,
    target: int,
    stop: bool,
)
    requires
        on_ramp(s),
        slack(s, end) >= 0,
        end_fixed(inputs, s.dir, end),
        target_fixed(inputs, s.dir, target),
        stop_fixed(inputs, stop),
        !overshoots_from(
            s.table,
            s.max_pulse_ix,
            s.pulse_ix,
            slack(s, end),
            commanded_interval(target),
            stop,
        ),
    ensures
        remaining(s.dir, end, ramp_run(s, inputs).pos) >= ramp_run(s, inputs).pulse_ix >= 0,
{
    lemma_run_keeps(s, inputs);
    if stop {
        assert forall|i: int| 0 <= i < inputs.len() implies (#[trigger] inputs[i]).stop
            || inputs[i].target_speeds[s.dir] <= MIN_SPEED by {}
        lemma_braking_keeps_slack(s, inputs, end);
    } else {
        lemma_holding_run(s, inputs, end, target, slack(s, end) + 2 * s.pulse_ix);
    }
}

/// A stroke whose end-stop, target speed and stop flag stay constant never
/// passes its end-stop, unless it is one of those that `overshoots` singles
/// out: at every pulse the steps left cover the braking distance, so the
/// stroke comes to rest at or before the end-stop.
pub proof fn lemma_no_over_travel(
    s: RampState,
    inputs: Seq<Control>,
    end: int,
    target: int,
    stop: bool,
)
    requires
        on_ramp(s),
        s.pulse_ix == 1,
        remaining(s.dir, end, s.pos) >= 1,
        end_fixed(inputs, s.dir, end),
        target_fixed(inputs, s.dir, target),
        stop_fixed(inputs, stop),
        !overshoots(
            s.table,
            s.max_pulse_ix,
            remaining(s.dir, end, s.pos),
            commanded_interval(target),
            stop,
        ),
    ensures
        remaining(s.dir, end, ramp_run(s, inputs).pos) >= ramp_run(s, inputs).pulse_ix >= 0,
{
    lemma_keeps_room(s, inputs, end, target, stop);
}

/// A stroke during which a stop is requested, or the target falls to
/// `MIN_SPEED` or below, and stays so, never passes its end-stop either:
/// up to then it keeps room to brake as `lemma_no_over_travel` says, and
/// from then on it brakes with every pulse.
pub proof fn lemma_no_over_travel_with_stop(
    s: RampState,
    before: Seq<Control>,
    after: Seq<Control>,
    end: int,
    target: int,
)
    requires
        on_ramp(s),
        s.pulse_ix == 1,
        remaining(s.dir, end, s.pos) >= 1,
        end_fixed(before, s.dir, end),
        target_fixed(before, s.dir, target),
        stop_fixed(before, false),
        end_fixed(after, s.dir, end),
        winding_down(after, s.dir),
        !overshoots(
            s.table,
            s.max_pulse_ix,
            remaining(s.dir, end, s.pos),
            commanded_interval(target),
            false,
        ),
    ensures
        remaining(s.dir, end, ramp_run(s, before + after).pos) >= ramp_run(
            s,
            before + after,
        ).pulse_ix >= 0,
{
    let mid = ramp_run(s, before);
    lemma_no_over_travel(s, before, end, target, false);
    lemma_run_keeps(s, before);
    lemma_run_concat(s, before, after);
    lemma_braking_keeps_slack(mid, after, end);
    lemma_run_keeps(mid, after);
}

/// The rest of a stroke after a change of its target or its end-stop: from
/// a state with room to brake, under an end-stop that stays where it now
/// is, a target that stays above `MIN_SPEED` and no stop, the stroke comes
/// to rest exactly at its end-stop, unless it is one of those that
/// `overshoots_from` singles out.
pub proof fn lemma_rests_at_end(s: RampState, inputs: Seq<Control>, end: int, target: int)
    requires
        on_ramp(s),
        s.pulse_ix >= 1,
        slack(s, end) >= 0,
        target > MIN_SPEED,
        end_fixed(inputs, s.dir, end),
        target_fixed(inputs, s.dir, target),
        stop_fixed(inputs, false),
        !overshoots_from(
            s.table,
            s.max_pulse_ix,
            s.pulse_ix,
            slack(s, end),
            commanded_interval(target),
            false,
        ),
        ramp_run(s, inputs).pulse_ix == 0,
    ensures
        ramp_run(s, inputs).pos == end,
{
    lemma_keeps_room(s, inputs, end, target, false);
    assert forall|i: int| 0 <= i < inputs.len() implies (#[trigger] inputs[i]).target_speeds[s.dir]
        > MIN_SPEED by {}
    lemma_no_under_travel(s, inputs, end);
}

/// A stroke whose target or end-stop changes once on the way: where the
/// state at the change has room to brake before the end-stop as it then
/// stands, and is none of those that `overshoots_from` singles out for the
/// target as it then stands, the stroke comes to rest exactly at that
/// end-stop.
pub proof fn lemma_change_mid_stroke(
    s: RampState,
    before: Seq<Control>,
    after: Seq<Control>,
    end: int,
    target: int,
)
    requires
        on_ramp(s),
        ramp_run(s, before).pulse_ix >= 1,
        slack(ramp_run(s, before), end) >= 0,
        target > MIN_SPEED,
        end_fixed(after, s.dir, end),
        target_fixed(after, s.dir, target),
        stop_fixed(after, false),
        !overshoots_from(
            s.table,
            s.max_pulse_ix,
            ramp_run(s, before).pulse_ix,
            slack(ramp_run(s, before), end),
            commanded_interval(target),
            false,
        ),
        ramp_run(s, before + after).pulse_ix == 0,
    ensures
        ramp_run(s, before + after).pos == end,
{
    lemma_run_keeps(s, before);
    lemma_run_concat(s, before, after);
    lemma_rests_at_end(ramp_run(s, before), after, end, target);
}

/// From one pulse to the next the interval waited moves by one band of the
/// table at most: it lies between the interval one index above the band it
/// was in and the interval two indices below.
pub proof fn lemma_rate_moves_one_band(s: RampState, ctrl: Control)
    requires
        on_ramp(s),
        s.pulse_ix >= 1,
        ramp_step(s, ctrl).pulse_ix >= 1,
    ensures
        s.pulse_ix < s.max_pulse_ix ==> s.table[s.pulse_ix + 1] <= band_clamp(
            s.table,
            ramp_step(s, ctrl).pulse_ix,
            ramp_step(s, ctrl).commanded,
        ),
        s.pulse_ix == s.max_pulse_ix ==> s.table[s.pulse_ix] <= band_clamp(
            s.table,
            ramp_step(s, ctrl).pulse_ix,
            ramp_step(s, ctrl).commanded,
        ),
        s.pulse_ix >= 2 ==> band_clamp(
            s.table,
            ramp_step(s, ctrl).pulse_ix,
            ramp_step(s, ctrl).commanded,
        ) <= s.table[s.pulse_ix - 2],
        band_clamp(s.table, ramp_step(s, ctrl).pulse_ix, ramp_step(s, ctrl).commanded)
            <= s.table[0],
{
    lemma_step_by_one(s, ctrl);
    lemma_responds_within_one_pulse(ramp_step(s, ctrl), ctrl);
}

/// The invariant of a stroke that overshoots: the ramp climbs on an odd
/// slack until the slack is -1, and brakes from there on.
spec fn overrunning(s: RampState, end: int, distance: int) -> bool {
    ||| slack(s, end) == -1
    ||| (s.pulse_ix >= 1 && slack(s, end) == distance + 1 - 2 * s.pulse_ix && slack(s, end) >= 1
        && 2 * s.pulse_ix <= distance)
}

proof fn lemma_overrunning_run(
    s: RampState,
    inputs: Seq<Control>,
    end: int,
    target: int,
    distance: int,
)
    requires
        on_ramp(s),
        end_fixed(inputs, s.dir, end),
        target_fixed(inputs, s.dir, target),
        stop_fixed(inputs, false),
        overrunning(s, end, distance),
        overshoots(s.table, s.max_pulse_ix, distance, commanded_interval(target), false),
    ensures
        overrunning(ramp_run(s, inputs), end, distance),
    decreases inputs.len(),
{
    if inputs.len() > 0 && s.pulse_ix > 0 {
        let next = ramp_step(s, inputs[0]);
        lemma_step_by_one(s, inputs[0]);
        lemma_fixed_tail(inputs, s.dir, end, target, false);
        lemma_first_below_found(s.table, commanded_interval(target) + 1, 0, s.max_pulse_ix);
        lemma_overrunning_run(next, inputs.drop_first(), end, target, distance);
    }
}

/// A stroke under a constant command that `overshoots` singles out comes to
/// rest exactly one step past its end-stop.
pub proof fn lemma_over_travel_by_one(
    s: RampState,
    inputs: Seq<Control>,
    end: int,
    target: int,
)
    requires
        on_ramp(s),
        s.pulse_ix == 1,
        remaining(s.dir, end, s.pos) >= 1,
        end_fixed(inputs, s.dir, end),
        target_fixed(inputs, s.dir, target),
        stop_fixed(inputs, false),
        overshoots(
            s.table,
            s.max_pulse_ix,
            remaining(s.dir, end, s.pos),
            commanded_interval(target),
            false,
        ),
        ramp_run(s, inputs).pulse_ix == 0,
    ensures
        remaining(s.dir, end, ramp_run(s, inputs).pos) == -1,
{
    lemma_overrunning_run(s, inputs, end, target, remaining(s.dir, end, s.pos));
    lemma_run_keeps(s, inputs);
}

/// A stroke whose end-stop stays where it is, whose target stays above
/// `MIN_SPEED` and during which no stop is requested comes to rest only at
/// its end-stop or one step past it, which is within the ceiling of the
/// ramp index.
pub proof fn lemma_no_under_travel(s: RampState, inputs: Seq<Control>, end: int)
    requires
        on_ramp(s),
        s.pulse_ix >= 1,
        slack(s, end) >= -1,
        end_fixed(inputs, s.dir, end),
        target_above_min(inputs, s.dir),
        stop_fixed(inputs, false),
        ramp_run(s, inputs).pulse_ix == 0,
    ensures
        -1 <= remaining(s.dir, end, ramp_run(s, inputs).pos) <= 0,
        -s.max_pulse_ix <= end - ramp_run(s, inputs).pos <= s.max_pulse_ix,
    decreases inputs.len(),
{
    let next = ramp_step(s, inputs[0]);
    lemma_step_by_one(s, inputs[0]);
    lemma_fixed_tail(inputs, s.dir, end, 0, false);
    lemma_commanded_interval(inputs[0].target_speeds[s.dir] as int);
    if next.pulse_ix >= 1 {
        lemma_no_under_travel(next, inputs.drop_first(), end);
    } else {
        assert(ramp_run(next, inputs.drop_first()) == next);
    }
}

/// A stroke toward an end-stop that stays where it is comes to rest within
/// `stroke_bound` pulses.
pub proof fn lemma_stroke_terminates(s: RampState, inputs: Seq<Control>, end: int)
    requires
        on_ramp(s),
        end_fixed(inputs, s.dir, end),
        inputs.len() >= stroke_bound(s, end),
    ensures
        ramp_run(s, inputs).pulse_ix == 0,
    decreases inputs.len(),
{
    if s.pulse_ix > 0 {
        lemma_step_by_one(s, inputs[0]);
        lemma_fixed_tail(inputs, s.dir, end, 0, false);
        lemma_stroke_terminates(ramp_step(s, inputs[0]), inputs.drop_first(), end);
    }
}

/// Every block of `inputs` requests a stop or has the target speed of
/// direction `dir` at or below `MIN_SPEED`.
pub open spec fn winding_down(inputs: Seq<Control>, dir: int) -> bool {
    forall|i: int|
        0 <= i < inputs.len() ==> (#[trigger] inputs[i]).stop || inputs[i].target_speeds[dir]
            <= MIN_SPEED
}

/// Once a stop is requested, or the target has fallen to `MIN_SPEED` or
/// below, the ramp steps down with every pulse: the motor comes to rest
/// after exactly as many further steps as the ramp index counts.
pub proof fn lemma_winds_down(s: RampState, inputs: Seq<Control>)
    requires
        on_ramp(s),
        winding_down(inputs, s.dir),
        inputs.len() >= s.pulse_ix,
    ensures
        ramp_run(s, inputs).pulse_ix == 0,
        ramp_run(s, inputs).pos == s.pos + dir_mul(s.dir) * s.pulse_ix,
    decreases inputs.len(),
{
    if s.pulse_ix > 0 {
        let next = ramp_step(s, inputs[0]);
        lemma_step_by_one(s, inputs[0]);
        lemma_commanded_interval(inputs[0].target_speeds[s.dir] as int);
        assert(next.pulse_ix == s.pulse_ix - 1);
        let tail = inputs.drop_first();
        assert forall|i: int| 0 <= i < tail.len() implies (#[trigger] tail[i]).stop
            || tail[i].target_speeds[s.dir] <= MIN_SPEED by {
            assert(tail[i] == inputs[i + 1]);
        }
        lemma_winds_down(next, tail);
        assert(dir_mul(s.dir) * s.pulse_ix == dir_mul(s.dir) + dir_mul(s.dir) * (s.pulse_ix - 1))
            by (nonlinear_arith);
    } else {
        assert(dir_mul(s.dir) * s.pulse_ix == 0) by (nonlinear_arith)
            requires
                s.pulse_ix == 0,
        ;
    }
}

/// The time by which the intervals of the ramp up to index `k` exceed the
/// commanded interval, summed: what climbing to `k` costs beyond moving at
/// the commanded speed.
pub open spec fn excess_sum(table: Seq<u64>, commanded: int, k: int) -> int
    decreases k,
{
    if k <= 0 {
        0
    } else {
        excess_sum(table, commanded, k - 1) + (if table[k] > commanded {
            table[k] - commanded
        } else {
            0
        })
    }
}

/// The sum of excesses is never negative and grows with the index.
pub proof fn lemma_excess_sum_monotone(table: Seq<u64>, commanded: int, i: int, j: int)
    requires
        i <= j,
    ensures
        0 <= excess_sum(table, commanded, i) <= excess_sum(table, commanded, j),
    decreases j,
{
    if j > 0 {
        if i < j {
            lemma_excess_sum_monotone(table, commanded, i, j - 1);
        } else {
            lemma_excess_sum_monotone(table, commanded, i - 1, j - 1);
        }
    }
}

/// The invariant of a stroke under a constant command, for the time it
/// takes: `paid` is the commanded interval times the pulses so far; the
/// time slept is at least that, and exceeds it by no more than the ramp
/// climbed so far while there is room, or by twice the whole ramp less what
/// is still to be braked through once the room has run out.
spec fn pacing(
    s: RampState,
    end: int,
    commanded: int,
    cruise: int,
    slept_before: int,
    paid: int,
) -> bool {
    let over = s.slept - slept_before - paid;
    &&& 0 <= s.pulse_ix <= cruise
    &&& s.commanded == commanded
    &&& 0 <= over
    &&& if slack(s, end) >= 1 {
        over <= excess_sum(s.table, commanded, s.pulse_ix - 1)
    } else {
        over <= 2 * excess_sum(s.table, commanded, cruise) - excess_sum(
            s.table,
            commanded,
            s.pulse_ix,
        )
    }
}

proof fn lemma_pacing_run(
    s: RampState,
    inputs: Seq<Control>,
    end: int,
    target: int,
    slept_before: int,
    pos_before: int,
)
    requires
        on_ramp(s),
        target > MIN_SPEED,
        end_fixed(inputs, s.dir, end),
        target_fixed(inputs, s.dir, target),
        stop_fixed(inputs, false),
        remaining(s.dir, s.pos, pos_before) >= 0,
        s.table[cruise_index(s.table, s.max_pulse_ix, commanded_interval(target))]
            <= commanded_interval(target),
        pacing(
            s,
            end,
            commanded_interval(target),
            cruise_index(s.table, s.max_pulse_ix, commanded_interval(target)),
            slept_before,
            commanded_interval(target) * remaining(s.dir, s.pos, pos_before),
        ),
    ensures
        remaining(s.dir, ramp_run(s, inputs).pos, pos_before) >= 0,
        pacing(
            ramp_run(s, inputs),
            end,
            commanded_interval(target),
            cruise_index(s.table, s.max_pulse_ix, commanded_interval(target)),
            slept_before,
            commanded_interval(target) * remaining(s.dir, ramp_run(s, inputs).pos, pos_before),
        ),
    decreases inputs.len(),
{
    if inputs.len() > 0 && s.pulse_ix > 0 {
        let next = ramp_step(s, inputs[0]);
        let commanded = commanded_interval(target);
        let cruise = cruise_index(s.table, s.max_pulse_ix, commanded);
        let pulses = remaining(s.dir, s.pos, pos_before);
        lemma_step_by_one(s, inputs[0]);
        lemma_fixed_tail(inputs, s.dir, end, target, false);
        lemma_first_below_found(s.table, commanded + 1, 0, s.max_pulse_ix);
        lemma_commanded_interval(target);
        assert(remaining(s.dir, next.pos, pos_before) == pulses + 1);
        assert(commanded * (pulses + 1) == commanded * pulses + commanded) by (nonlinear_arith);
        lemma_excess_sum_monotone(s.table, commanded, s.pulse_ix - 1, s.pulse_ix);
        lemma_excess_sum_monotone(s.table, commanded, s.pulse_ix, cruise);
        if s.pulse_ix < cruise {
            lemma_excess_sum_monotone(s.table, commanded, s.pulse_ix + 1, cruise);
        }
        lemma_excess_sum_monotone(s.table, commanded, cruise - 1, cruise);
        // The pulse at this index waits the commanded interval or, while
        // the ramp is slower than that, the interval of the ramp.
        assert(s.table[s.pulse_ix - 1] > commanded);
        lemma_pacing_run(next, inputs.drop_first(), end, target, slept_before, pos_before);
    }
}

/// The time a stroke takes under a constant command above `MIN_SPEED` that
/// the ceiling of the ramp index does not clip: the intervals waited sum to
/// no less than the commanded interval for every pulse, and to no more than
/// that and twice what the climb to the cruise index costs beyond it.
pub proof fn lemma_stroke_time(s: RampState, inputs: Seq<Control>, end: int, target: int)
    requires
        on_ramp(s),
        s.pulse_ix == 1,
        s.commanded == commanded_interval(target),
        target > MIN_SPEED,
        end_fixed(inputs, s.dir, end),
        target_fixed(inputs, s.dir, target),
        stop_fixed(inputs, false),
        s.table[cruise_index(s.table, s.max_pulse_ix, commanded_interval(target))]
            <= commanded_interval(target),
    ensures
        remaining(s.dir, ramp_run(s, inputs).pos, s.pos) >= 0,
        ramp_run(s, inputs).slept - s.slept >= commanded_interval(target) * remaining(
            s.dir,
            ramp_run(s, inputs).pos,
            s.pos,
        ),
        ramp_run(s, inputs).slept - s.slept <= commanded_interval(target) * remaining(
            s.dir,
            ramp_run(s, inputs).pos,
            s.pos,
        ) + 2 * excess_sum(
            s.table,
            commanded_interval(target),
            cruise_index(s.table, s.max_pulse_ix, commanded_interval(target)),
        ),
{
    let commanded = commanded_interval(target);
    let cruise = cruise_index(s.table, s.max_pulse_ix, commanded);
    lemma_first_below_found(s.table, commanded + 1, 0, s.max_pulse_ix);
    lemma_commanded_interval(target);
    lemma_excess_sum_monotone(s.table, commanded, 0, 1);
    lemma_excess_sum_monotone(s.table, commanded, 1, cruise);
    lemma_excess_sum_monotone(s.table, commanded, 0, cruise);
    assert(commanded * remaining(s.dir, s.pos, s.pos) == 0) by (nonlinear_arith)
        requires
            remaining(s.dir, s.pos, s.pos) == 0,
    ;
    lemma_pacing_run(s, inputs, end, target, s.slept, s.pos);
    let rest = ramp_run(s, inputs);
    lemma_excess_sum_monotone(s.table, commanded, rest.pulse_ix - 1, cruise);
    lemma_excess_sum_monotone(s.table, commanded, 0, rest.pulse_ix);
    lemma_run_keeps(s, inputs);
}

/// In a stroke under a constant command, from one pulse to the next the
/// rate changes by no more than the acceleration: with `p` the interval
/// waited after one pulse and `r` the one after the next, both in seconds,
/// `|1 / r - 1 / p| * p` is at most the acceleration in steps per second
/// squared, with the allowances of `lemma_table_rate_change`. A command that
/// changes on the way can move the interval across two entries of the table
/// at once, which for accelerations of a few steps per second squared is
/// more than this.
pub proof fn lemma_stroke_rate_change(s: RampState, ctrl: Control, accel: int, first: int)
    requires
        on_ramp(s),
        is_table_for(s.table, accel, first),
        s.commanded == commanded_interval(ctrl.target_speeds[s.dir] as int),
        1 <= s.pulse_ix <= cruise_index(s.table, s.max_pulse_ix, s.commanded),
        ramp_step(s, ctrl).pulse_ix >= 1,
    ensures
        ({
            let p = band_clamp(s.table, s.pulse_ix, s.commanded);
            let r = band_clamp(
                s.table,
                ramp_step(s, ctrl).pulse_ix,
                ramp_step(s, ctrl).commanded,
            );
            let change = if p >= r {
                p - r
            } else {
                r - p
            };
            (change - 1) * ((RAMP_SCALE as int) - accel) <= accel * ((r + 1)
                * 2_000_000_004_000_000_000)
        }),
{
    let next = ramp_step(s, ctrl);
    let ix = s.pulse_ix;
    let p = band_clamp(s.table, ix, s.commanded);
    let r = band_clamp(s.table, next.pulse_ix, next.commanded);
    let change = if p >= r {
        p - r
    } else {
        r - p
    };
    let room = (RAMP_SCALE as int) - accel;
    let widened = 2_000_000_004_000_000_000int;
    lemma_step_by_one(s, ctrl);
    lemma_first_below_found(s.table, s.commanded + 1, 0, s.max_pulse_ix);
    assert(s.table[ix - 1] > s.commanded);
    if next.pulse_ix == ix + 1 {
        lemma_table_rate_change(s.table, accel, first, ix);
        let step = s.table[ix] - s.table[ix + 1];
        assert(0 <= change <= step && r >= s.table[ix + 1]);
        assert((change - 1) * room <= (step - 1) * room) by (nonlinear_arith)
            requires
                change <= step,
                room >= 0,
        ;
        assert(accel * ((s.table[ix + 1] + 1) * widened) <= accel * ((r + 1) * widened))
            by (nonlinear_arith)
            requires
                accel > 0,
                widened > 0,
                s.table[ix + 1] <= r,
        ;
    } else if next.pulse_ix == ix - 1 {
        lemma_table_rate_change(s.table, accel, first, ix - 1);
        let step = s.table[ix - 1] - s.table[ix];
        assert(0 <= change <= step && r >= s.table[ix]);
        assert((change - 1) * room <= (step - 1) * room) by (nonlinear_arith)
            requires
                change <= step,
                room >= 0,
        ;
        assert(accel * ((s.table[ix] + 1) * widened) <= accel * ((r + 1) * widened))
            by (nonlinear_arith)
            requires
                accel > 0,
                widened > 0,
                s.table[ix] <= r,
        ;
    } else {
        assert(change == 0);
        assert((change - 1) * room <= 0 <= accel * ((r + 1) * widened)) by (nonlinear_arith)
            requires
                change == 0,
                room >= 0,
                accel > 0,
                r >= 0,
                widened > 0,
        ;
    }
}

} // verus!
