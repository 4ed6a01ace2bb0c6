//! The pulse table: the inter-pulse intervals of a constant-acceleration ramp
//! from rest, in nanoseconds.
//!
//! Accelerations are in thousandths of a step per second squared. With
//! `t(n) = sqrt(2 n / accel)` the time at which step `n` of the ramp falls, the
//! interval before step `n` is `(2 / accel) / (t(n) + t(n - 1))`, the stable
//! form of `t(n) - t(n - 1)`. All quantities are floors of their exact values.

use vstd::prelude::*;
use vstd::arithmetic::div_mod::{lemma_div_is_ordered, lemma_div_is_ordered_by_denominator};
use crate::error::EngineError;
use crate::fixed::{sqrt_floor, isqrt, lemma_sqrt_floor_monotone, lemma_sqrt_floor_at_least};

verus! {

/// Shortest interval the table holds, in nanoseconds (50 microseconds).
pub const MIN_PULSE: u64 = 50_000;

/// The interval of the slowest admissible pulse, in nanoseconds: one second,
/// the period of the lowest speed at which the motor is driven.
pub const SLOWEST_PULSE: u64 = 1_000_000_000;

/// `2 / accel` in square nanoseconds is `RAMP_SCALE / accel` when `accel` is in
/// thousandths of a step per second squared.
pub const RAMP_SCALE: u128 = 2_000_000_000_000_000_000_000;

/// The acceleration is positive and fits the word of the control block.
pub open spec fn accel_in_range(accel: int) -> bool {
    0 < accel <= i64::MAX
}

/// Time of step `n` of the ramp, in nanoseconds.
pub open spec fn ramp_time(accel: int, n: int) -> int {
    sqrt_floor(((RAMP_SCALE as int) * n / accel) as nat) as int
}

/// Interval between steps `n - 1` and `n` of the ramp, in nanoseconds.
pub open spec fn ramp_interval(accel: int, n: int) -> int {
    ((RAMP_SCALE as int) / accel) / (ramp_time(accel, n) + ramp_time(accel, n - 1))
}

/// A step count from which every interval of the ramp is below `MIN_PULSE`.
pub open spec fn ramp_horizon(accel: int) -> int {
    (((RAMP_SCALE as int) / accel) / (MIN_PULSE as int)) / (MIN_PULSE as int) + 3
}

/// Later steps of the ramp come at later times, and every step after rest
/// comes at a positive time.
pub proof fn lemma_ramp_time_monotone(accel: int, n: int, m: int)
    requires
        accel_in_range(accel),
        0 <= n <= m,
    ensures
        0 <= ramp_time(accel, n) <= ramp_time(accel, m),
        m >= 1 ==> ramp_time(accel, m) >= 1,
{
    let x = (RAMP_SCALE as int) * n;
    let y = (RAMP_SCALE as int) * m;
    assert(0 <= x <= y) by (nonlinear_arith)
        requires
            0 <= n <= m,
            x == (RAMP_SCALE as int) * n,
            y == (RAMP_SCALE as int) * m,
    ;
    lemma_div_is_ordered(0, x, accel);
    lemma_div_is_ordered(x, y, accel);
    lemma_sqrt_floor_monotone((x / accel) as nat, (y / accel) as nat);
    if m >= 1 {
        assert(y >= accel) by (nonlinear_arith)
            requires
                m >= 1,
                y == (RAMP_SCALE as int) * m,
                accel <= i64::MAX,
        ;
        lemma_div_is_ordered(accel, y, accel);
        assert(accel / accel == 1) by (nonlinear_arith)
            requires
                accel > 0,
        ;
        lemma_sqrt_floor_at_least((y / accel) as nat, 1);
    }
}

/// The intervals of the ramp never grow.
pub proof fn lemma_ramp_interval_monotone(accel: int, n: int, m: int)
    requires
        accel_in_range(accel),
        1 <= n <= m,
    ensures
        0 <= ramp_interval(accel, m) <= ramp_interval(accel, n),
{
    lemma_ramp_time_monotone(accel, n, m);
    lemma_ramp_time_monotone(accel, n - 1, m - 1);
    lemma_ramp_time_monotone(accel, 0, n);
    let q = (RAMP_SCALE as int) / accel;
    lemma_div_is_ordered(0, (RAMP_SCALE as int), accel);
    let dn = ramp_time(accel, n) + ramp_time(accel, n - 1);
    let dm = ramp_time(accel, m) + ramp_time(accel, m - 1);
    lemma_div_is_ordered_by_denominator(q, dn, dm);
    lemma_div_is_ordered(0, q, dm);
}

/// From `ramp_horizon` on, every interval is shorter than `MIN_PULSE`.
pub proof fn lemma_ramp_horizon(accel: int, n: int)
    requires
        accel_in_range(accel),
        n >= ramp_horizon(accel),
    ensures
        ramp_interval(accel, n) < MIN_PULSE,
{
    let q = (RAMP_SCALE as int) / accel;
    let m = MIN_PULSE as int;
    let l = q / m;
    let x = (RAMP_SCALE as int) * n / accel;
    lemma_div_is_ordered(216 * accel, (RAMP_SCALE as int), accel);
    assert(216 * accel / accel == 216) by (nonlinear_arith)
        requires
            accel > 0,
    ;
    assert(0 <= l && l * m <= q < (l + 1) * m) by (nonlinear_arith)
        requires
            l == q / m,
            q >= 0,
            m == 50_000,
    ;
    let h = l / m;
    assert(h * m > l - m && h >= 0) by (nonlinear_arith)
        requires
            h == l / m,
            l >= 0,
            m == 50_000,
    ;
    // The step count times `q` reaches the square of `l + 1`.
    assert(q * n >= (l + 1) * (l + 1)) by (nonlinear_arith)
        requires
            n >= h + 3,
            h * m > l - m,
            h >= 0,
            l >= 0,
            l * m <= q,
            q >= 216,
            m == 50_000,
    ;
    assert(q * accel <= (RAMP_SCALE as int)) by (nonlinear_arith)
        requires
            q == (RAMP_SCALE as int) / accel,
            accel > 0,
    ;
    assert(q * n * accel <= (RAMP_SCALE as int) * n) by (nonlinear_arith)
        requires
            q * accel <= (RAMP_SCALE as int),
            n >= 0,
    ;
    lemma_div_is_ordered(q * n * accel, (RAMP_SCALE as int) * n, accel);
    assert(q * n * accel / accel == q * n) by (nonlinear_arith)
        requires
            accel > 0,
    ;
    assert(x >= (l + 1) * (l + 1));
    lemma_sqrt_floor_at_least(x as nat, l + 1);
    let t = ramp_time(accel, n);
    assert(t >= l + 1);
    lemma_ramp_time_monotone(accel, n - 1, n);
    let d = t + ramp_time(accel, n - 1);
    assert(q / d < m) by (nonlinear_arith)
        requires
            d >= l + 1,
            l >= 0,
            0 <= q < (l + 1) * m,
            m == 50_000,
    ;
}

/// The time of step `n` is the nanosecond in which a carriage that
/// accelerates uniformly from rest passes step `n`: at that time it has
/// covered no more than `n` steps, and a nanosecond later more than `n`.
pub proof fn lemma_ramp_time_is_root(accel: int, n: int)
    requires
        accel_in_range(accel),
        0 <= n,
    ensures
        0 <= ramp_time(accel, n),
        accel * (ramp_time(accel, n) * ramp_time(accel, n)) <= (RAMP_SCALE as int) * n,
        (RAMP_SCALE as int) * n < accel * ((ramp_time(accel, n) + 1) * (ramp_time(accel, n) + 1)),
{
    let d = (RAMP_SCALE as int) * n;
    assert(0 <= d) by (nonlinear_arith)
        requires
            0 <= n,
            d == (RAMP_SCALE as int) * n,
    ;
    let x = d / accel;
    assert(0 <= x && x * accel <= d < (x + 1) * accel) by (nonlinear_arith)
        requires
            x == d / accel,
            accel > 0,
            d >= 0,
    ;
    crate::fixed::lemma_sqrt_floor_bounds(x as nat);
    let t = ramp_time(accel, n);
    assert(accel * (t * t) <= d) by (nonlinear_arith)
        requires
            t * t <= x,
            x * accel <= d,
            accel > 0,
    ;
    assert(d < accel * ((t + 1) * (t + 1))) by (nonlinear_arith)
        requires
            x + 1 <= (t + 1) * (t + 1),
            d < (x + 1) * accel,
            accel > 0,
    ;
}

/// Each interval is the time between two successive steps of the uniformly
/// accelerating ramp, to within three nanoseconds.
pub proof fn lemma_interval_is_time_between_steps(accel: int, n: int)
    requires
        accel_in_range(accel),
        1 <= n,
    ensures
        ramp_time(accel, n) - ramp_time(accel, n - 1) - 3 <= ramp_interval(accel, n),
        ramp_interval(accel, n) <= ramp_time(accel, n) - ramp_time(accel, n - 1) + 2,
{
    let scale = RAMP_SCALE as int;
    let t1 = ramp_time(accel, n);
    let t0 = ramp_time(accel, n - 1);
    let q = scale / accel;
    let sum = t1 + t0;
    let gap = t1 - t0;
    lemma_ramp_time_is_root(accel, n);
    lemma_ramp_time_is_root(accel, n - 1);
    lemma_ramp_time_monotone(accel, n - 1, n);
    assert(0 <= q && q * accel <= scale < (q + 1) * accel) by (nonlinear_arith)
        requires
            q == scale / accel,
            accel > 0,
            scale >= 0,
    ;
    assert(scale * n - scale * (n - 1) == scale) by (nonlinear_arith);
    // Between the squares of the two times lies one `q`, give or take the
    // rounding of each.
    assert((t1 + 1) * (t1 + 1) - t0 * t0 > q) by (nonlinear_arith)
        requires
            accel > 0,
            scale * n < accel * ((t1 + 1) * (t1 + 1)),
            accel * (t0 * t0) <= scale * (n - 1),
            scale * n - scale * (n - 1) == scale,
            q * accel <= scale,
    ;
    assert(t1 * t1 - (t0 + 1) * (t0 + 1) < q + 1) by (nonlinear_arith)
        requires
            accel > 0,
            accel * (t1 * t1) <= scale * n,
            scale * (n - 1) < accel * ((t0 + 1) * (t0 + 1)),
            scale * n - scale * (n - 1) == scale,
            scale < (q + 1) * accel,
    ;
    assert(q <= (gap + 2) * sum) by (nonlinear_arith)
        requires
            (t1 + 1) * (t1 + 1) - t0 * t0 > q,
            sum == t1 + t0,
            gap == t1 - t0,
            0 <= t0 <= t1,
    ;
    assert((gap - 3) * sum <= q) by (nonlinear_arith)
        requires
            t1 * t1 - (t0 + 1) * (t0 + 1) < q + 1,
            sum == t1 + t0,
            gap == t1 - t0,
            0 <= t0 <= t1,
            sum >= 1,
    ;
    assert(gap - 3 <= q / sum <= gap + 2) by (nonlinear_arith)
        requires
            (gap - 3) * sum <= q,
            q <= (gap + 2) * sum,
            sum >= 1,
    ;
}

/// From one step of the ramp to the next the rate rises by no more than the
/// acceleration allows over the interval between them. In exact numbers an
/// interval `p` and the next one `r` satisfy `(p - r) * (2 / accel) = p * r *
/// (p + r)`, which is to say `1 / r - 1 / p = accel * (p + r) / 2`; here each
/// interval is allowed the nanoseconds its rounding may have cost.
pub proof fn lemma_rate_rises_by_accel(accel: int, n: int)
    requires
        accel_in_range(accel),
        2 <= n,
    ensures
        (ramp_interval(accel, n - 1) - ramp_interval(accel, n) - 1) * ((RAMP_SCALE as int)
            / accel) <= (ramp_interval(accel, n - 1) + 1) * (ramp_interval(accel, n) + 1) * (
        ramp_interval(accel, n - 1) + ramp_interval(accel, n) + 6),
{
    let q = (RAMP_SCALE as int) / accel;
    let t2 = ramp_time(accel, n);
    let t1 = ramp_time(accel, n - 1);
    let t0 = ramp_time(accel, n - 2);
    let s1 = t1 + t0;
    let s2 = t2 + t1;
    let p = ramp_interval(accel, n - 1);
    let r = ramp_interval(accel, n);
    lemma_ramp_time_monotone(accel, n - 2, n - 1);
    lemma_ramp_time_monotone(accel, n - 1, n);
    lemma_interval_is_time_between_steps(accel, n);
    lemma_interval_is_time_between_steps(accel, n - 1);
    lemma_div_is_ordered(0, (RAMP_SCALE as int), accel);
    assert(0 <= p && p * s1 <= q < (p + 1) * s1) by (nonlinear_arith)
        requires
            p == q / s1,
            s1 >= 1,
            q >= 0,
    ;
    assert(0 <= r && r * s2 <= q < (r + 1) * s2) by (nonlinear_arith)
        requires
            r == q / s2,
            s2 >= 1,
            q >= 0,
    ;
    let d = s2 - s1;
    let k = p - r - 1;
    let m = (p + 1) * (r + 1);
    let w = s1 * s2;
    assert(m >= 1) by (nonlinear_arith)
        requires
            m == (p + 1) * (r + 1),
            p >= 0,
            r >= 0,
    ;
    if k > 0 {
        assert(k * w < q * d) by (nonlinear_arith)
            requires
                k == p - r - 1,
                w == s1 * s2,
                d == s2 - s1,
                p * s1 <= q,
                q < (r + 1) * s2,
                s1 >= 1,
                s2 >= 1,
        ;
        assert(q * q < m * w) by (nonlinear_arith)
            requires
                m == (p + 1) * (r + 1),
                w == s1 * s2,
                0 <= q < (p + 1) * s1,
                q < (r + 1) * s2,
                p >= 0,
                r >= 0,
                s1 >= 1,
                s2 >= 1,
        ;
        assert(k * q < m * d) by (nonlinear_arith)
            requires
                k > 0,
                m >= 1,
                q >= 0,
                k * w < q * d,
                q * q < m * w,
        ;
        assert(m * d <= m * (p + r + 6)) by (nonlinear_arith)
            requires
                m >= 1,
                d <= p + r + 6,
        ;
    } else {
        assert(k * q <= 0 <= m * (p + r + 6)) by (nonlinear_arith)
            requires
                k <= 0,
                q >= 0,
                m >= 1,
                p >= 0,
                r >= 0,
        ;
    }
}

/// The horizon of every acceleration fits comfortably in a machine word.
pub proof fn lemma_ramp_horizon_bound(accel: int)
    requires
        accel_in_range(accel),
    ensures
        3 <= ramp_horizon(accel) <= 800_000_000_003,
{
    let q = (RAMP_SCALE as int) / accel;
    lemma_div_is_ordered(0, (RAMP_SCALE as int), accel);
    lemma_div_is_ordered_by_denominator((RAMP_SCALE as int), 1, accel);
    lemma_div_is_ordered(0, q, MIN_PULSE as int);
    lemma_div_is_ordered(q, (RAMP_SCALE as int), MIN_PULSE as int);
}

/// `s` is the pulse table of `accel`: the sentinel, then the intervals of the
/// ramp from step `first`, the first one shorter than the sentinel, up to the
/// last one that is not shorter than `MIN_PULSE`.
pub open spec fn is_table_for(s: Seq<u64>, accel: int, first: int) -> bool {
    &&& accel_in_range(accel)
    &&& first >= 1
    &&& forall|n: int| 1 <= n < first ==> #[trigger] ramp_interval(accel, n) >= SLOWEST_PULSE
    &&& s.len() >= 1
    &&& s[0] == SLOWEST_PULSE
    &&& forall|k: int|
        1 <= k < s.len() ==> #[trigger] s[k] == ramp_interval(accel, first + k - 1) && MIN_PULSE
            <= s[k] < SLOWEST_PULSE
    &&& ramp_interval(accel, first + s.len() - 1) < MIN_PULSE
}

/// An acceleration has one pulse table: two sequences that are both its
/// table, whatever step each starts from, are equal.
pub proof fn lemma_table_unique(a: Seq<u64>, first_a: int, b: Seq<u64>, first_b: int, accel: int)
    requires
        is_table_for(a, accel, first_a),
        is_table_for(b, accel, first_b),
    ensures
        a == b,
        first_a == first_b,
{
    // The entry after the sentinel, or the end marker where there is none,
    // is shorter than the sentinel.
    assert(ramp_interval(accel, first_a) < SLOWEST_PULSE) by {
        if a.len() > 1 {
            assert(a[1] == ramp_interval(accel, first_a + 1 - 1));
        }
    }
    assert(ramp_interval(accel, first_b) < SLOWEST_PULSE) by {
        if b.len() > 1 {
            assert(b[1] == ramp_interval(accel, first_b + 1 - 1));
        }
    }
    assert(first_a == first_b);
    if a.len() < b.len() {
        let k = a.len() as int;
        assert(b[k] == ramp_interval(accel, first_b + k - 1));
    } else if b.len() < a.len() {
        let k = b.len() as int;
        assert(a[k] == ramp_interval(accel, first_a + k - 1));
    }
    assert forall|k: int| 0 <= k < a.len() implies a[k] == b[k] by {
        if k >= 1 {
            assert(a[k] == ramp_interval(accel, first_a + k - 1));
            assert(b[k] == ramp_interval(accel, first_b + k - 1));
        }
    }
    assert(a =~= b);
}

/// The pulse table of an acceleration starts at the sentinel and never
/// grows.
pub proof fn lemma_table_is_ramp(s: Seq<u64>, accel: int, first: int)
    requires
        is_table_for(s, accel, first),
    ensures
        crate::ramp::ramp_table(s),
{
    assert forall|i: int, j: int| 0 <= i <= j < s.len() implies s[i] >= s[j] by {
        if 1 <= i {
            lemma_ramp_interval_monotone(accel, first + i - 1, first + j - 1);
        }
    }
}

/// Along the table the rate changes from one entry to the next by no more
/// than the acceleration: with `p` an entry after the sentinel and `r` the
/// next, both in seconds, `(1 / r - 1 / p) * p` is at most the acceleration in
/// steps per second squared. Here, in nanoseconds and thousandths, each of
/// the two is allowed a nanosecond of rounding, and the bound is widened by
/// two parts in a thousand million and by the share that the acceleration
/// has of `RAMP_SCALE`.
pub proof fn lemma_table_rate_change(s: Seq<u64>, accel: int, first: int, k: int)
    requires
        is_table_for(s, accel, first),
        1 <= k,
        k + 1 < s.len(),
    ensures
        s[k] >= s[k + 1],
        (s[k] - s[k + 1] - 1) * ((RAMP_SCALE as int) - accel) <= accel * ((s[k + 1] + 1)
            * 2_000_000_004_000_000_000),
{
    let scale = RAMP_SCALE as int;
    let q = scale / accel;
    let p = s[k] as int;
    let r = s[k + 1] as int;
    let over = p - r - 1;
    assert(s[k] == ramp_interval(accel, first + k - 1));
    assert(s[k + 1] == ramp_interval(accel, first + (k + 1) - 1));
    lemma_ramp_interval_monotone(accel, first + k - 1, first + k);
    lemma_rate_rises_by_accel(accel, first + k);
    assert(q * accel > scale - accel && q >= 0) by (nonlinear_arith)
        requires
            q == scale / accel,
            accel > 0,
            scale >= 0,
    ;
    if over > 0 {
        assert((p + 1) * (r + 1) * (p + r + 6) <= (r + 1) * 2_000_000_004_000_000_000)
            by (nonlinear_arith)
            requires
                0 <= r <= p,
                p + 1 <= 1_000_000_000,
        ;
        assert(over * (scale - accel) <= accel * ((r + 1) * 2_000_000_004_000_000_000))
            by (nonlinear_arith)
            requires
                over > 0,
                accel > 0,
                q * accel > scale - accel,
                over * q <= (r + 1) * 2_000_000_004_000_000_000,
                r >= 0,
        ;
    } else {
        assert(over * (scale - accel) <= 0 <= accel * ((r + 1) * 2_000_000_004_000_000_000))
            by (nonlinear_arith)
            requires
                over <= 0,
                0 < accel <= i64::MAX,
                scale == 2_000_000_000_000_000_000_000,
                r >= 0,
        ;
    }
}

/// What climbing the ramp to index `k` costs beyond moving at a commanded
/// interval is no more than the time the uniform ramp takes over the steps
/// climbed, give or take two nanoseconds a step.
pub proof fn lemma_climb_cost(s: Seq<u64>, accel: int, first: int, commanded: int, k: int)
    requires
        is_table_for(s, accel, first),
        0 <= k < s.len(),
        0 <= commanded,
    ensures
        crate::ramp::excess_sum(s, commanded, k) <= ramp_time(accel, first + k - 1) - ramp_time(
            accel,
            first - 1,
        ) + 2 * k,
    decreases k,
{
    if k > 0 {
        lemma_climb_cost(s, accel, first, commanded, k - 1);
        lemma_interval_is_time_between_steps(accel, first + k - 1);
        assert(s[k] == ramp_interval(accel, first + k - 1));
    }
}

/// The first index below `last` from `from` on whose interval is shorter than
/// `bound`, or `last` where there is none.
pub open spec fn first_below(s: Seq<u64>, bound: int, from: int, last: int) -> int
    decreases last - from,
{
    if from >= last {
        last
    } else if s[from] < bound {
        from
    } else {
        first_below(s, bound, from + 1, last)
    }
}

/// The highest ramp index a stroke may reach when each pulse costs
/// `time_error` nanoseconds of overhead: the first index whose interval is
/// shorter than the overhead, or the last index of the table.
pub open spec fn ceiling_index(s: Seq<u64>, time_error: int) -> int {
    first_below(s, time_error, 0, s.len() - 1)
}

/// An index with no shorter-than-`bound` interval before it, which is itself
/// `last` or shorter than `bound`, is what `first_below` finds.
pub proof fn lemma_first_below_is(s: Seq<u64>, bound: int, from: int, last: int, r: int)
    requires
        0 <= from <= r <= last < s.len(),
        forall|j: int| from <= j < r ==> s[j] >= bound,
        r == last || s[r] < bound,
    ensures
        first_below(s, bound, from, last) == r,
    decreases last - from,
{
    if from < r {
        lemma_first_below_is(s, bound, from + 1, last, r);
    }
}

/// What `first_below` finds lies in range, has no shorter interval before it,
/// and is `last` or shorter than `bound`.
pub proof fn lemma_first_below_found(s: Seq<u64>, bound: int, from: int, last: int)
    requires
        0 <= from <= last < s.len(),
    ensures
        from <= first_below(s, bound, from, last) <= last,
        forall|j: int| from <= j < first_below(s, bound, from, last) ==> s[j] >= bound,
        first_below(s, bound, from, last) == last || s[first_below(s, bound, from, last)] < bound,
    decreases last - from,
{
    if from < last && s[from] >= bound {
        lemma_first_below_found(s, bound, from + 1, last);
    }
}

/// The pulse table of one acceleration.
pub struct PulseTable {
    /// The intervals in nanoseconds, the sentinel first.
    pub intervals: Vec<u64>,
    /// The acceleration, in thousandths of a step per second squared.
    pub accel: i64,
    /// The step of the ramp that the entry after the sentinel belongs to.
    pub first_step: u64,
}

impl View for PulseTable {
    type V = Seq<u64>;

    open spec fn view(&self) -> Seq<u64> {
        self.intervals@
    }
}

/// Time of step `n` of the ramp, in nanoseconds.
pub fn ramp_time_at(accel: i64, n: u64) -> (t: u64)
    requires
        accel_in_range(accel as int),
        n <= 1_000_000_000_000,
    ensures
        t == ramp_time(accel as int, n as int),
{
    assert(RAMP_SCALE * n <= u128::MAX) by (nonlinear_arith)
        requires
            n <= 1_000_000_000_000,
            RAMP_SCALE == 2_000_000_000_000_000_000_000,
    ;
    isqrt(RAMP_SCALE * (n as u128) / (accel as u128))
}

/// Interval between steps `n - 1` and `n` of the ramp, in nanoseconds.
pub fn ramp_interval_at(accel: i64, n: u64) -> (dt: u128)
    requires
        accel_in_range(accel as int),
        1 <= n <= 1_000_000_000_000,
    ensures
        dt == ramp_interval(accel as int, n as int),
{
    proof {
        lemma_ramp_time_monotone(accel as int, n - 1, n as int);
    }
    let before: u64 = ramp_time_at(accel, n - 1);
    let at: u64 = ramp_time_at(accel, n);
    (RAMP_SCALE / (accel as u128)) / (before as u128 + at as u128)
}

impl PulseTable {
    /// The table belongs to its acceleration.
    pub open spec fn wf(&self) -> bool {
        is_table_for(self@, self.accel as int, self.first_step as int)
    }

    /// Builds the table of `accel`; fails where `accel` is not positive.
    pub fn new(accel: i64) -> (r: Result<PulseTable, EngineError>)
        ensures
            accel <= 0 ==> r == Err::<PulseTable, EngineError>(EngineError::NonPositiveAccel),
            accel > 0 ==> r is Ok && r->Ok_0.wf() && r->Ok_0.accel == accel,
    {
        if accel <= 0 {
            return Err(EngineError::NonPositiveAccel);
        }
        let q: u128 = RAMP_SCALE / (accel as u128);
        let ghost a = accel as int;
        let ghost horizon = ramp_horizon(a);
        proof {
            lemma_ramp_horizon_bound(a);
            lemma_ramp_time_monotone(a, 0, 1);
        }
        let mut n: u64 = 1;
        let mut prev: u64 = ramp_time_at(accel, 0);
        let mut cur: u64 = ramp_time_at(accel, 1);
        let mut dt: u128 = q / (prev as u128 + cur as u128);
        while dt >= SLOWEST_PULSE as u128
            invariant
                accel_in_range(a),
                a == accel,
                q == (RAMP_SCALE as int) / a,
                horizon == ramp_horizon(a),
                horizon <= 800_000_000_003,
                1 <= n <= horizon,
                prev == ramp_time(a, n - 1),
                cur == ramp_time(a, n as int),
                dt == ramp_interval(a, n as int),
                forall|j: int| 1 <= j < n ==> #[trigger] ramp_interval(a, j) >= SLOWEST_PULSE,
            decreases horizon - n,
        {
            proof {
                if n >= horizon {
                    lemma_ramp_horizon(a, n as int);
                }
                lemma_ramp_time_monotone(a, n as int, n + 1);
            }
            n = n + 1;
            prev = cur;
            cur = ramp_time_at(accel, n);
            dt = q / (prev as u128 + cur as u128);
        }
        let first_step: u64 = n;
        let mut intervals: Vec<u64> = Vec::new();
        intervals.push(SLOWEST_PULSE);
        while dt >= MIN_PULSE as u128
            invariant
                accel_in_range(a),
                a == accel,
                q == (RAMP_SCALE as int) / a,
                horizon == ramp_horizon(a),
                horizon <= 800_000_000_003,
                1 <= first_step <= n <= horizon,
                prev == ramp_time(a, n - 1),
                cur == ramp_time(a, n as int),
                dt == ramp_interval(a, n as int),
                dt < SLOWEST_PULSE,
                forall|j: int|
                    1 <= j < first_step ==> #[trigger] ramp_interval(a, j) >= SLOWEST_PULSE,
                intervals@.len() == n - first_step + 1,
                intervals@[0] == SLOWEST_PULSE,
                forall|k: int|
                    1 <= k < intervals@.len() ==> #[trigger] intervals@[k] == ramp_interval(
                        a,
                        first_step + k - 1,
                    ) && MIN_PULSE <= intervals@[k] < SLOWEST_PULSE,
            decreases horizon - n,
        {
            proof {
                if n >= horizon {
                    lemma_ramp_horizon(a, n as int);
                }
                lemma_ramp_time_monotone(a, n as int, n + 1);
                lemma_ramp_interval_monotone(a, n as int, n + 1);
            }
            intervals.push(dt as u64);
            n = n + 1;
            prev = cur;
            cur = ramp_time_at(accel, n);
            dt = q / (prev as u128 + cur as u128);
        }
        Ok(PulseTable { intervals, accel, first_step })
    }

    /// Number of entries, the sentinel included.
    pub fn len(&self) -> (n: usize)
        ensures
            n == self@.len(),
    {
        self.intervals.len()
    }

    /// The interval at ramp index `ix`, in nanoseconds.
    pub fn interval(&self, ix: usize) -> (dt: u64)
        requires
            ix < self@.len(),
        ensures
            dt == self@[ix as int],
    {
        self.intervals[ix]
    }

    /// The intervals never grow along the table.
    pub proof fn lemma_sorted(&self, i: int, j: int)
        requires
            self.wf(),
            0 <= i <= j < self@.len(),
        ensures
            self@[i] >= self@[j],
    {
        if 1 <= i {
            let first = self.first_step as int;
            lemma_ramp_interval_monotone(self.accel as int, first + i - 1, first + j - 1);
        }
    }

    /// The highest ramp index that the overhead `time_error` per pulse, in
    /// nanoseconds, leaves within reach.
    pub fn max_pulse_ix(&self, time_error: i64) -> (ix: usize)
        requires
            self.wf(),
        ensures
            ix == ceiling_index(self@, time_error as int),
            ix < self@.len(),
    {
        let last: usize = self.intervals.len() - 1;
        let mut lo: usize = 0;
        let mut hi: usize = last;
        while lo < hi
            invariant
                self.wf(),
                last == self@.len() - 1,
                0 <= lo <= hi <= last,
                forall|j: int| 0 <= j < lo ==> self@[j] >= time_error,
                hi == last || self@[hi as int] < time_error,
            decreases hi - lo,
        {
            let mid: usize = lo + (hi - lo) / 2;
            if (self.intervals[mid] as i128) < time_error as i128 {
                hi = mid;
            } else {
                proof {
                    assert forall|j: int| 0 <= j < mid + 1 implies self@[j] >= time_error by {
                        self.lemma_sorted(j, mid as int);
                    }
                }
                lo = mid + 1;
            }
        }
        proof {
            lemma_first_below_is(self@, time_error as int, 0, last as int, lo as int);
        }
        lo
    }
}

} // verus!
