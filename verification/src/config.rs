//! Settings of the integrator, as fixed-point numbers.

use vstd::prelude::*;

verus! {

/// One unit of an axis value in the millionths that axis values are kept in.
pub const MICRO: i64 = 1_000_000;

/// Largest magnitude of an axis value, in millionths.
pub const VALUE_LIMIT: i64 = 1_000_000_000_000_000;

/// Largest magnitude of a travel setting, in steps.
pub const TRAVEL_LIMIT: i64 = 1_000_000_000;

/// Largest magnitude of the time a full deflection takes to sweep an axis,
/// in microseconds.
pub const TIME_LIMIT: i64 = 8_000_000_000;

/// What the command line gives.
#[derive(Debug, Clone)]
pub struct Opt {
    /// Where the settings are read from.
    pub config_file: String,
    /// Report every input event.
    pub report_events: bool,
}

/// The settings.
#[derive(Debug, Clone, Copy)]
pub struct Config {
    /// Acceleration bound, in thousandths of a step per second squared.
    pub max_accel: i64,
    /// Natural logarithm of the lowest cycle speed in steps per second, in
    /// millionths.
    pub ln_min_speed: i64,
    /// Natural logarithm of the cycle speed at start, in millionths.
    pub ln_init_speed: i64,
    /// Natural logarithm of the highest cycle speed, in millionths.
    pub ln_max_speed: i64,
    /// Highest target speed, in thousandths of a step per second.
    pub max_speed: i64,
    /// Shortest half-length of a stroke, in steps.
    pub min_stroke: i64,
    /// Length of the carriage's travel, in steps.
    pub max_pos: i64,
    /// Time a full deflection takes to sweep an axis over its range, in
    /// microseconds.
    pub time_to_max: i64,
    /// Report every input event.
    pub report_events: bool,
}

impl Config {
    /// Every setting that becomes an axis range lies within the limits of
    /// axis values, and the sweep time is neither zero nor beyond its limit.
    pub open spec fn in_range(&self) -> bool {
        &&& -VALUE_LIMIT <= self.ln_min_speed <= VALUE_LIMIT
        &&& -VALUE_LIMIT <= self.ln_init_speed <= VALUE_LIMIT
        &&& -VALUE_LIMIT <= self.ln_max_speed <= VALUE_LIMIT
        &&& -TRAVEL_LIMIT <= self.min_stroke <= TRAVEL_LIMIT
        &&& -TRAVEL_LIMIT <= self.max_pos <= TRAVEL_LIMIT
        &&& -TRAVEL_LIMIT <= self.max_pos - self.min_stroke <= TRAVEL_LIMIT
        &&& -TIME_LIMIT <= self.time_to_max <= TIME_LIMIT
        &&& self.time_to_max != 0
    }

    /// The stroke is no shorter than nothing, and the travel has room for
    /// the shortest stroke.
    pub open spec fn has_room(&self) -> bool {
        0 <= self.min_stroke && 2 * self.min_stroke <= self.max_pos
    }

    /// Whether the settings lie within their limits.
    pub fn is_in_range(&self) -> (ok: bool)
        ensures
            ok == self.in_range(),
    {
        -VALUE_LIMIT <= self.ln_min_speed && self.ln_min_speed <= VALUE_LIMIT && -VALUE_LIMIT
            <= self.ln_init_speed && self.ln_init_speed <= VALUE_LIMIT && -VALUE_LIMIT
            <= self.ln_max_speed && self.ln_max_speed <= VALUE_LIMIT && -TRAVEL_LIMIT
            <= self.min_stroke && self.min_stroke <= TRAVEL_LIMIT && -TRAVEL_LIMIT <= self.max_pos
            && self.max_pos <= TRAVEL_LIMIT && -TRAVEL_LIMIT <= self.max_pos - self.min_stroke
            && self.max_pos - self.min_stroke <= TRAVEL_LIMIT && -TIME_LIMIT <= self.time_to_max
            && self.time_to_max <= TIME_LIMIT && self.time_to_max != 0
    }

    /// The settings with event reporting switched on where the command line
    /// asks for it.
    pub fn with_options(self, opt: &Opt) -> (config: Config)
        ensures
            config == (Config { report_events: self.report_events || opt.report_events, ..self }),
    {
        Config { report_events: self.report_events || opt.report_events, ..self }
    }
}

} // verus!
