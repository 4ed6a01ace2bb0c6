//! The ways in which the engine and the integrator refuse to work.

use vstd::prelude::*;
use crate::axis::EventCode;

verus! {

/// Failures of the motion engine.
#[derive(Debug, Clone, Copy, PartialEq, Eq, Structural)]
pub enum EngineError {
    /// The acceleration of the control block is zero or negative.
    NonPositiveAccel,
    /// No stroke can start: the estimated overhead per pulse exceeds even the
    /// slowest pulse of the table, or the table holds nothing but that pulse.
    /// Both are in nanoseconds.
    TimeErrorTooLarge { time_error: i64, slowest: u64 },
}

/// Failures of the joystick integrator at start.
#[derive(Debug, Clone, Copy, PartialEq, Eq, Structural)]
pub enum JoyError {
    /// A setting, or the range of an axis, lies outside the limits.
    OutOfRange,
    /// The device does not report the axis.
    AbsInfoMissing(EventCode),
    /// The device reports zero as the largest raw value of the axis.
    ZeroMaximum(EventCode),
}

} // verus!
