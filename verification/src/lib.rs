//! Motion planning for a joystick-driven stepper carriage, in fixed-point
//! integer arithmetic.
//!
//! The motion engine (`device`) turns two end-stops, two target speeds and an
//! acceleration bound into a train of step pulses along a trapezoidal speed
//! profile, one decision per pulse; `pulse` holds the table of intervals it
//! ramps along and `ramp` the model of a stroke and what is proved of it. The
//! integrator (`joystick`, over the axes of `axis`) turns joystick input into
//! the end-stops and target speeds that the engine reads from the control
//! block. Nothing here waits, reads a device or drives a line: the caller
//! does what each function tells it and reports back.

pub mod axis;
pub mod config;
pub mod device;
pub mod error;
pub mod fixed;
pub mod joystick;
pub mod pulse;
pub mod ramp;
pub mod timeval;
