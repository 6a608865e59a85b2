//! A microtonal-tuning computation engine.
//!
//! The crate models musical intervals in a fixed-point logarithmic domain:
//! an interval is stored as `round(cents * 2^20)` in an `i64`, so composing
//! intervals is exact integer addition and comparing them is exact integer
//! comparison.  On top of that domain the crate builds scales, key maps,
//! bidirectional key-to-pitch tunings, a rational approximator and an
//! encoder for MIDI Tuning Standard system-exclusive messages.

pub mod control;
pub mod dump;
pub mod fraction;
pub mod key;
pub mod math;
pub mod mts;
pub mod note;
pub mod pitch;
pub mod ratio;
pub mod scale;
pub mod text;
pub mod tuning;

