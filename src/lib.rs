//! A tape-stop effect engine in fixed-point arithmetic.
//!
//! Playback phase, speed, crossfade gain and filter coefficients are
//! fractions in Q32 (`UNIT` stands for 1.0); audio samples are plain `i32`
//! values whose scale the caller chooses.
pub mod fixed;
pub mod params;
pub mod dsp;
