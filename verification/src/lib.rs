//! Measurement core of a live counter display: unit suffixes for scaled
//! magnitudes, and a rolling log of per-tick samples.
//!
//! Magnitudes themselves are real-valued and are handled by the caller. The
//! formatter here works on a magnitude's decimal order (the floor of its base
//! ten logarithm) and on its already rendered mantissa; the log is generic in
//! the sample type.

pub mod bitlog;
pub mod bits;
pub mod control;
mod text;
