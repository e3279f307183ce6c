//! Text as a discrete-time signal.
//!
//! Every character of a text is one sample whose amplitude is the character's
//! Unicode scalar value. This crate prepares such a signal for a spectral
//! resampler and turns the resampled curve back into text:
//!
//! * [`length`] derives the target sample count and the transform size;
//! * [`encode`] turns text into an even-length, zero-mean sample sequence;
//! * [`fit`] recentres a resampled curve and snaps it to the alphabet of the
//!   input under a tolerance;
//! * [`decode`] turns the final amplitudes into characters;
//! * [`pipeline`] chains the stages on either side of the resampler.
//!
//! Amplitudes are fixed-point integers (see [`amplitude`]), so every stage is
//! exact and its contract is proved. The resampler itself works on floating
//! point and is called by the program around this library.

pub mod amplitude;
pub mod decode;
pub mod encode;
pub mod fit;
pub mod length;
pub mod pipeline;
