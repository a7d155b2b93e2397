//! Core of a BS.1770 / EBU R128 loudness meter.
//!
//! The crate holds the deterministic engine of a loudness measurement:
//! a rolling history buffer, the polyphase oversampling interpolator built
//! on it, and the gated histogram statistics from which momentary,
//! short-term and integrated loudness and loudness range are derived.
//! Sample values reach the histogram as fixed-point energies, so every
//! rule of the two-stage gating algorithm is stated and checked here.

pub mod buffer;
pub mod histogram;
pub mod history;
pub mod interp;

pub use buffer::RollingBuffer;
pub use histogram::Histogram;
pub use history::BlockHistory;
pub use interp::{FrameAccumulator, InterpF};
