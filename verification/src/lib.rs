//! Parameter distribution and smoothing engine for a single-knob amplitude
//! effect.
//!
//! The crate owns the canonical control value (the [`plugin_state::PluginState`]
//! hub), fans updates out to independent consumers over FIFO queues
//! ([`channel::UpdateChannel`]), turns discrete updates into continuously
//! interpolated values ([`smoothed::SmoothedRange`]), and applies the smoothed
//! multiplier to audio blocks in fixed-size chunks ([`dsp::PluginDsp`]).
//!
//! All control values and samples are fixed-point integers: [`UNIT`]
//! represents 1.0. The host-facing shell converts to and from its own sample
//! format at the boundary.

use vstd::prelude::*;

pub mod channel;
pub mod dsp;
pub mod plugin_state;
pub mod smoothed;
pub mod text;

verus! {

/// Fixed-point scale: `UNIT` stands for the real value 1.0.
pub const UNIT: i64 = 1_000_000;

/// Fixed-point representation of 0.5, the knob position of unity gain.
pub const HALF_UNIT: i64 = 500_000;

/// Reciprocal of the smoothing factor: each smoothing step moves the value
/// 1/`SMOOTH_DIV` (= 0.005) of the remaining distance toward the target.
pub const SMOOTH_DIV: i64 = 200;

/// Once the distance to the target falls below this threshold (0.001), the
/// smoothed value snaps to the target exactly.
pub const SMOOTH_EPSILON: i64 = 1_000;

/// Number of samples per smoothing chunk: the filter advances one step per
/// chunk, and multipliers are interpolated across the chunk's samples.
pub const CHUNK: usize = 16;

/// Largest magnitude a control value may take. The valid knob range is
/// [0, `UNIT`], but out-of-range values are accepted and stored as-is; this
/// bound only keeps the fixed-point arithmetic free of overflow.
pub const VALUE_LIMIT: i64 = 1_000_000_000;

/// Largest magnitude an audio sample may take, in fixed-point units.
pub const SAMPLE_LIMIT: i64 = 1_000_000_000;

/// A control value the engine can do arithmetic on without overflow.
pub open spec fn fits(v: int) -> bool {
    -VALUE_LIMIT <= v <= VALUE_LIMIT
}

/// An amplitude multiplier derived from a control value (see
/// [`dsp::amp_of`]), or interpolated between two such multipliers.
pub open spec fn amp_fits(a: int) -> bool {
    -2 * VALUE_LIMIT <= a <= 2 * VALUE_LIMIT
}

/// An audio sample the engine can scale without overflow.
pub open spec fn sample_fits(s: int) -> bool {
    -SAMPLE_LIMIT <= s <= SAMPLE_LIMIT
}

} // verus!
