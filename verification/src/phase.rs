//! The phase relationship between two waveforms.

use vstd::prelude::*;

verus! {

/// The phase relationship between two waveforms.
#[derive(Debug, Clone, Copy, PartialEq, Eq, Structural)]
pub enum PhaseRelation {
    /// First waveform leads the second (reaches peak earlier in time).
    Leading,
    /// First waveform lags the second.
    Lagging,
    /// Waveforms are in phase.
    InPhase,
    /// Waveforms are exactly 180° out of phase.
    AntiPhase,
}

} // verus!
