// Kinds of harmonic trap.
use vstd::prelude::*;

verus! {

/// Kind of harmonic trap found in a spectrum.
#[derive(Debug, Clone, Copy, PartialEq, Eq, Structural)]
pub enum TrapType {
    NoTrap,
    /// Phase shift above 90 degrees.
    PhaseInversion,
    /// A component at twice the frequency.
    FrequencyDoubling,
    /// A component at half the frequency.
    SubHarmonic,
    /// A flat spectrum.
    BroadbandNoise,
    /// An aliasing pattern.
    SpectralFold,
}

} // verus!
