// Signal processing: spectral windows, the energy gate's states, harmonic
// trap kinds.
pub mod armonic_detector;
pub mod mandra_gate;

use vstd::prelude::*;

verus! {

/// Window applied to a frame before a spectral transform.
#[derive(Debug, Clone, Copy, PartialEq, Eq, Structural)]
pub enum WindowType {
    Rectangular,
    Hanning,
    Hamming,
    Blackman,
    BlackmanHarris,
    FlatTop,
}

} // verus!
