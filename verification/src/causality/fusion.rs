// Methods of fusing causal signals.
use vstd::prelude::*;

verus! {

/// How signals are fused.
#[derive(Debug, Clone, Copy, PartialEq, Eq, Structural)]
pub enum FusionMethod {
    /// Plain average.
    Simple,
    /// Fixed weights.
    Weighted,
    /// Weights adapted to past performance.
    Adaptive,
    /// Bayesian model averaging.
    Bayesian,
    /// Kalman filter fusion.
    Kalman,
}

} // verus!
