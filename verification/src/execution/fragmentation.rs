// How orders are split into fragments.
use vstd::prelude::*;

verus! {

/// Fragment strategy.
#[derive(Debug, Clone, Copy, PartialEq, Eq, Structural)]
pub enum FragmentStrategy {
    /// Equal-sized fragments.
    Uniform,
    /// Geometrically decreasing sizes.
    Geometric,
    /// Random sizes.
    Random,
    /// Sizes based on market liquidity.
    Adaptive,
    /// Poisson-distributed sizes.
    Poisson,
}

} // verus!
