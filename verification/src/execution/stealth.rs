// Execution profiles and detection risk of the stealth executor.
use vstd::prelude::*;

verus! {

/// Execution profile.
#[derive(Debug, Clone, Copy, PartialEq, Eq, Structural)]
pub enum ExecutionProfile {
    /// Maximum stealth, slower execution.
    Stealth,
    /// Faster execution, higher detection risk.
    Aggressive,
    /// Adapts to market conditions.
    Adaptive,
    /// Only passive orders.
    Passive,
    /// Iceberg orders only.
    Iceberg,
}

/// Detection risk.
#[derive(Debug, Clone, Copy, PartialEq, Eq, Structural)]
pub enum DetectionRisk {
    /// Probability about 0.
    Negligible,
    /// Probability below 0.01.
    Low,
    /// Probability below 0.05.
    Medium,
    /// Probability below 0.10.
    High,
    /// Probability above 0.10.
    Critical,
}

} // verus!
