// Levels and kinds of detection risk.
use vstd::prelude::*;

verus! {

/// Detection risk level, from no risk to critical.
#[derive(Debug, Clone, Copy, PartialEq, Eq, Structural)]
pub enum DetectionRiskLevel {
    /// Probability about 0.
    NoRisk,
    /// Probability below 0.001.
    VeryLow,
    /// Probability below 0.005.
    Low,
    /// Probability below 0.01.
    Medium,
    /// Probability below 0.05.
    High,
    /// Probability below 0.10.
    VeryHigh,
    /// Probability 0.10 or more.
    Critical,
}

/// Position of a risk level on the scale, from 0 (NoRisk) to 6 (Critical).
pub open spec fn risk_rank(l: DetectionRiskLevel) -> nat {
    match l {
        DetectionRiskLevel::NoRisk => 0,
        DetectionRiskLevel::VeryLow => 1,
        DetectionRiskLevel::Low => 2,
        DetectionRiskLevel::Medium => 3,
        DetectionRiskLevel::High => 4,
        DetectionRiskLevel::VeryHigh => 5,
        DetectionRiskLevel::Critical => 6,
    }
}

impl DetectionRiskLevel {
    /// Position on the scale (see `risk_rank`).
    pub fn rank(&self) -> (r: u8)
        ensures
            r == risk_rank(*self),
    {
        match self {
            DetectionRiskLevel::NoRisk => 0,
            DetectionRiskLevel::VeryLow => 1,
            DetectionRiskLevel::Low => 2,
            DetectionRiskLevel::Medium => 3,
            DetectionRiskLevel::High => 4,
            DetectionRiskLevel::VeryHigh => 5,
            DetectionRiskLevel::Critical => 6,
        }
    }

    /// Whether this level is `other` or above it.
    pub fn at_least(&self, other: DetectionRiskLevel) -> (b: bool)
        ensures
            b == (risk_rank(*self) >= risk_rank(other)),
    {
        self.rank() >= other.rank()
    }
}

/// Kinds of detection event.
#[derive(Debug, Clone, Copy, PartialEq, Eq, Structural)]
pub enum DetectionEventType {
    /// A repeating pattern was found.
    PatternDetected,
    /// Unusual volume concentration.
    VolumeAnomaly,
    /// Regular timing was detected.
    TimingAnomaly,
    /// The order book was reconstructed.
    OrderBookInference,
    /// The exchange flagged activity.
    VenueFlag,
    /// Correlation with other traders.
    CorrelationDetected,
}

} // verus!
