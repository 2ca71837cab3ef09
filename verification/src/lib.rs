pub mod causality;
pub mod config;
pub mod execution;
pub mod io;
pub mod memory;
pub mod ml;
pub mod market;
pub mod monitoring;
pub mod signal;
pub mod support;
pub mod system;

use vstd::prelude::*;

verus! {

#[verifier::external_type_specification]
#[verifier::external_body]
pub struct ExIoError(std::io::Error);

/// A part of the system that can be started, stopped and asked for its
/// health.
pub trait Component {
    fn name(&self) -> &'static str;

    fn start(&mut self) -> Result<(), SystemError>;

    fn stop(&mut self) -> Result<(), SystemError>;

    fn health_check(&self) -> HealthStatus;
}

/// Failures of the system.
#[derive(Debug)]
pub enum SystemError {
    LatencyViolation(u64),
    RiskGateTriggered(String),
    IOError(std::io::Error),
    ConfigError(String),
    InferenceError(String),
    ExecutionRejected(String),
}

/// Checks a measured start-up latency against the cycle budget of
/// `system::MAX_LATENCY_NS`: a latency above it is a violation carrying
/// the measured value.
pub fn verify_latency_budget(latency_ns: u64) -> (r: Result<(), SystemError>)
    ensures
        match r {
            Ok(()) => latency_ns <= system::MAX_LATENCY_NS,
            Err(e) => latency_ns > system::MAX_LATENCY_NS && (e matches SystemError::LatencyViolation(
                ns,
            ) && ns == latency_ns),
        },
{
    if latency_ns > system::MAX_LATENCY_NS {
        return Err(SystemError::LatencyViolation(latency_ns));
    }
    Ok(())
}

/// Health of a component.
#[derive(Debug, Clone, Copy, PartialEq, Eq, Structural)]
pub enum HealthStatus {
    Healthy,
    Degraded,
    Unhealthy,
    Starting,
    Stopping,
}

} // verus!
