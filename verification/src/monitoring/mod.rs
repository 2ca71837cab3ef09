// Monitoring: alerts and escalation, latency watchdog, health checks,
// detection risk levels.
pub mod alerts;
pub mod detection_tracker;
pub mod health_check;
pub mod latency_watchdog;
