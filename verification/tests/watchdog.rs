use hft_stealth::monitoring::latency_watchdog::{
    BreachSeverity, LatencyMonitor, LatencyWatchdog, SlidingWindow, WatchdogConfig,
};

#[test]
fn test_latency_watchdog() {
    let config = WatchdogConfig {
        latency_threshold_ns: 1_000_000,
        window_size_secs: 10,
        breach_threshold: 3,
        ..Default::default()
    };

    let mut watchdog = LatencyWatchdog::new(config);

    for _ in 0..10 {
        watchdog.record_latency("pipeline", 500_000);
    }

    assert!(watchdog.is_healthy());

    for _ in 0..5 {
        watchdog.record_latency("pipeline", 2_000_000);
    }

    assert!(!watchdog.is_healthy());

    let stats = watchdog.stats();
    assert!(stats.total_breaches >= 5);
    assert!(stats.p99_latency_ns > 1_000_000);
}

#[test]
fn breaches_are_classified_and_health_needs_reset() {
    let config = WatchdogConfig { latency_threshold_ns: 1_000, window_size_secs: 1, breach_threshold: 2, ..Default::default() };
    let mut w = LatencyWatchdog::new(config);
    w.record_latency_at("op", 1_400, 5_000_000_000);
    assert!(w.is_healthy());
    w.record_latency_at("op", 2_001, 5_000_000_001);
    assert!(!w.is_healthy());
    let recent = w.recent_breaches(10);
    assert_eq!(recent.len(), 2);
    assert_eq!(recent[0].severity, BreachSeverity::Emergency);
    assert_eq!(recent[1].severity, BreachSeverity::Warning);
    w.record_latency_at("op", 10, 5_000_000_002);
    assert!(!w.is_healthy());
    w.reset();
    assert!(w.is_healthy());
    assert_eq!(w.stats().total_samples, 0);
}

#[test]
fn watchdog_window_drops_old_samples() {
    let config = WatchdogConfig { latency_threshold_ns: 1_000_000, window_size_secs: 1, ..Default::default() };
    let mut w = LatencyWatchdog::new(config);
    w.record_latency_at("op", 10, 1_000_000_000);
    w.record_latency_at("op", 30, 1_500_000_000);
    w.record_latency_at("op", 50, 2_600_000_000);
    let stats = w.stats();
    assert_eq!(stats.total_samples, 1);
    assert_eq!(stats.avg_latency_ns, 50);
    assert_eq!(w.p99_latency("op"), 50);
}

#[test]
fn latency_monitor_tracks_first_matching_window() {
    let config = WatchdogConfig { window_size_secs: 1, ..Default::default() };
    let mut m = LatencyMonitor::new(config, vec!["fill".to_string(), "route".to_string()]);
    for i in 1..=100u64 {
        m.record_at("route", i, 10 + i);
    }
    m.record_at("other", 5, 200);
    assert_eq!(m.get_p99("route"), 100);
    assert_eq!(m.get_p99("fill"), 0);
    assert_eq!(m.get_p99("other"), 0);
}

#[test]
fn sliding_window_cleanup() {
    let mut w = SlidingWindow::new("x".to_string(), 100);
    w.add(1, 1_000);
    w.add(2, 1_050);
    w.add(3, 1_150);
    assert_eq!(w.p99(), 3);
    w.cleanup(10_000);
    assert_eq!(w.p99(), 0);
}

#[test]
fn clock_recorded_breaches_cost_health() {
    let config = WatchdogConfig { latency_threshold_ns: 1_000, window_size_secs: 60, breach_threshold: 2, ..Default::default() };
    let mut w = LatencyWatchdog::new(config);
    w.record_latency("op", 500);
    assert!(w.is_healthy());
    w.record_latency("op", 1_500);
    assert!(w.is_healthy());
    w.record_latency("op", 1_600);
    assert!(!w.is_healthy());
    assert_eq!(w.recent_breaches(10).len(), 2);
    assert_eq!(w.stats().total_samples, 3);
}
