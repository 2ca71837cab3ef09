use hft_stealth::config::constants::{
    JITTER_MAX_US, JITTER_MIN_US, MAX_TICK_TO_SIGNAL_LATENCY_NS, MAX_VOLUME, MIN_VOLUME,
    VOLUME_SCALE, ms_to_ns, ns_to_us, sec_to_ns, us_to_ns,
};
use hft_stealth::system::{MAX_LATENCY_NS, STAGE_BUDGETS_NS};

#[test]
fn test_constants() {
    assert_eq!(MAX_TICK_TO_SIGNAL_LATENCY_NS, 1_000_000);
    assert_eq!(MIN_VOLUME as f64 / VOLUME_SCALE as f64, 0.01);
    assert_eq!(MAX_VOLUME as f64 / VOLUME_SCALE as f64, 0.05);
    assert_eq!(JITTER_MIN_US, 50);
    assert_eq!(JITTER_MAX_US, 500);
}

#[test]
fn test_conversion_functions() {
    assert_eq!(us_to_ns(1000), 1_000_000);
    assert_eq!(ns_to_us(1_000_000), 1000);
    assert_eq!(ms_to_ns(1000), 1_000_000_000);
    assert_eq!(sec_to_ns(1), 1_000_000_000);
}

#[test]
fn conversion_round_trip_and_truncation() {
    assert_eq!(ns_to_us(us_to_ns(123_456)), 123_456);
    assert_eq!(ns_to_us(1_999), 1);
    assert_eq!(sec_to_ns(2), ms_to_ns(2_000));
}

#[test]
fn test_latency_budget() {
    assert!(MAX_LATENCY_NS == 1_000_000);
}

#[test]
fn stage_budgets_fit_the_cycle_budget() {
    let total: u64 = STAGE_BUDGETS_NS.iter().sum();
    assert_eq!(total, 1_000_000);
    assert!(total <= MAX_LATENCY_NS);
}
