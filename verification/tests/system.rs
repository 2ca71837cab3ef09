use hft_stealth::signal::mandra_gate::{GateState, GateTimer};
use hft_stealth::{verify_latency_budget, SystemError};
use hft_stealth::market::order_book::OrderBook;
use hft_stealth::market::tick::{Tick, TickType};
use hft_stealth::system::{
    signal_fires, CausalAnalyzer, ExecutionOrder, GateResult, RiskGateFlags, StealthExecutor, SystemStats, ZeroCopyRing,
};

#[test]
fn test_stealth_constraints() {
    let executor = StealthExecutor::new();

    // Valid execution: 0.03 lots, 09:00, 1.0 pip.
    let result = executor.gate_check(3_000_000, 9 * 3600, 10);
    assert!(matches!(result, GateResult::Open));

    // Invalid volume: 0.1 lots.
    let result = executor.gate_check(10_000_000, 9 * 3600, 10);
    assert!(matches!(result, GateResult::Closed(_)));

    // Invalid time: 03:00.
    let result = executor.gate_check(3_000_000, 3 * 3600, 10);
    assert!(matches!(result, GateResult::Closed(_)));
}

fn reason(r: GateResult) -> Option<String> {
    match r {
        GateResult::Closed(reason) => Some(reason),
        GateResult::Open => None,
    }
}

#[test]
fn gate_reasons() {
    let executor = StealthExecutor::new();
    assert_eq!(reason(executor.gate_check(500_000, 9 * 3600, 10)).as_deref(), Some("Volume out of range"));
    assert_eq!(reason(executor.gate_check(3_000_000, 12 * 3600, 10)).as_deref(), Some("Outside liquidity windows"));
    assert_eq!(
        reason(executor.gate_check(3_000_000, 14 * 3600, 20)).as_deref(),
        Some("Slippage out of acceptable range")
    );
    assert!(matches!(executor.gate_check(5_000_000, 15 * 3600 + 30 * 60, 15), GateResult::Open));
}

#[test]
fn execute_splits_into_fragments() {
    let mut executor = StealthExecutor::new();
    let mut book = OrderBook::new();
    book.update(&Tick { instrument_id: 1, price: 1_000_500, volume: 7, tick_type: TickType::Ask, timestamp_ns: 1 });
    book.update(&Tick { instrument_id: 1, price: 1_000_200, volume: 3, tick_type: TickType::Ask, timestamp_ns: 2 });
    let order = ExecutionOrder { volume: 3_000_000, price_limit: 0, side: 0, order_id: 1, timestamp_ns: 0 };
    let fragments = executor.execute(order, &book);
    assert!(fragments.len() >= 3 && fragments.len() <= 7);
    for f in &fragments {
        assert_eq!(f.volume, 3_000_000 / fragments.len() as u64);
        assert_eq!(f.price, 1_000_200);
        assert!(f.delay_us >= 50 && f.delay_us <= 500);
    }
    assert_eq!(executor.detection_probability_ppm(), 0);
}

#[test]
fn risk_gate_flags() {
    let none = RiskGateFlags { lambda1: false, lambda2: false, lambda3: false, lambda4: false, lambda5: false, lambda6: false };
    assert!(!none.triggered());
    let one = RiskGateFlags { lambda5: true, ..none };
    assert!(one.triggered());
}

#[test]
fn causal_analyzer_lags() {
    let a = CausalAnalyzer::new(5, 10, 3);
    assert_eq!(a.spearman_lags(), &vec![0, 1, 2, 3]);
    assert_eq!(a.get_var_order(), 5);
    assert_eq!(a.get_transfer_entropy_bins(), 10);
}

#[test]
fn ring_free_list_and_completions() {
    let mut ring = ZeroCopyRing::new(256, 4096 * 3 + 100);
    assert_eq!(ring.free_list, vec![2, 1, 0]);
    let cqes: Vec<(u64, i32)> = vec![(0, 512), (4096, 0), (8192, 64), (12288, -11)];
    let done = ring.complete(&cqes);
    assert_eq!(done, vec![(0, 512), (8192, 64)]);
    assert_eq!(ring.free_list, vec![2, 1, 0, 4096, 12288]);
    assert!(ring.complete(&Vec::new()).is_empty());
    assert_eq!(ZeroCopyRing::new(1, 4095).free_list, Vec::<usize>::new());
}

#[test]
fn cycle_statistics() {
    let mut stats = SystemStats::default();
    stats.record_risk_halt();
    assert_eq!(stats.risk_gate_triggers, 1);
    stats.record_trade();
    assert_eq!(stats.trades_executed, 1);
    assert!(!stats.finish_cycle(500_000));
    assert!(stats.finish_cycle(1_500_000));
    assert!(!stats.finish_cycle(1_000_000));
    assert_eq!(stats.latency_p99_ns, 1_500_000);
    assert_eq!(stats.signals_generated, 3);
    assert_eq!(stats.total_ticks_processed, 0);
    assert!(signal_fires(700_001));
    assert!(!signal_fires(700_000));
}

#[test]
fn latency_budget_violation_carries_the_latency() {
    assert!(verify_latency_budget(1_000_000).is_ok());
    assert!(verify_latency_budget(0).is_ok());
    assert!(matches!(verify_latency_budget(1_000_001), Err(SystemError::LatencyViolation(1_000_001))));
}

#[test]
fn gate_timer_cooldown_and_settling() {
    let mut t = GateTimer::new();
    assert!(!t.check_cooldown(10));
    assert_eq!(t.settle(true, 10, 5), GateState::Triggered);
    assert_eq!(t.trigger_count, 1);
    assert_eq!(t.last_trigger_time, 10);
    assert_eq!(t.cooldown_until, 5_000_010);
    assert!(t.check_cooldown(5_000_009));
    assert_eq!(t.state, GateState::Recovering);
    assert!(!t.check_cooldown(5_000_010));
    assert_eq!(t.settle(false, 5_000_010, 5), GateState::Idle);
    t.state = GateState::Triggered;
    assert_eq!(t.settle(false, 6_000_000, 5), GateState::Recovering);
    assert_eq!(t.trigger_count, 1);
}
