use hft_stealth::Component;
use hft_stealth::market::{record_tick, TICK_HISTORY_LIMIT};
use std::collections::VecDeque;
use hft_stealth::market::depth::{DepthLevel, DepthProfile};
use hft_stealth::io::packet_capture::PacketCapture;
use hft_stealth::io::ring_buffer::MPSCRingBuffer;
use hft_stealth::io::{record_io_metrics, IOMetrics};
use hft_stealth::market::order_book::OrderBook;
use hft_stealth::market::tick::{Tick, TickType};
use hft_stealth::monitoring::detection_tracker::DetectionRiskLevel;
use hft_stealth::monitoring::health_check::{HealthChecker, HealthStatus};
use hft_stealth::support::p99_of;

fn tick(price: u64, volume: u64, tick_type: TickType) -> Tick {
    Tick { instrument_id: 1, price, volume, tick_type, timestamp_ns: 9 }
}

#[test]
fn order_book_levels_and_undo() {
    let mut book = OrderBook::new();
    book.update(&tick(100, 5, TickType::Bid));
    book.update(&tick(105, 2, TickType::Bid));
    book.update(&tick(110, 4, TickType::Ask));
    assert_eq!(book.best_bid(), 105);
    assert_eq!(book.best_ask(), 110);
    book.update(&tick(105, 0, TickType::Bid));
    assert_eq!(book.best_bid(), 100);
    let (bids, asks) = book.top_levels(5);
    assert_eq!(bids, vec![(100, 5)]);
    assert_eq!(asks, vec![(110, 4)]);
    book.update(&tick(107, 1, TickType::Trade));
    assert_eq!(book.last_price, 107);
    assert_eq!(book.timestamp_ns, 9);
}

#[test]
fn ring_reads_back_frames_in_order() {
    let mut ring = MPSCRingBuffer::new(64);
    let mut reader = ring.reader();
    assert!(ring.try_write(&[1, 2, 3]));
    assert!(ring.try_write(&[4]));
    assert!(!ring.try_write(&[0u8; 60]));
    let mut out = Vec::new();
    assert!(reader.read(&mut ring, &mut out));
    assert_eq!(out, vec![1, 2, 3]);
    assert!(reader.read(&mut ring, &mut out));
    assert_eq!(out, vec![4]);
    assert!(!reader.read(&mut ring, &mut out));
}

#[test]
fn packet_capture_starts_stopped() {
    let capture = PacketCapture::new().unwrap();
    assert!(!capture.running);
    assert_eq!(capture.name(), "PacketCapture");
}

#[test]
fn io_metrics_accumulate() {
    let mut m = IOMetrics::default();
    record_io_metrics(&mut m, 3, 300, 1_000);
    assert_eq!(m.packets_received, 3);
    assert_eq!(m.bytes_received, 300);
}

#[test]
fn p99_picks_from_sorted_values() {
    assert_eq!(p99_of(vec![]), 0);
    assert_eq!(p99_of(vec![5, 1, 3]), 5);
    let v: Vec<u64> = (1..=200).rev().collect();
    assert_eq!(p99_of(v), 199);
}

#[test]
fn health_and_risk_levels() {
    assert_eq!(HealthChecker::new().overall_status(), HealthStatus::Healthy);
    assert!(DetectionRiskLevel::High.at_least(DetectionRiskLevel::Medium));
    assert!(!DetectionRiskLevel::NoRisk.at_least(DetectionRiskLevel::VeryLow));
}

#[test]
fn depth_profile_accumulates_volumes() {
    let mut book = OrderBook::new();
    book.update(&tick(100, 5, TickType::Bid));
    book.update(&tick(105, 2, TickType::Bid));
    book.update(&tick(99, 7, TickType::Bid));
    book.update(&tick(110, 4, TickType::Ask));
    book.update(&tick(112, 3, TickType::Ask));
    let p = DepthProfile::from_book(&book, 2);
    assert_eq!(p.instrument_id, 0);
    assert_eq!(p.timestamp_ns, 9);
    assert_eq!(p.imbalance_ppm, 0);
    assert_eq!(
        p.bids,
        vec![
            DepthLevel { price: 105, volume: 2, cumulative_volume: 2, order_count: 0 },
            DepthLevel { price: 100, volume: 5, cumulative_volume: 7, order_count: 0 },
        ]
    );
    assert_eq!(
        p.asks,
        vec![
            DepthLevel { price: 110, volume: 4, cumulative_volume: 4, order_count: 0 },
            DepthLevel { price: 112, volume: 3, cumulative_volume: 7, order_count: 0 },
        ]
    );
    let empty = DepthProfile::from_book(&OrderBook::new(), 3);
    assert!(empty.bids.is_empty() && empty.asks.is_empty());
}

#[test]
fn tick_history_keeps_the_latest_ticks() {
    let mut history: VecDeque<Tick> = VecDeque::new();
    record_tick(&mut history, tick(1, 1, TickType::Trade));
    record_tick(&mut history, tick(2, 1, TickType::Trade));
    assert_eq!(history.iter().map(|t| t.price).collect::<Vec<u64>>(), vec![1, 2]);
    for p in 3..=(TICK_HISTORY_LIMIT as u64 + 5) {
        record_tick(&mut history, tick(p, 1, TickType::Trade));
    }
    assert_eq!(history.len(), TICK_HISTORY_LIMIT);
    assert_eq!(history.front().unwrap().price, 6);
    assert_eq!(history.back().unwrap().price, TICK_HISTORY_LIMIT as u64 + 5);
}
