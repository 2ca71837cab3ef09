use std::collections::VecDeque;
use hft_stealth::ml::MLConfig;
use hft_stealth::ml::batch_inference::{BatchAssembler, BatchConfig, PendingRequest};
use hft_stealth::ml::jax_bridge::{JAXConfig, ModelStats};

#[test]
fn test_batch_engine() {
    // Requires model to test
}

#[test]
fn test_model_loading() {
    let config = JAXConfig::default();
    // Note: This requires actual model file
    // let model = JAXModel::load(config);
    // assert!(model.is_ok());
    let _ = config;
}

#[test]
fn config_defaults() {
    let c = JAXConfig::default();
    assert_eq!(c.model_path, "models/production.xla");
    assert_eq!(c.warmup_iterations, 10);
    let m = MLConfig::default();
    assert_eq!(m.batch_size, 32);
    assert_eq!(m.max_batch_delay_ns, 100_000);
    let b = BatchConfig::default();
    assert_eq!(b.max_batch_size, 32);
}

fn req(id: u64, priority: u8) -> PendingRequest {
    PendingRequest { id, priority, deadline_ns: 0, timestamp_ns: 0 }
}

#[test]
fn batches_fill_in_queue_order() {
    let config = BatchConfig { max_batch_size: 3, max_batch_delay_ns: 1_000, min_batch_size: 1, num_worker_threads: 1, enable_priority: true };
    let mut a = BatchAssembler::new(config);
    let mut q: VecDeque<PendingRequest> = (1..=5).map(|i| req(i, if i == 2 { 250 } else { 10 })).collect();
    assert!(a.step(&mut q, 100).is_none());
    let batch = a.step(&mut q, 150).unwrap();
    let ids: Vec<u64> = batch.requests.iter().map(|r| r.id).collect();
    assert_eq!(ids, vec![1, 2, 3]);
    assert_eq!(batch.created_at_ns, 100);
    assert_eq!(batch.id, 150);
    assert_eq!(q.len(), 2);
    assert!(a.step(&mut q, 200).is_none());
    let late = a.step(&mut q, 1_300).unwrap();
    let ids: Vec<u64> = late.requests.iter().map(|r| r.id).collect();
    assert_eq!(ids, vec![4, 5]);
}

#[test]
fn model_stats_track_latencies() {
    let mut s = ModelStats::default();
    assert_eq!(s.avg_latency_ns(), 0);
    s.record_success(300);
    s.record_success(100);
    s.record_failure();
    assert_eq!(s.inferences, 2);
    assert_eq!(s.failed_inferences, 1);
    assert_eq!(s.min_latency_ns, 100);
    assert_eq!(s.max_latency_ns, 300);
    assert_eq!(s.avg_latency_ns(), 200);
}
