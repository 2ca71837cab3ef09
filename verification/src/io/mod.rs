// High-performance I/O: metrics, configuration, packet capture and rings.
pub mod io_uring;
pub mod packet_capture;
pub mod ring_buffer;

use vstd::prelude::*;

verus! {

/// Where packet timestamps come from.
#[derive(Debug, Clone, Copy, PartialEq, Eq, Structural)]
pub enum TimestampSource {
    Tsc,
}

/// I/O performance metrics.
#[derive(Debug, Clone)]
pub struct IOMetrics {
    pub packets_received: u64,
    pub bytes_received: u64,
    pub packets_dropped: u64,
    pub avg_latency_ns: u64,
    pub p99_latency_ns: u64,
    pub io_uring_submissions: u64,
    pub io_uring_completions: u64,
}

impl Default for IOMetrics {
    fn default() -> (m: Self)
        ensures
            m.packets_received == 0,
            m.bytes_received == 0,
            m.packets_dropped == 0,
            m.avg_latency_ns == 0,
            m.p99_latency_ns == 0,
            m.io_uring_submissions == 0,
            m.io_uring_completions == 0,
    {
        IOMetrics {
            packets_received: 0,
            bytes_received: 0,
            packets_dropped: 0,
            avg_latency_ns: 0,
            p99_latency_ns: 0,
            io_uring_submissions: 0,
            io_uring_completions: 0,
        }
    }
}

/// I/O configuration.
#[derive(Debug, Clone)]
pub struct IOConfig {
    pub io_uring_queue_depth: u32,
    pub ring_buffer_size: usize,
    pub use_huge_pages: bool,
    pub cpu_affinity: Option<usize>,
    pub numa_node: Option<usize>,
    pub receive_buffer_size: usize,
    pub timestamp_source: TimestampSource,
}

impl Default for IOConfig {
    fn default() -> (c: Self)
        ensures
            c.io_uring_queue_depth == 4096,
            c.ring_buffer_size == 67_108_864,
            c.use_huge_pages,
            c.cpu_affinity is None,
            c.numa_node is None,
            c.receive_buffer_size == 8_388_608,
            c.timestamp_source == TimestampSource::Tsc,
    {
        IOConfig {
            io_uring_queue_depth: 4096,
            ring_buffer_size: 67_108_864,
            use_huge_pages: true,
            cpu_affinity: None,
            numa_node: None,
            receive_buffer_size: 8_388_608,
            timestamp_source: TimestampSource::Tsc,
        }
    }
}

/// Adds a batch of received packets to `metrics`: the counters grow, the
/// peak latency becomes the larger of the two, and the average moves 1% of
/// the way toward `latency_ns` (integer arithmetic, truncating).
pub fn record_io_metrics(metrics: &mut IOMetrics, packets: u64, bytes: u64, latency_ns: u64)
    requires
        old(metrics).packets_received + packets <= u64::MAX,
        old(metrics).bytes_received + bytes <= u64::MAX,
        old(metrics).avg_latency_ns * 99 <= u64::MAX,
    ensures
        final(metrics).packets_received == old(metrics).packets_received + packets,
        final(metrics).bytes_received == old(metrics).bytes_received + bytes,
        final(metrics).p99_latency_ns == if latency_ns > old(metrics).p99_latency_ns {
            latency_ns
        } else {
            old(metrics).p99_latency_ns
        },
        final(metrics).avg_latency_ns == old(metrics).avg_latency_ns * 99 / 100 + latency_ns / 100,
        final(metrics).packets_dropped == old(metrics).packets_dropped,
        final(metrics).io_uring_submissions == old(metrics).io_uring_submissions,
        final(metrics).io_uring_completions == old(metrics).io_uring_completions,
{
    metrics.packets_received = metrics.packets_received + packets;
    metrics.bytes_received = metrics.bytes_received + bytes;
    if latency_ns > metrics.p99_latency_ns {
        metrics.p99_latency_ns = latency_ns;
    }
    let scaled = metrics.avg_latency_ns * 99 / 100;
    assert(scaled <= u64::MAX / 100) by (nonlinear_arith)
        requires
            scaled == metrics.avg_latency_ns * 99 / 100,
            metrics.avg_latency_ns * 99 <= u64::MAX,
    ;
    metrics.avg_latency_ns = scaled + latency_ns / 100;
}

} // verus!
