// System constants: latency budgets, trading windows, sizes, and the
// fixed-point scales in which the library counts volumes, prices and pips.
use vstd::prelude::*;

verus! {

/// Maximum allowed latency from tick to signal (1ms).
pub const MAX_TICK_TO_SIGNAL_LATENCY_NS: u64 = 1_000_000;

/// Total pipeline stage latency budget (1.9ms).
pub const TOTAL_STAGE_BUDGET_NS: u64 = 1_900_000;

/// Decode stage budget.
pub const STAGE1_BUDGET_NS: u64 = 200_000;

/// Normalize stage budget.
pub const STAGE2_BUDGET_NS: u64 = 300_000;

/// Risk stage budget.
pub const STAGE3_BUDGET_NS: u64 = 300_000;

/// Signal stage budget.
pub const STAGE4_BUDGET_NS: u64 = 200_000;

/// Volumes are counted in units of 1e-8 lots.
pub const VOLUME_SCALE: u64 = 100_000_000;

/// Prices are counted in units of 1e-4 (the order book's price key).
pub const PRICE_SCALE: u64 = 10_000;

/// Slippage is counted in tenths of a pip.
pub const PIP_SCALE: u64 = 10;

/// Minimum execution volume: 0.01 lots.
pub const MIN_VOLUME: u64 = 1_000_000;

/// Maximum execution volume: 0.05 lots.
pub const MAX_VOLUME: u64 = 5_000_000;

/// Minimum acceptable slippage: 0.5 pips.
pub const MIN_SLIPPAGE_PIPS: u64 = 5;

/// Maximum acceptable slippage: 1.5 pips.
pub const MAX_SLIPPAGE_PIPS: u64 = 15;

/// Lower bound of the execution jitter, in microseconds.
pub const JITTER_MIN_US: u64 = 50;

/// Upper bound of the execution jitter, in microseconds.
pub const JITTER_MAX_US: u64 = 500;

/// Minimum trade horizon (seconds).
pub const MIN_TRADE_HORIZON_SEC: u64 = 15;

/// Maximum trade horizon (seconds).
pub const MAX_TRADE_HORIZON_SEC: u64 = 180;

/// London trading window start (08:00 UTC), seconds after midnight.
pub const LONDON_WINDOW_START_SEC: u64 = 28_800;

/// London trading window end (10:00 UTC).
pub const LONDON_WINDOW_END_SEC: u64 = 36_000;

/// New York trading window start (13:30 UTC).
pub const NY_WINDOW_START_SEC: u64 = 48_600;

/// New York trading window end (15:30 UTC).
pub const NY_WINDOW_END_SEC: u64 = 55_800;

/// Default maximum time in a volatile regime (milliseconds).
pub const DEFAULT_TAU_MAX_MS: u64 = 500;

/// Default FFT size.
pub const DEFAULT_FFT_SIZE: usize = 256;

/// Maximum order book depth.
pub const MAX_BOOK_DEPTH: usize = 100;

/// Default number of price levels for features.
pub const DEFAULT_PRICE_LEVELS: usize = 10;

/// Cache line size (bytes).
pub const CACHE_LINE_SIZE: usize = 64;

/// Page size (bytes).
pub const PAGE_SIZE: usize = 4096;

/// Huge page size (bytes).
pub const HUGE_PAGE_SIZE: usize = 2_097_152;

/// Default ring buffer size (64MB).
pub const DEFAULT_RING_BUFFER_SIZE: usize = 67_108_864;

/// Default io_uring queue depth.
pub const DEFAULT_IO_URING_QUEUE_DEPTH: u32 = 4096;

/// Default socket receive buffer size (8MB).
pub const DEFAULT_RECV_BUFFER_SIZE: usize = 8_388_608;

/// Converts microseconds to nanoseconds.
pub fn us_to_ns(us: u64) -> (ns: u64)
    requires
        us * 1000 <= u64::MAX,
    ensures
        ns == us * 1000,
{
    us * 1000
}

/// Converts nanoseconds to microseconds, rounding down.
pub fn ns_to_us(ns: u64) -> (us: u64)
    ensures
        us == ns / 1000,
{
    ns / 1000
}

/// Converts milliseconds to nanoseconds.
pub fn ms_to_ns(ms: u64) -> (ns: u64)
    requires
        ms * 1_000_000 <= u64::MAX,
    ensures
        ns == ms * 1_000_000,
{
    ms * 1_000_000
}

/// Converts seconds to nanoseconds.
pub fn sec_to_ns(sec: u64) -> (ns: u64)
    requires
        sec * 1_000_000_000 <= u64::MAX,
    ensures
        ns == sec * 1_000_000_000,
{
    sec * 1_000_000_000
}

/// Round trip of the unit conversions: converting microseconds to
/// nanoseconds and back gives the same value.
pub proof fn law_us_ns_round_trip(us: u64)
    requires
        us * 1000 <= u64::MAX,
    ensures
        (us * 1000) / 1000 == us,
        ((us * 1000) as u64) / 1000 == us,
{
}

} // verus!
