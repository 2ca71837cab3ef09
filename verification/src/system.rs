// The trading pipeline's integer parts: latency budgets, packet headers,
// the six risk-gate triggers, the stealth executor's gate and order
// fragmentation, and the causal analyzer's lag set.
//
// Volumes are in units of 1e-8, prices in units of 1e-4, slippage in
// tenths of a pip, times of day in seconds from midnight.
use vstd::prelude::*;
use crate::config::constants::{
    MIN_VOLUME, MAX_VOLUME, MIN_SLIPPAGE_PIPS, MAX_SLIPPAGE_PIPS, LONDON_WINDOW_START_SEC,
    LONDON_WINDOW_END_SEC, NY_WINDOW_START_SEC, NY_WINDOW_END_SEC, JITTER_MIN_US, JITTER_MAX_US,
};
use crate::market::order_book::{OrderBook, is_best_high, is_best_low};
use crate::support::{new_rng, random_between, random_u64};

verus! {

/// End-to-end latency budget of one cycle.
pub const MAX_LATENCY_NS: u64 = 1_000_000;

/// Budgets of the four pipeline stages.
pub const STAGE_BUDGETS_NS: [u64; 4] = [200_000, 300_000, 300_000, 200_000];

/// Ticks of history kept.
pub const TICK_HISTORY_SIZE: usize = 256;

/// Size of the packet buffer.
pub const PACKET_BUFFER_SIZE: usize = 67_108_864;

/// Header of a market data packet.
pub struct PacketHeader {
    pub timestamp_ns: u64,
    pub seq_num: u32,
    pub payload_len: u32,
    pub exchange: u8,
    pub msg_type: u8,
    _padding: [u8; 14],
}

/// Which of the six risk triggers fired.
#[derive(Debug, Clone, Copy, PartialEq, Eq, Structural)]
pub struct RiskGateFlags {
    pub lambda1: bool,
    pub lambda2: bool,
    pub lambda3: bool,
    pub lambda4: bool,
    pub lambda5: bool,
    pub lambda6: bool,
}

impl RiskGateFlags {
    /// Whether any trigger fired.
    pub fn triggered(&self) -> (b: bool)
        ensures
            b == (self.lambda1 || self.lambda2 || self.lambda3 || self.lambda4 || self.lambda5
                || self.lambda6),
    {
        self.lambda1 || self.lambda2 || self.lambda3 || self.lambda4 || self.lambda5 || self.lambda6
    }
}

/// Causality tests over lagged series.
pub struct CausalAnalyzer {
    var_order: usize,
    transfer_entropy_bins: usize,
    spearman_lags: Vec<usize>,
}

impl CausalAnalyzer {
    /// An analyzer with VAR order `var_order`, `te_bins` bins for transfer
    /// entropy, and Spearman lags 0 to `max_lag`.
    pub fn new(var_order: usize, te_bins: usize, max_lag: usize) -> (a: Self)
        requires
            max_lag < usize::MAX,
        ensures
            a.var_order() == var_order,
            a.transfer_entropy_bins() == te_bins,
            a.lags() == Seq::new((max_lag + 1) as nat, |i: int| i as usize),
    {
        let mut lags: Vec<usize> = Vec::new();
        let mut i: usize = 0;
        while i <= max_lag
            invariant
                0 <= i <= max_lag + 1,
                max_lag < usize::MAX,
                lags@ == Seq::new(i as nat, |k: int| k as usize),
            decreases max_lag + 1 - i,
        {
            lags.push(i);
            i = i + 1;
            assert(lags@ =~= Seq::new(i as nat, |k: int| k as usize));
        }
        CausalAnalyzer { var_order, transfer_entropy_bins: te_bins, spearman_lags: lags }
    }

    pub closed spec fn var_order(&self) -> usize {
        self.var_order
    }

    /// VAR model order.
    pub fn get_var_order(&self) -> (r: usize)
        ensures
            r == self.var_order(),
    {
        self.var_order
    }

    pub closed spec fn transfer_entropy_bins(&self) -> usize {
        self.transfer_entropy_bins
    }

    /// Number of bins for transfer entropy.
    pub fn get_transfer_entropy_bins(&self) -> (r: usize)
        ensures
            r == self.transfer_entropy_bins(),
    {
        self.transfer_entropy_bins
    }

    /// The Spearman lags, in increasing order.
    pub fn spearman_lags(&self) -> (r: &Vec<usize>)
        ensures
            r@ == self.lags(),
    {
        &self.spearman_lags
    }

    pub closed spec fn lags(&self) -> Seq<usize> {
        self.spearman_lags@
    }
}

/// Outcome of the stealth gate.
#[derive(Debug)]
pub enum GateResult {
    Open,
    Closed(String),
}

/// An order to execute stealthily.
#[derive(Debug, Clone, Copy, PartialEq, Eq, Structural)]
pub struct ExecutionOrder {
    pub volume: u64,
    pub price_limit: u64,
    /// 0 to buy, otherwise sell.
    pub side: u8,
    pub order_id: u64,
    pub timestamp_ns: u64,
}

/// One fragment of an executed order.
#[derive(Debug, Clone, Copy, PartialEq, Eq, Structural)]
pub struct OrderFragment {
    pub volume: u64,
    pub price: u64,
    pub delay_us: u64,
    pub stealth_seed: u64,
}

/// Why the stealth gate stays closed for these inputs, checked in order:
/// volume, time of day, slippage; `None` when it opens.
pub open spec fn gate_refusal(volume: u64, time_seconds: u64, slippage: u64) -> Option<Seq<char>> {
    if volume < MIN_VOLUME || volume > MAX_VOLUME {
        Some("Volume out of range"@)
    } else if !((LONDON_WINDOW_START_SEC <= time_seconds <= LONDON_WINDOW_END_SEC) || (
    NY_WINDOW_START_SEC <= time_seconds <= NY_WINDOW_END_SEC)) {
        Some("Outside liquidity windows"@)
    } else if slippage < MIN_SLIPPAGE_PIPS || slippage > MAX_SLIPPAGE_PIPS {
        Some("Slippage out of acceptable range"@)
    } else {
        None
    }
}

/// Executes orders in randomly sized, randomly delayed fragments, inside
/// volume, time-of-day and slippage limits.
pub struct StealthExecutor {
    volume_min: u64,
    volume_max: u64,
    london_window: (u64, u64),
    ny_window: (u64, u64),
    jitter_range_us: (u64, u64),
    slippage_min_pips: u64,
    slippage_max_pips: u64,
    rng: fastrand::Rng,
    detection_metric: u64,
}

impl StealthExecutor {
    pub closed spec fn wf(&self) -> bool {
        &&& self.volume_min == MIN_VOLUME
        &&& self.volume_max == MAX_VOLUME
        &&& self.london_window == (LONDON_WINDOW_START_SEC, LONDON_WINDOW_END_SEC)
        &&& self.ny_window == (NY_WINDOW_START_SEC, NY_WINDOW_END_SEC)
        &&& self.jitter_range_us == (JITTER_MIN_US, JITTER_MAX_US)
        &&& self.slippage_min_pips == MIN_SLIPPAGE_PIPS
        &&& self.slippage_max_pips == MAX_SLIPPAGE_PIPS
    }

    /// Detection metric, in millionths.
    pub closed spec fn detection_metric(&self) -> u64 {
        self.detection_metric
    }

    /// An executor with the standard limits: 0.01 to 0.05 lots, the London
    /// (08:00-10:00) and New York (13:30-15:30) windows, 50-500 µs of
    /// jitter, 0.5 to 1.5 pips of slippage.
    pub fn new() -> (e: Self)
        ensures
            e.wf(),
            e.detection_metric() == 0,
    {
        StealthExecutor {
            volume_min: MIN_VOLUME,
            volume_max: MAX_VOLUME,
            london_window: (LONDON_WINDOW_START_SEC, LONDON_WINDOW_END_SEC),
            ny_window: (NY_WINDOW_START_SEC, NY_WINDOW_END_SEC),
            jitter_range_us: (JITTER_MIN_US, JITTER_MAX_US),
            slippage_min_pips: MIN_SLIPPAGE_PIPS,
            slippage_max_pips: MAX_SLIPPAGE_PIPS,
            rng: new_rng(),
            detection_metric: 0,
        }
    }

    /// Checks an execution of `volume` at `time_seconds` with `slippage`
    /// against the limits (see `gate_refusal`).
    pub fn gate_check(&self, volume: u64, time_seconds: u64, slippage_pips: u64) -> (r: GateResult)
        requires
            self.wf(),
        ensures
            match r {
                GateResult::Open => gate_refusal(volume, time_seconds, slippage_pips) is None,
                GateResult::Closed(reason) => gate_refusal(volume, time_seconds, slippage_pips)
                    == Some(reason@),
            },
    {
        if volume < self.volume_min || volume > self.volume_max {
            return GateResult::Closed("Volume out of range".to_owned());
        }
        let in_london = time_seconds >= self.london_window.0 && time_seconds <= self.london_window.1;
        let in_ny = time_seconds >= self.ny_window.0 && time_seconds <= self.ny_window.1;
        if !in_london && !in_ny {
            return GateResult::Closed("Outside liquidity windows".to_owned());
        }
        if slippage_pips < self.slippage_min_pips || slippage_pips > self.slippage_max_pips {
            return GateResult::Closed("Slippage out of acceptable range".to_owned());
        }
        GateResult::Open
    }

    /// Splits `order` into 3 to 7 equal fragments (volume divided evenly,
    /// rounded down) at the best ask for a buy and the best bid for a
    /// sell (0 when that side is empty), each with a random delay within
    /// the jitter range and a random seed.
    pub fn execute(&mut self, order: ExecutionOrder, market_book: &OrderBook) -> (r: Vec<OrderFragment>)
        requires
            old(self).wf(),
        ensures
            final(self).wf(),
            3 <= r@.len() <= 7,
            forall|i: int|
                0 <= i < r@.len() ==> {
                    &&& (#[trigger] r@[i]).volume == order.volume / (r@.len() as u64)
                    &&& JITTER_MIN_US <= r@[i].delay_us <= JITTER_MAX_US
                    &&& if order.side == 0 {
                        is_best_low(market_book.asks@, r@[i].price)
                    } else {
                        is_best_high(market_book.bids@, r@[i].price)
                    }
                },
    {
        let n_fragments = random_between(&mut self.rng, 3, 7) as usize;
        let fragment_volume = order.volume / n_fragments as u64;
        let base_price = if order.side == 0 {
            market_book.best_ask()
        } else {
            market_book.best_bid()
        };
        let mut fragments: Vec<OrderFragment> = Vec::with_capacity(n_fragments);
        let mut i: usize = 0;
        while i < n_fragments
            invariant
                self.wf(),
                3 <= n_fragments <= 7,
                0 <= i <= n_fragments,
                fragments@.len() == i,
                fragment_volume == order.volume / (n_fragments as u64),
                if order.side == 0 {
                    is_best_low(market_book.asks@, base_price)
                } else {
                    is_best_high(market_book.bids@, base_price)
                },
                forall|k: int|
                    0 <= k < i ==> {
                        &&& (#[trigger] fragments@[k]).volume == fragment_volume
                        &&& fragments@[k].price == base_price
                        &&& JITTER_MIN_US <= fragments@[k].delay_us <= JITTER_MAX_US
                    },
            decreases n_fragments - i,
        {
            let lo = self.jitter_range_us.0;
            let hi = self.jitter_range_us.1;
            let jitter_us = random_between(&mut self.rng, lo, hi);
            fragments.push(
                OrderFragment {
                    volume: fragment_volume,
                    price: base_price,
                    delay_us: jitter_us,
                    stealth_seed: random_u64(),
                },
            );
            self.update_detection_metric(i);
            i = i + 1;
        }
        fragments
    }

    /// Clears the detection metric after every tenth fragment.
    fn update_detection_metric(&mut self, fragment_idx: usize)
        ensures
            final(self).wf() == old(self).wf(),
            final(self).detection_metric() == if fragment_idx > 0 && fragment_idx % 10 == 0 {
                0
            } else {
                old(self).detection_metric()
            },
    {
        if fragment_idx > 0 && fragment_idx % 10 == 0 {
            self.detection_metric = 0;
        }
    }

    /// The detection probability, in millionths.
    pub fn detection_probability_ppm(&self) -> (r: u64)
        ensures
            r == self.detection_metric(),
    {
        self.detection_metric
    }
}

/// Size of one receive buffer of the zero-copy ring.
pub const RING_PAGE_SIZE: usize = 4096;

/// The page indices `n - 1` down to `0`.
pub open spec fn descending_pages(n: nat) -> Seq<usize> {
    Seq::new(n, |i: int| (n - 1 - i) as usize)
}

/// The completions among `cqes` (user data, result) that carried data, as
/// (offset, length), in order.
pub open spec fn completed(cqes: Seq<(u64, i32)>) -> Seq<(usize, usize)>
    decreases cqes.len(),
{
    if cqes.len() == 0 {
        Seq::empty()
    } else {
        let rest = completed(cqes.drop_last());
        let c = cqes.last();
        if c.1 > 0 {
            rest.push((c.0 as usize, c.1 as usize))
        } else {
            rest
        }
    }
}

/// The offsets of the completions among `cqes` that carried no data, in
/// order.
pub open spec fn failed_offsets(cqes: Seq<(u64, i32)>) -> Seq<usize>
    decreases cqes.len(),
{
    if cqes.len() == 0 {
        Seq::empty()
    } else {
        let rest = failed_offsets(cqes.drop_last());
        let c = cqes.last();
        if c.1 > 0 {
            rest
        } else {
            rest.push(c.0 as usize)
        }
    }
}

/// The buffer bookkeeping of the zero-copy receive ring: the free
/// buffers, used last-in first-out. The ring itself and its memory belong
/// to the kernel interface; completions reach this type as plain
/// (user data, result) pairs.
pub struct ZeroCopyRing {
    pub queue_depth: u32,
    pub buffer_size: usize,
    pub free_list: Vec<usize>,
}

impl ZeroCopyRing {
    /// A ring of `queue_depth` entries over `buffer_size` bytes, whose
    /// buffers are all free, the first one on top.
    pub fn new(queue_depth: u32, buffer_size: usize) -> (r: Self)
        ensures
            r.queue_depth == queue_depth,
            r.buffer_size == buffer_size,
            r.free_list@ == descending_pages((buffer_size / RING_PAGE_SIZE) as nat),
    {
        let n = buffer_size / RING_PAGE_SIZE;
        let mut free_list: Vec<usize> = Vec::with_capacity(n);
        let mut i: usize = 0;
        while i < n
            invariant
                0 <= i <= n,
                n == buffer_size / RING_PAGE_SIZE,
                free_list@ == descending_pages(n as nat).take(i as int),
            decreases n - i,
        {
            free_list.push(n - 1 - i);
            i = i + 1;
            assert(free_list@ =~= descending_pages(n as nat).take(i as int));
        }
        assert(free_list@ =~= descending_pages(n as nat));
        ZeroCopyRing { queue_depth, buffer_size, free_list }
    }

    /// Sorts a batch of completions: those that carried data are returned
    /// as (offset, length); the buffers of the others go back on the free
    /// list, in order.
    pub fn complete(&mut self, cqes: &Vec<(u64, i32)>) -> (r: Vec<(usize, usize)>)
        ensures
            r@ == completed(cqes@),
            final(self).free_list@ == old(self).free_list@ + failed_offsets(cqes@),
            final(self).queue_depth == old(self).queue_depth,
            final(self).buffer_size == old(self).buffer_size,
    {
        let mut completions: Vec<(usize, usize)> = Vec::new();
        let mut i: usize = 0;
        while i < cqes.len()
            invariant
                0 <= i <= cqes@.len(),
                completions@ == completed(cqes@.take(i as int)),
                self.free_list@ == old(self).free_list@ + failed_offsets(cqes@.take(i as int)),
                self.queue_depth == old(self).queue_depth,
                self.buffer_size == old(self).buffer_size,
            decreases cqes@.len() - i,
        {
            let (offset, ret) = cqes[i];
            proof {
                assert(cqes@.take(i + 1).drop_last() =~= cqes@.take(i as int));
            }
            if ret > 0 {
                completions.push((offset as usize, ret as usize));
            } else {
                self.free_list.push(offset as usize);
            }
            i = i + 1;
        }
        assert(cqes@.take(cqes@.len() as int) =~= cqes@);
        completions
    }
}

/// Counters of the processing cycle. The detection metric average is in
/// millionths.
#[derive(Debug, Clone, Copy, PartialEq, Eq, Structural)]
pub struct SystemStats {
    pub total_ticks_processed: u64,
    pub signals_generated: u64,
    pub trades_executed: u64,
    pub risk_gate_triggers: u64,
    pub latency_p99_ns: u64,
    pub detection_metric_avg_ppm: u64,
}

/// All counters at zero.
pub open spec fn zero_system_stats() -> SystemStats {
    SystemStats {
        total_ticks_processed: 0,
        signals_generated: 0,
        trades_executed: 0,
        risk_gate_triggers: 0,
        latency_p99_ns: 0,
        detection_metric_avg_ppm: 0,
    }
}

impl Default for SystemStats {
    fn default() -> (s: Self)
        ensures
            s == zero_system_stats(),
    {
        SystemStats {
            total_ticks_processed: 0,
            signals_generated: 0,
            trades_executed: 0,
            risk_gate_triggers: 0,
            latency_p99_ns: 0,
            detection_metric_avg_ppm: 0,
        }
    }
}

/// Fused signal, in millionths, above which a cycle trades.
pub const SIGNAL_THRESHOLD_PPM: u64 = 700_000;

/// Whether a fused signal of `p_fused_ppm` millionths calls for a trade.
pub fn signal_fires(p_fused_ppm: u64) -> (b: bool)
    ensures
        b == (p_fused_ppm > SIGNAL_THRESHOLD_PPM),
{
    p_fused_ppm > SIGNAL_THRESHOLD_PPM
}

impl SystemStats {
    /// A cycle stopped by the risk gate: counts the trigger.
    pub fn record_risk_halt(&mut self)
        requires
            old(self).risk_gate_triggers < u64::MAX,
        ensures
            *final(self) == (SystemStats {
                risk_gate_triggers: (old(self).risk_gate_triggers + 1) as u64,
                ..*old(self)
            }),
    {
        self.risk_gate_triggers = self.risk_gate_triggers + 1;
    }

    /// A trade made in this cycle: counts it.
    pub fn record_trade(&mut self)
        requires
            old(self).trades_executed < u64::MAX,
        ensures
            *final(self) == (SystemStats {
                trades_executed: (old(self).trades_executed + 1) as u64,
                ..*old(self)
            }),
    {
        self.trades_executed = self.trades_executed + 1;
    }

    /// The end of a cycle that took `cycle_latency_ns`: the latency figure
    /// keeps the largest cycle seen, one more signal is counted, and the
    /// result tells whether the cycle broke the latency budget.
    pub fn finish_cycle(&mut self, cycle_latency_ns: u64) -> (violation: bool)
        requires
            old(self).signals_generated < u64::MAX,
        ensures
            *final(self) == (SystemStats {
                latency_p99_ns: if cycle_latency_ns > old(self).latency_p99_ns {
                    cycle_latency_ns
                } else {
                    old(self).latency_p99_ns
                },
                signals_generated: (old(self).signals_generated + 1) as u64,
                ..*old(self)
            }),
            violation == (cycle_latency_ns > MAX_LATENCY_NS),
    {
        if cycle_latency_ns > self.latency_p99_ns {
            self.latency_p99_ns = cycle_latency_ns;
        }
        self.signals_generated = self.signals_generated + 1;
        cycle_latency_ns > MAX_LATENCY_NS
    }
}

/// The stealth gate opens exactly when the volume is within
/// [MIN_VOLUME, MAX_VOLUME], the time of day is in the London or New York
/// window, and the slippage is within [MIN_SLIPPAGE_PIPS,
/// MAX_SLIPPAGE_PIPS]; with volume and time acceptable, a slippage below or
/// above that range closes it for slippage.
pub proof fn law_gate_opens_only_within_limits(volume: u64, time_seconds: u64, slippage: u64)
    ensures
        gate_refusal(volume, time_seconds, slippage) is None <==> {
            &&& MIN_VOLUME <= volume <= MAX_VOLUME
            &&& (LONDON_WINDOW_START_SEC <= time_seconds <= LONDON_WINDOW_END_SEC
                || NY_WINDOW_START_SEC <= time_seconds <= NY_WINDOW_END_SEC)
            &&& MIN_SLIPPAGE_PIPS <= slippage <= MAX_SLIPPAGE_PIPS
        },
        MIN_VOLUME <= volume <= MAX_VOLUME && (LONDON_WINDOW_START_SEC <= time_seconds
            <= LONDON_WINDOW_END_SEC || NY_WINDOW_START_SEC <= time_seconds <= NY_WINDOW_END_SEC)
            && (slippage < MIN_SLIPPAGE_PIPS || slippage > MAX_SLIPPAGE_PIPS) ==> gate_refusal(
            volume,
            time_seconds,
            slippage,
        ) == Some("Slippage out of acceptable range"@),
{
}

} // verus!
