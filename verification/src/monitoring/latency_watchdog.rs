// Latency watchdog: sliding-window latency history, breach detection and
// classification, health verdict after repeated breaches, P99 tracking.
use vstd::prelude::*;
use std::collections::VecDeque;
use crate::support::{is_p99, p99_of, now_ns};

verus! {

broadcast use vstd::std_specs::vecdeque::group_vec_dequeue_axioms;

/// Watchdog configuration.
#[derive(Debug, Clone, Copy)]
pub struct WatchdogConfig {
    pub latency_threshold_ns: u64,
    pub window_size_secs: u64,
    pub breach_threshold: u32,
    pub check_interval_ms: u64,
    pub enable_auto_remediation: bool,
}

impl Default for WatchdogConfig {
    fn default() -> (c: Self)
        ensures
            c.latency_threshold_ns == 1_000_000,
            c.window_size_secs == 60,
            c.breach_threshold == 3,
            c.check_interval_ms == 100,
            c.enable_auto_remediation,
    {
        WatchdogConfig {
            latency_threshold_ns: 1_000_000,
            window_size_secs: 60,
            breach_threshold: 3,
            check_interval_ms: 100,
            enable_auto_remediation: true,
        }
    }
}

/// Breach severity.
#[derive(Debug, Clone, Copy, PartialEq, Eq, Structural)]
pub enum BreachSeverity {
    Warning,
    Critical,
    Emergency,
}

/// A latency breach.
#[derive(Debug)]
pub struct LatencyBreach {
    pub operation: String,
    pub latency_ns: u64,
    pub threshold_ns: u64,
    pub timestamp_ns: u64,
    pub severity: BreachSeverity,
}

/// What a breach records, with its operation as characters.
pub struct BreachView {
    pub operation: Seq<char>,
    pub latency_ns: u64,
    pub threshold_ns: u64,
    pub timestamp_ns: u64,
    pub severity: BreachSeverity,
}

impl View for LatencyBreach {
    type V = BreachView;

    open spec fn view(&self) -> BreachView {
        BreachView {
            operation: self.operation@,
            latency_ns: self.latency_ns,
            threshold_ns: self.threshold_ns,
            timestamp_ns: self.timestamp_ns,
            severity: self.severity,
        }
    }
}

impl LatencyBreach {
    /// A copy of the breach.
    pub fn duplicate(&self) -> (r: LatencyBreach)
        ensures
            r@ == self@,
    {
        LatencyBreach {
            operation: self.operation.clone(),
            latency_ns: self.latency_ns,
            threshold_ns: self.threshold_ns,
            timestamp_ns: self.timestamp_ns,
            severity: self.severity,
        }
    }
}

/// Views of a sequence of breaches.
pub open spec fn breach_views(s: Seq<LatencyBreach>) -> Seq<BreachView> {
    s.map_values(|b: LatencyBreach| b@)
}

proof fn lemma_breach_views_push(s: Seq<LatencyBreach>, x: LatencyBreach)
    ensures
        breach_views(s.push(x)) == breach_views(s).push(x@),
{
    assert(breach_views(s.push(x)) =~= breach_views(s).push(x@));
}

proof fn lemma_breach_views_tail(s: Seq<LatencyBreach>)
    requires
        s.len() > 0,
    ensures
        breach_views(s.subrange(1, s.len() as int)) == breach_views(s).subrange(1, s.len() as int),
{
    assert(breach_views(s.subrange(1, s.len() as int)) =~= breach_views(s).subrange(
        1,
        s.len() as int,
    ));
}

/// Severity of a breach of `threshold_ns`: Emergency above twice it,
/// Critical above 1.5 times it (integer arithmetic), Warning otherwise.
pub open spec fn breach_severity(latency_ns: u64, threshold_ns: u64) -> BreachSeverity {
    if latency_ns > threshold_ns * 2 {
        BreachSeverity::Emergency
    } else if latency_ns > threshold_ns * 15 / 10 {
        BreachSeverity::Critical
    } else {
        BreachSeverity::Warning
    }
}

/// Start of the window of `window_secs` seconds ending at `now_ns` (0 when
/// the window reaches back before the clock's origin).
pub open spec fn window_start(now_ns: u64, window_secs: u64) -> int {
    if now_ns >= window_secs * 1_000_000_000 {
        now_ns - window_secs * 1_000_000_000
    } else {
        0
    }
}

/// `s` without its leading samples older than `cutoff`.
pub open spec fn drop_older(s: Seq<(Seq<char>, u64, u64)>, cutoff: int) -> Seq<(Seq<char>, u64, u64)>
    decreases s.len(),
{
    if s.len() > 0 && s[0].2 < cutoff {
        drop_older(s.drop_first(), cutoff)
    } else {
        s
    }
}

/// Number of breaches at or after `from`.
pub open spec fn count_since(s: Seq<BreachView>, from: int) -> nat
    decreases s.len(),
{
    if s.len() == 0 {
        0
    } else {
        count_since(s.drop_last(), from) + if s.last().timestamp_ns >= from {
            1nat
        } else {
            0nat
        }
    }
}

/// Latencies recorded for `op`, oldest first.
pub open spec fn latencies_of(s: Seq<(Seq<char>, u64, u64)>, op: Seq<char>) -> Seq<u64>
    decreases s.len(),
{
    if s.len() == 0 {
        Seq::empty()
    } else if s.last().0 == op {
        latencies_of(s.drop_last(), op).push(s.last().1)
    } else {
        latencies_of(s.drop_last(), op)
    }
}

/// Sum of all recorded latencies.
pub open spec fn latency_sum(s: Seq<(Seq<char>, u64, u64)>) -> nat
    decreases s.len(),
{
    if s.len() == 0 {
        0
    } else {
        latency_sum(s.drop_last()) + s.last().1 as nat
    }
}

/// Most recent breaches kept.
pub const BREACH_HISTORY_LIMIT: usize = 1000;

/// Watches operation latencies over a sliding window.
pub struct LatencyWatchdog {
    config: WatchdogConfig,
    latency_history: VecDeque<(String, u64, u64)>,
    breach_count: VecDeque<LatencyBreach>,
    is_healthy: bool,
    last_check: u64,
    remediation_triggered: bool,
}

/// Watchdog statistics.
#[derive(Debug, Clone, Copy)]
pub struct WatchdogStats {
    pub total_samples: usize,
    pub total_breaches: usize,
    pub avg_latency_ns: u64,
    pub p99_latency_ns: u64,
    pub is_healthy: bool,
    pub last_breach_time: u64,
}

impl LatencyWatchdog {
    /// Samples in the window: (operation, latency, time), oldest first.
    pub closed spec fn history(&self) -> Seq<(Seq<char>, u64, u64)> {
        self.latency_history@.map_values(|e: (String, u64, u64)| (e.0@, e.1, e.2))
    }

    /// Breaches kept, oldest first.
    pub closed spec fn breaches(&self) -> Seq<BreachView> {
        breach_views(self.breach_count@)
    }

    pub closed spec fn config(&self) -> WatchdogConfig {
        self.config
    }

    pub closed spec fn healthy(&self) -> bool {
        self.is_healthy
    }

    pub closed spec fn remediation_triggered(&self) -> bool {
        self.remediation_triggered
    }

    pub closed spec fn last_check(&self) -> u64 {
        self.last_check
    }

    /// A healthy watchdog with nothing recorded.
    pub fn new(config: WatchdogConfig) -> (w: Self)
        ensures
            w.config() == config,
            w.history() == Seq::<(Seq<char>, u64, u64)>::empty(),
            w.breaches() == Seq::<BreachView>::empty(),
            w.healthy(),
            !w.remediation_triggered(),
            w.last_check() == 0,
    {
        let w = LatencyWatchdog {
            config,
            latency_history: VecDeque::new(),
            breach_count: VecDeque::new(),
            is_healthy: true,
            last_check: 0,
            remediation_triggered: false,
        };
        assert(w.history() =~= Seq::<(Seq<char>, u64, u64)>::empty());
        assert(w.breaches() =~= Seq::<BreachView>::empty());
        w
    }

    /// `after` is this watchdog having recorded `latency_ns` for
    /// `operation` at time `now_ns` (see `record_latency_at`).
    pub open spec fn recorded_at(
        &self,
        after: &LatencyWatchdog,
        operation: Seq<char>,
        latency_ns: u64,
        now_ns: u64,
    ) -> bool {
        &&& after.config() == self.config()
        &&& after.history() == drop_older(
            self.history().push((operation, latency_ns, now_ns)),
            window_start(now_ns, self.config().window_size_secs),
        )
        &&& latency_ns <= self.config().latency_threshold_ns ==> {
            &&& after.breaches() == self.breaches()
            &&& after.healthy() == self.healthy()
            &&& after.remediation_triggered() == self.remediation_triggered()
        }
        &&& latency_ns > self.config().latency_threshold_ns ==> after.breach_outcome(
            self.breaches(),
            self.healthy(),
            self.remediation_triggered(),
            operation,
            latency_ns,
            now_ns,
        )
        &&& after.last_check() == self.last_check()
    }

    /// Records `latency_ns` for `operation` at time `now_ns`: the sample
    /// joins the window and samples older than the window leave from the
    /// front; a latency above the threshold is recorded as a breach (see
    /// `record_breach_at`).
    pub fn record_latency_at(&mut self, operation: &str, latency_ns: u64, now_ns: u64)
        requires
            old(self).config().window_size_secs * 1_000_000_000 <= u64::MAX,
        ensures
            final(self).config() == old(self).config(),
            final(self).history() == drop_older(
                old(self).history().push((operation@, latency_ns, now_ns)),
                window_start(now_ns, old(self).config().window_size_secs),
            ),
            latency_ns <= old(self).config().latency_threshold_ns ==> {
                &&& final(self).breaches() == old(self).breaches()
                &&& final(self).healthy() == old(self).healthy()
                &&& final(self).remediation_triggered() == old(self).remediation_triggered()
            },
            latency_ns > old(self).config().latency_threshold_ns ==> final(self).breach_outcome(
                old(self).breaches(),
                old(self).healthy(),
                old(self).remediation_triggered(),
                operation@,
                latency_ns,
                now_ns,
            ),
            final(self).last_check() == old(self).last_check(),
    {
        let ghost start_history = self.history();
        let ghost pushed = start_history.push((operation@, latency_ns, now_ns));
        self.latency_history.push_back((operation.to_owned(), latency_ns, now_ns));
        assert(self.history() =~= pushed);
        let window_ns = self.config.window_size_secs * 1_000_000_000;
        let cutoff: u64 = if now_ns >= window_ns {
            now_ns - window_ns
        } else {
            0
        };
        while self.latency_history.len() > 0 && self.latency_history[0].2 < cutoff
            invariant
                drop_older(self.history(), cutoff as int) == drop_older(pushed, cutoff as int),
                self.config == old(self).config,
                self.breach_count@ == old(self).breach_count@,
                self.is_healthy == old(self).is_healthy,
                self.remediation_triggered == old(self).remediation_triggered,
                self.last_check == old(self).last_check,
            decreases self.latency_history@.len(),
        {
            let ghost prev = self.history();
            let ghost prev_raw = self.latency_history@;
            self.latency_history.pop_front();
            assert(self.history() =~= prev.drop_first()) by {
                assert(self.latency_history@ =~= prev_raw.subrange(1, prev_raw.len() as int));
            }
        }
        assert(drop_older(self.history(), cutoff as int) == self.history());
        if latency_ns > self.config.latency_threshold_ns {
            self.record_breach_at(operation, latency_ns, now_ns);
        }
    }

    /// Records a latency sample at the current clock time (see
    /// `record_latency_at`).
    pub fn record_latency(&mut self, operation: &str, latency_ns: u64)
        requires
            old(self).config().window_size_secs * 1_000_000_000 <= u64::MAX,
        ensures
            final(self).config() == old(self).config(),
            latency_ns <= old(self).config().latency_threshold_ns ==> {
                &&& final(self).breaches() == old(self).breaches()
                &&& final(self).healthy() == old(self).healthy()
            },
            latency_ns > old(self).config().latency_threshold_ns ==> final(self).breaches().len()
                > 0 && final(self).breaches().last().latency_ns == latency_ns
                && final(self).breaches().last().severity == breach_severity(
                latency_ns,
                old(self).config().latency_threshold_ns,
            ),
            exists|now_ns: u64|
                #[trigger] old(self).recorded_at(final(self), operation@, latency_ns, now_ns),
    {
        let now = now_ns();
        self.record_latency_at(operation, latency_ns, now);
        assert(old(self).recorded_at(self, operation@, latency_ns, now));
    }

    /// What recording a breach leaves: the breach is appended (only the
    /// last 1000 kept); when the breaches in the window reach the
    /// configured count the watchdog turns unhealthy and, with automatic
    /// remediation enabled, triggers remediation once.
    pub open spec fn breach_outcome(
        &self,
        before: Seq<BreachView>,
        was_healthy: bool,
        was_triggered: bool,
        operation: Seq<char>,
        latency_ns: u64,
        now_ns: u64,
    ) -> bool {
        let breach = BreachView {
            operation: operation,
            latency_ns: latency_ns,
            threshold_ns: self.config().latency_threshold_ns,
            timestamp_ns: now_ns,
            severity: breach_severity(latency_ns, self.config().latency_threshold_ns),
        };
        let kept = if before.len() + 1 > BREACH_HISTORY_LIMIT {
            before.push(breach).subrange(
                before.len() + 1 - BREACH_HISTORY_LIMIT,
                before.len() as int + 1,
            )
        } else {
            before.push(breach)
        };
        let over = count_since(kept, window_start(now_ns, self.config().window_size_secs))
            >= self.config().breach_threshold;
        &&& self.breaches() == kept
        &&& self.healthy() == (was_healthy && !over)
        &&& self.remediation_triggered() == (was_triggered || (over
            && self.config().enable_auto_remediation))
    }

    /// Records a breach of the threshold by `latency_ns` at `now_ns`.
    fn record_breach_at(&mut self, operation: &str, latency_ns: u64, now_ns: u64)
        requires
            old(self).config().window_size_secs * 1_000_000_000 <= u64::MAX,
        ensures
            final(self).config() == old(self).config(),
            final(self).history() == old(self).history(),
            final(self).last_check() == old(self).last_check(),
            final(self).breach_outcome(
                old(self).breaches(),
                old(self).healthy(),
                old(self).remediation_triggered(),
                operation@,
                latency_ns,
                now_ns,
            ),
    {
        let threshold = self.config.latency_threshold_ns;
        let severity = if latency_ns as u128 > (threshold as u128) * 2 {
            BreachSeverity::Emergency
        } else if latency_ns as u128 > (threshold as u128) * 15 / 10 {
            BreachSeverity::Critical
        } else {
            BreachSeverity::Warning
        };
        let breach = LatencyBreach {
            operation: operation.to_owned(),
            latency_ns,
            threshold_ns: threshold,
            timestamp_ns: now_ns,
            severity,
        };
        let ghost full = self.breaches().push(breach@);
        let ghost start_raw = self.breach_count@;
        self.breach_count.push_back(breach);
        assert(self.breaches() =~= full) by {
            assert(self.breach_count@ == start_raw.push(self.breach_count@.last()));
        }
        let ghost mut dropped: int = 0;
        while self.breach_count.len() > BREACH_HISTORY_LIMIT
            invariant
                0 <= dropped <= full.len(),
                self.breaches() == full.subrange(dropped, full.len() as int),
                self.breach_count@.len() == full.len() - dropped,
                dropped == 0 || self.breach_count@.len() >= BREACH_HISTORY_LIMIT,
                self.config == old(self).config,
                self.latency_history@ == old(self).latency_history@,
                self.is_healthy == old(self).is_healthy,
                self.remediation_triggered == old(self).remediation_triggered,
                self.last_check == old(self).last_check,
            decreases self.breach_count@.len(),
        {
            let ghost prev_raw = self.breach_count@;
            proof {
                lemma_breach_views_tail(prev_raw);
            }
            self.breach_count.pop_front();
            proof {
                dropped = dropped + 1;
                assert(self.breach_count@ =~= prev_raw.subrange(1, prev_raw.len() as int));
                assert(self.breaches() =~= full.subrange(dropped, full.len() as int));
            }
        }
        assert(full.len() > BREACH_HISTORY_LIMIT ==> self.breaches() =~= full.subrange(
            full.len() - BREACH_HISTORY_LIMIT,
            full.len() as int,
        ));
        assert(full.len() <= BREACH_HISTORY_LIMIT ==> self.breaches() =~= full);
        self.check_breach_threshold(now_ns);
    }

    /// Turns the watchdog unhealthy when the breaches in the window ending
    /// at `now_ns` reach the configured count, triggering remediation once
    /// when enabled.
    fn check_breach_threshold(&mut self, now_ns: u64)
        requires
            old(self).config().window_size_secs * 1_000_000_000 <= u64::MAX,
        ensures
            final(self).config() == old(self).config(),
            final(self).history() == old(self).history(),
            final(self).breaches() == old(self).breaches(),
            final(self).last_check() == old(self).last_check(),
            ({
                let over = count_since(
                    old(self).breaches(),
                    window_start(now_ns, old(self).config().window_size_secs),
                ) >= old(self).config().breach_threshold;
                &&& final(self).healthy() == (old(self).healthy() && !over)
                &&& final(self).remediation_triggered() == (old(self).remediation_triggered() || (
                over && old(self).config().enable_auto_remediation))
            }),
    {
        let window_ns = self.config.window_size_secs * 1_000_000_000;
        let start: u64 = if now_ns >= window_ns {
            now_ns - window_ns
        } else {
            0
        };
        let mut recent: usize = 0;
        let mut i: usize = 0;
        while i < self.breach_count.len()
            invariant
                0 <= i <= self.breach_count@.len(),
                recent == count_since(self.breaches().take(i as int), start as int),
                recent <= i,
            decreases self.breach_count@.len() - i,
        {
            assert(self.breaches().take(i + 1).drop_last() =~= self.breaches().take(i as int));
            if self.breach_count[i].timestamp_ns >= start {
                recent = recent + 1;
            }
            i = i + 1;
        }
        assert(self.breaches().take(self.breach_count@.len() as int) =~= self.breaches());
        if recent as u64 >= self.config.breach_threshold as u64 {
            self.is_healthy = false;
            if self.config.enable_auto_remediation && !self.remediation_triggered {
                self.trigger_remediation();
            }
        }
    }

    /// Marks remediation as triggered.
    fn trigger_remediation(&mut self)
        ensures
            final(self).remediation_triggered(),
            final(self).config() == old(self).config(),
            final(self).history() == old(self).history(),
            final(self).breaches() == old(self).breaches(),
            final(self).healthy() == old(self).healthy(),
            final(self).last_check() == old(self).last_check(),
    {
        self.remediation_triggered = true;
    }

    /// P99 of the latencies recorded for `operation` in the window (0 when
    /// there are none).
    pub fn p99_latency(&self, operation: &str) -> (r: u64)
        ensures
            is_p99(latencies_of(self.history(), operation@), r),
    {
        let op = operation.to_owned();
        let mut latencies: Vec<u64> = Vec::new();
        let mut i: usize = 0;
        while i < self.latency_history.len()
            invariant
                0 <= i <= self.latency_history@.len(),
                op@ == operation@,
                latencies@ == latencies_of(self.history().take(i as int), operation@),
            decreases self.latency_history@.len() - i,
        {
            assert(self.history().take(i + 1).drop_last() =~= self.history().take(i as int));
            if self.latency_history[i].0 == op {
                latencies.push(self.latency_history[i].1);
            }
            i = i + 1;
        }
        assert(self.history().take(self.latency_history@.len() as int) =~= self.history());
        p99_of(latencies)
    }

    /// The `count` most recent breaches, newest first.
    pub fn recent_breaches(&self, count: usize) -> (r: Vec<LatencyBreach>)
        ensures
            breach_views(r@) == self.breaches().reverse().take(
                if count < self.breaches().len() {
                    count as int
                } else {
                    self.breaches().len() as int
                },
            ),
    {
        let mut r: Vec<LatencyBreach> = Vec::new();
        let n = self.breach_count.len();
        let mut i: usize = 0;
        while i < count && i < n
            invariant
                n == self.breach_count@.len(),
                0 <= i <= n,
                i <= count,
                breach_views(r@) == self.breaches().reverse().take(i as int),
            decreases n - i,
        {
            let copy = self.breach_count[n - 1 - i].duplicate();
            proof {
                lemma_breach_views_push(r@, copy);
            }
            r.push(copy);
            assert(breach_views(r@) =~= self.breaches().reverse().take(i + 1));
            i = i + 1;
        }
        r
    }

    /// Whether the watchdog is healthy.
    pub fn is_healthy(&self) -> (b: bool)
        ensures
            b == self.healthy(),
    {
        self.is_healthy
    }

    /// Forgets samples and breaches and becomes healthy again; the check
    /// time is set from the clock.
    pub fn reset(&mut self)
        ensures
            final(self).config() == old(self).config(),
            final(self).history() == Seq::<(Seq<char>, u64, u64)>::empty(),
            final(self).breaches() == Seq::<BreachView>::empty(),
            final(self).healthy(),
            !final(self).remediation_triggered(),
    {
        self.latency_history.clear();
        self.breach_count.clear();
        self.is_healthy = true;
        self.remediation_triggered = false;
        self.last_check = now_ns();
        assert(self.history() =~= Seq::<(Seq<char>, u64, u64)>::empty());
        assert(self.breaches() =~= Seq::<BreachView>::empty());
    }

    /// Statistics: counts, mean latency of the window (integer division),
    /// P99 of the "pipeline" operation, health, and the time of the last
    /// breach (0 when none).
    pub fn stats(&self) -> (st: WatchdogStats)
        ensures
            st.total_samples == self.history().len(),
            st.total_breaches == self.breaches().len(),
            st.avg_latency_ns == if self.history().len() > 0 {
                latency_sum(self.history()) / self.history().len()
            } else {
                0
            },
            is_p99(latencies_of(self.history(), "pipeline"@), st.p99_latency_ns),
            st.is_healthy == self.healthy(),
            st.last_breach_time == if self.breaches().len() > 0 {
                self.breaches().last().timestamp_ns
            } else {
                0
            },
    {
        let n = self.latency_history.len();
        let mut sum: u128 = 0;
        let mut i: usize = 0;
        while i < n
            invariant
                n == self.latency_history@.len(),
                0 <= i <= n,
                sum == latency_sum(self.history().take(i as int)),
                sum <= i * 0xffff_ffff_ffff_ffff,
            decreases n - i,
        {
            assert(self.history().take(i + 1).drop_last() =~= self.history().take(i as int));
            sum = sum + self.latency_history[i].1 as u128;
            i = i + 1;
        }
        assert(self.history().take(n as int) =~= self.history());
        let avg: u64 = if n > 0 {
            assert(sum / (n as u128) <= 0xffff_ffff_ffff_ffff) by (nonlinear_arith)
                requires
                    sum <= n * 0xffff_ffff_ffff_ffff,
                    n > 0,
            ;
            (sum / (n as u128)) as u64
        } else {
            0
        };
        let last_breach_time = if self.breach_count.len() > 0 {
            self.breach_count[self.breach_count.len() - 1].timestamp_ns
        } else {
            0
        };
        proof {
            reveal_strlit("pipeline");
        }
        WatchdogStats {
            total_samples: n,
            total_breaches: self.breach_count.len(),
            avg_latency_ns: avg,
            p99_latency_ns: self.p99_latency("pipeline"),
            is_healthy: self.is_healthy,
            last_breach_time,
        }
    }
}


/// Start of a window of `window_ns` nanoseconds ending at `now_ns` (0 when
/// the window reaches back before the clock's origin).
pub open spec fn window_cutoff(now_ns: int, window_ns: int) -> int {
    if now_ns >= window_ns {
        now_ns - window_ns
    } else {
        0
    }
}

/// `s` without its leading (latency, time) samples older than `cutoff`.
pub open spec fn drop_samples_before(s: Seq<(u64, u64)>, cutoff: int) -> Seq<(u64, u64)>
    decreases s.len(),
{
    if s.len() > 0 && s[0].1 < cutoff {
        drop_samples_before(s.drop_first(), cutoff)
    } else {
        s
    }
}

/// Pairs the i-th latency with the i-th time.
pub open spec fn paired(latencies: Seq<u64>, times: Seq<u64>) -> Seq<(u64, u64)> {
    Seq::new(latencies.len(), |i: int| (latencies[i], times[i]))
}

/// The latencies of a sequence of (latency, time) samples.
pub open spec fn sample_latencies(s: Seq<(u64, u64)>) -> Seq<u64> {
    s.map_values(|e: (u64, u64)| e.0)
}

/// Latencies of one operation over a sliding time window.
pub struct SlidingWindow {
    operation: String,
    latencies: VecDeque<u64>,
    timestamps: VecDeque<u64>,
    window_ns: u64,
}

impl SlidingWindow {
    pub closed spec fn wf(&self) -> bool {
        self.latencies@.len() == self.timestamps@.len()
    }

    /// The operation this window tracks.
    pub closed spec fn operation(&self) -> Seq<char> {
        self.operation@
    }

    /// (latency, time) samples in the window, oldest first.
    pub closed spec fn samples(&self) -> Seq<(u64, u64)> {
        paired(self.latencies@, self.timestamps@)
    }

    pub closed spec fn window_ns(&self) -> u64 {
        self.window_ns
    }

    /// An empty window of `window_ns` nanoseconds for `operation`.
    pub fn new(operation: String, window_ns: u64) -> (w: Self)
        ensures
            w.wf(),
            w.operation() == operation@,
            w.samples() == Seq::<(u64, u64)>::empty(),
            w.window_ns() == window_ns,
    {
        let w = SlidingWindow {
            operation,
            latencies: VecDeque::new(),
            timestamps: VecDeque::new(),
            window_ns,
        };
        assert(w.samples() =~= Seq::<(u64, u64)>::empty());
        w
    }

    /// Adds a sample taken at `timestamp_ns`, then drops the samples that
    /// have left the window ending there.
    pub fn add(&mut self, latency_ns: u64, timestamp_ns: u64)
        requires
            old(self).wf(),
        ensures
            final(self).wf(),
            final(self).operation() == old(self).operation(),
            final(self).window_ns() == old(self).window_ns(),
            final(self).samples() == drop_samples_before(
                old(self).samples().push((latency_ns, timestamp_ns)),
                window_cutoff(timestamp_ns as int, old(self).window_ns() as int),
            ),
    {
        let ghost before = self.samples();
        self.latencies.push_back(latency_ns);
        self.timestamps.push_back(timestamp_ns);
        assert(self.samples() =~= before.push((latency_ns, timestamp_ns)));
        self.cleanup(timestamp_ns);
    }

    /// Drops the leading samples older than the window ending at `now_ns`.
    pub fn cleanup(&mut self, now_ns: u64)
        requires
            old(self).wf(),
        ensures
            final(self).wf(),
            final(self).operation() == old(self).operation(),
            final(self).window_ns() == old(self).window_ns(),
            final(self).samples() == drop_samples_before(
                old(self).samples(),
                window_cutoff(now_ns as int, old(self).window_ns() as int),
            ),
    {
        let cutoff: u64 = if now_ns >= self.window_ns {
            now_ns - self.window_ns
        } else {
            0
        };
        let ghost target = drop_samples_before(self.samples(), cutoff as int);
        while self.timestamps.len() > 0 && self.timestamps[0] < cutoff
            invariant
                self.wf(),
                drop_samples_before(self.samples(), cutoff as int) == target,
                self.operation == old(self).operation,
                self.window_ns == old(self).window_ns,
            decreases self.timestamps@.len(),
        {
            let ghost prev = self.samples();
            let ghost lat = self.latencies@;
            let ghost ts = self.timestamps@;
            self.timestamps.pop_front();
            self.latencies.pop_front();
            assert(self.latencies@ =~= lat.subrange(1, lat.len() as int));
            assert(self.timestamps@ =~= ts.subrange(1, ts.len() as int));
            assert(self.samples() =~= prev.drop_first());
        }
    }

    /// P99 of the latencies in the window (0 when empty).
    pub fn p99(&self) -> (r: u64)
        requires
            self.wf(),
        ensures
            is_p99(sample_latencies(self.samples()), r),
    {
        let mut sorted: Vec<u64> = Vec::new();
        let n = self.latencies.len();
        let mut i: usize = 0;
        while i < n
            invariant
                n == self.latencies@.len(),
                self.wf(),
                0 <= i <= n,
                sorted@ == self.latencies@.take(i as int),
            decreases n - i,
        {
            sorted.push(self.latencies[i]);
            i = i + 1;
            assert(sorted@ =~= self.latencies@.take(i as int));
        }
        assert(sorted@ =~= sample_latencies(self.samples()));
        p99_of(sorted)
    }
}

/// What a sliding window holds: its operation and its samples.
pub struct WindowState {
    pub operation: Seq<char>,
    pub samples: Seq<(u64, u64)>,
}

/// Index of the first window tracking `op` (the number of windows when
/// none does).
pub open spec fn first_window(ws: Seq<WindowState>, op: Seq<char>) -> int
    decreases ws.len(),
{
    if ws.len() == 0 {
        0
    } else if ws[0].operation == op {
        0
    } else {
        1 + first_window(ws.drop_first(), op)
    }
}

proof fn lemma_first_window(ws: Seq<WindowState>, op: Seq<char>, i: int)
    requires
        0 <= i <= ws.len(),
        forall|j: int| 0 <= j < i ==> ws[j].operation != op,
        i < ws.len() ==> ws[i].operation == op,
    ensures
        first_window(ws, op) == i,
    decreases i,
{
    if i > 0 {
        assert(ws[0].operation != op);
        assert forall|j: int| 0 <= j < i - 1 implies ws.drop_first()[j].operation != op by {
            assert(ws.drop_first()[j] == ws[j + 1]);
        }
        if i < ws.len() {
            assert(ws.drop_first()[i - 1] == ws[i]);
        }
        lemma_first_window(ws.drop_first(), op, i - 1);
    }
}

/// `first_window` lies within the windows, at a window tracking `op` when
/// below their number, with none tracking `op` before it.
proof fn lemma_first_window_facts(ws: Seq<WindowState>, op: Seq<char>)
    ensures
        0 <= first_window(ws, op) <= ws.len(),
        first_window(ws, op) < ws.len() ==> ws[first_window(ws, op)].operation == op,
        forall|j: int| 0 <= j < first_window(ws, op) ==> ws[j].operation != op,
    decreases ws.len(),
{
    if ws.len() > 0 && ws[0].operation != op {
        let t = ws.drop_first();
        lemma_first_window_facts(t, op);
        assert forall|j: int| 0 <= j < first_window(ws, op) implies ws[j].operation != op by {
            if j > 0 {
                assert(ws[j] == t[j - 1]);
            }
        }
        if first_window(ws, op) < ws.len() {
            assert(ws[first_window(ws, op)] == t[first_window(t, op)]);
        }
    }
}

/// The windows after a sample (`latency_ns`, `now_ns`) for `op`: the first
/// window tracking `op` takes it and drops what has left its window of
/// `window_ns`; the windows are unchanged when none tracks `op`.
pub open spec fn recorded(
    ws: Seq<WindowState>,
    op: Seq<char>,
    latency_ns: u64,
    now_ns: u64,
    window_ns: int,
) -> Seq<WindowState> {
    let i = first_window(ws, op);
    if i < ws.len() {
        ws.update(
            i,
            WindowState {
                operation: ws[i].operation,
                samples: drop_samples_before(
                    ws[i].samples.push((latency_ns, now_ns)),
                    window_cutoff(now_ns as int, window_ns),
                ),
            },
        )
    } else {
        ws
    }
}

/// Real-time latency monitor: one sliding window per operation.
pub struct LatencyMonitor {
    windows: Vec<SlidingWindow>,
    config: WatchdogConfig,
}

impl LatencyMonitor {
    pub closed spec fn wf(&self) -> bool {
        &&& forall|i: int| 0 <= i < self.windows@.len() ==> #[trigger] self.windows@[i].wf()
        &&& forall|i: int|
            0 <= i < self.windows@.len() ==> #[trigger] self.windows@[i].window_ns()
                == self.config.window_size_secs * 1_000_000_000
    }

    /// The windows, in the order their operations were given.
    pub closed spec fn windows(&self) -> Seq<WindowState> {
        self.windows@.map_values(
            |w: SlidingWindow| WindowState { operation: w.operation(), samples: w.samples() },
        )
    }

    pub closed spec fn config(&self) -> WatchdogConfig {
        self.config
    }

    /// A monitor with an empty window for each of `operations`.
    #[verifier::spinoff_prover]
    #[verifier::rlimit(40)]
    pub fn new(config: WatchdogConfig, operations: Vec<String>) -> (m: Self)
        requires
            config.window_size_secs * 1_000_000_000 <= u64::MAX,
        ensures
            m.wf(),
            m.config() == config,
            m.windows().len() == operations@.len(),
            forall|i: int|
                0 <= i < operations@.len() ==> #[trigger] m.windows()[i] == (WindowState {
                    operation: operations@[i]@,
                    samples: Seq::<(u64, u64)>::empty(),
                }),
    {
        let window_ns = config.window_size_secs * 1_000_000_000;
        let mut windows: Vec<SlidingWindow> = Vec::new();
        let mut ops = operations;
        let ghost given = ops@;
        let n = ops.len();
        // Take the names from the back and put the windows in order at the end.
        let mut rev: Vec<SlidingWindow> = Vec::new();
        while ops.len() > 0
            invariant
                ops@ == given.take(ops@.len() as int),
                ops@.len() + rev@.len() == n,
                n == given.len(),
                forall|k: int|
                    0 <= k < rev@.len() ==> {
                        &&& #[trigger] rev@[k].wf()
                        &&& rev@[k].window_ns() == window_ns
                        &&& rev@[k].operation() == given[n - 1 - k]@
                        &&& rev@[k].samples() == Seq::<(u64, u64)>::empty()
                    },
            decreases ops@.len(),
        {
            let op = ops.pop().unwrap();
            assert(ops@ =~= given.take(ops@.len() as int));
            rev.push(SlidingWindow::new(op, window_ns));
        }
        while rev.len() > 0
            invariant
                windows@.len() + rev@.len() == n,
                n == given.len(),
                forall|k: int|
                    0 <= k < rev@.len() ==> {
                        &&& #[trigger] rev@[k].wf()
                        &&& rev@[k].window_ns() == window_ns
                        &&& rev@[k].operation() == given[n - 1 - k]@
                        &&& rev@[k].samples() == Seq::<(u64, u64)>::empty()
                    },
                forall|k: int|
                    0 <= k < windows@.len() ==> {
                        &&& #[trigger] windows@[k].wf()
                        &&& windows@[k].window_ns() == window_ns
                        &&& windows@[k].operation() == given[k]@
                        &&& windows@[k].samples() == Seq::<(u64, u64)>::empty()
                    },
            decreases rev@.len(),
        {
            let w = rev.pop().unwrap();
            windows.push(w);
        }
        let m = LatencyMonitor { windows, config };
        assert forall|k: int| 0 <= k < m.windows@.len() implies #[trigger] m.windows@[k].window_ns()
            == m.config.window_size_secs * 1_000_000_000 by {
            assert(m.windows@[k].wf());
        }
        assert forall|i: int| 0 <= i < given.len() implies #[trigger] m.windows()[i] == (WindowState {
            operation: given[i]@,
            samples: Seq::<(u64, u64)>::empty(),
        }) by {
            assert(m.windows@[i].wf());
        }
        m
    }

    /// Records `latency_ns` at time `now_ns` in the first window tracking
    /// `operation`; nothing changes when no window tracks it.
    pub fn record_at(&mut self, operation: &str, latency_ns: u64, now_ns: u64)
        requires
            old(self).wf(),
        ensures
            final(self).wf(),
            final(self).config() == old(self).config(),
            final(self).windows() == recorded(
                old(self).windows(),
                operation@,
                latency_ns,
                now_ns,
                old(self).config().window_size_secs * 1_000_000_000,
            ),
    {
        let ghost ws = self.windows();
        let op = operation.to_owned();
        let mut i: usize = 0;
        while i < self.windows.len()
            invariant
                0 <= i <= self.windows@.len(),
                self.windows@ == old(self).windows@,
                self.config == old(self).config,
                self.wf(),
                ws == self.windows(),
                op@ == operation@,
                forall|j: int| 0 <= j < i ==> ws[j].operation != operation@,
            decreases self.windows@.len() - i,
        {
            if self.windows[i].operation == op {
                proof {
                    lemma_first_window(ws, operation@, i as int);
                }
                let ghost prev = self.windows@;
                assert(prev[i as int].wf());
                assert(prev[i as int].window_ns() == self.config.window_size_secs * 1_000_000_000);
                let mut w = self.windows.remove(i);
                w.add(latency_ns, now_ns);
                self.windows.insert(i, w);
                assert(self.windows@ =~= prev.update(i as int, w));
                assert forall|k: int| 0 <= k < self.windows@.len() implies #[trigger] self.windows@[k].wf()
                    && self.windows@[k].window_ns() == self.config.window_size_secs * 1_000_000_000 by {
                    if k != i {
                        assert(prev[k].wf());
                        assert(prev[k].window_ns() == self.config.window_size_secs * 1_000_000_000);
                    }
                }
                assert(self.windows() =~= recorded(
                    ws,
                    operation@,
                    latency_ns,
                    now_ns,
                    self.config.window_size_secs * 1_000_000_000,
                ));
                return;
            }
            i = i + 1;
        }
        proof {
            lemma_first_window(ws, operation@, i as int);
        }
    }

    /// Records a latency for `operation` at the current clock time (see
    /// `record_at`).
    pub fn record(&mut self, operation: &str, latency_ns: u64)
        requires
            old(self).wf(),
        ensures
            final(self).wf(),
            final(self).config() == old(self).config(),
            exists|now_ns: u64|
                final(self).windows() == #[trigger] recorded(
                    old(self).windows(),
                    operation@,
                    latency_ns,
                    now_ns,
                    old(self).config().window_size_secs * 1_000_000_000,
                ),
    {
        let now = now_ns();
        self.record_at(operation, latency_ns, now);
    }

    /// P99 latency of the first window tracking `operation`; 0 when none
    /// does.
    pub fn get_p99(&self, operation: &str) -> (r: u64)
        requires
            self.wf(),
        ensures
            ({
                let ws = self.windows();
                let i = first_window(ws, operation@);
                if i < ws.len() {
                    is_p99(sample_latencies(ws[i].samples), r)
                } else {
                    r == 0
                }
            }),
    {
        let ghost ws = self.windows();
        let op = operation.to_owned();
        let mut i: usize = 0;
        while i < self.windows.len()
            invariant
                0 <= i <= self.windows@.len(),
                ws == self.windows(),
                self.wf(),
                op@ == operation@,
                forall|j: int| 0 <= j < i ==> ws[j].operation != operation@,
            decreases self.windows@.len() - i,
        {
            if self.windows[i].operation == op {
                proof {
                    lemma_first_window(ws, operation@, i as int);
                    assert(self.windows@[i as int].wf());
                }
                return self.windows[i].p99();
            }
            i = i + 1;
        }
        proof {
            lemma_first_window(ws, operation@, i as int);
        }
        0
    }
}


/// Recording a breach never restores health (only `reset` does), and once
/// the window holds at least the threshold of breaches the watchdog is
/// unhealthy.
pub proof fn law_breaches_cost_health(
    w: LatencyWatchdog,
    before: Seq<BreachView>,
    was_healthy: bool,
    was_triggered: bool,
    operation: Seq<char>,
    latency_ns: u64,
    now_ns: u64,
)
    requires
        w.breach_outcome(before, was_healthy, was_triggered, operation, latency_ns, now_ns),
    ensures
        w.healthy() ==> was_healthy,
        count_since(w.breaches(), window_start(now_ns, w.config().window_size_secs))
            >= w.config().breach_threshold ==> !w.healthy(),
{
}
/// Recording a sample for `op` changes at most one window, the first one
/// tracking `op`, and nothing when none tracks it; the windows keep their
/// operations, so every other operation finds the same window as before,
/// unchanged, and its P99 stays as it was.
pub proof fn law_record_touches_one_window(
    ws: Seq<WindowState>,
    op: Seq<char>,
    latency_ns: u64,
    now_ns: u64,
    window_ns: int,
    other: Seq<char>,
)
    ensures
        ({
            let r = recorded(ws, op, latency_ns, now_ns, window_ns);
            &&& r.len() == ws.len()
            &&& forall|j: int|
                0 <= j < ws.len() && j != first_window(ws, op) ==> #[trigger] r[j] == ws[j]
            &&& forall|j: int| 0 <= j < ws.len() ==> #[trigger] r[j].operation == ws[j].operation
            &&& first_window(ws, op) >= ws.len() ==> r == ws
            &&& other != op ==> {
                &&& first_window(r, other) == first_window(ws, other)
                &&& first_window(ws, other) < ws.len() ==> r[first_window(ws, other)]
                    == ws[first_window(ws, other)]
            }
        }),
{
    let r = recorded(ws, op, latency_ns, now_ns, window_ns);
    lemma_first_window_facts(ws, op);
    lemma_first_window_facts(ws, other);
    let k = first_window(ws, other);
    assert forall|j: int| 0 <= j < ws.len() implies #[trigger] r[j].operation == ws[j].operation by {}
    if other != op {
        assert forall|j: int| 0 <= j < k implies r[j].operation != other by {}
        lemma_first_window(r, other, k);
    }
}

/// Breach bands: above twice the threshold a breach is an Emergency; above
/// one and a half times the threshold (twice the latency more than three
/// times the threshold) and up to twice it, Critical; up to one and a half
/// times, a Warning. So each band is reached by some latency.
pub proof fn law_breach_bands(latency_ns: u64, threshold_ns: u64)
    ensures
        latency_ns > 2 * threshold_ns ==> breach_severity(latency_ns, threshold_ns)
            == BreachSeverity::Emergency,
        2 * latency_ns > 3 * threshold_ns && latency_ns <= 2 * threshold_ns ==> breach_severity(
            latency_ns,
            threshold_ns,
        ) == BreachSeverity::Critical,
        2 * latency_ns <= 3 * threshold_ns ==> breach_severity(latency_ns, threshold_ns)
            == BreachSeverity::Warning,
{
    let t = threshold_ns as int;
    let l = latency_ns as int;
    let f = (t * 15) / 10;
    assert(10 * f <= 15 * t && 15 * t < 10 * f + 10) by (nonlinear_arith)
        requires
            f == (t * 15) / 10,
            t >= 0,
    ;
    assert(l > f <==> 2 * l > 3 * t);
}

} // verus!
