// Timing obfuscation: jitter delays drawn per configuration, kept in a
// bounded history with statistics over it.
use vstd::prelude::*;
use std::collections::VecDeque;
use crate::support::{new_rng, random_between};

verus! {

broadcast use vstd::std_specs::vecdeque::group_vec_dequeue_axioms;

/// Jitter distribution.
#[derive(Debug, Clone, Copy, PartialEq, Eq, Structural)]
pub enum JitterType {
    Uniform,
    Gaussian,
    Poisson,
    Exponential,
    /// Based on market activity.
    Adaptive,
}

/// Jitter configuration. The Poisson rate and the adaptive factor are in
/// millionths.
#[derive(Debug, Clone, Copy, PartialEq, Eq, Structural)]
pub struct JitterConfig {
    pub jitter_type: JitterType,
    pub min_us: u64,
    pub max_us: u64,
    pub mean_us: u64,
    pub std_us: u64,
    pub lambda_ppm: u64,
    pub adaptive_factor_ppm: u64,
}

impl Default for JitterConfig {
    /// Uniform jitter between 50 and 500 µs (mean 200, deviation 100), a
    /// Poisson rate of 0.005 and an adaptive factor of 1.
    fn default() -> (c: Self)
        ensures
            c == (JitterConfig {
                jitter_type: JitterType::Uniform,
                min_us: 50,
                max_us: 500,
                mean_us: 200,
                std_us: 100,
                lambda_ppm: 5_000,
                adaptive_factor_ppm: 1_000_000,
            }),
    {
        JitterConfig {
            jitter_type: JitterType::Uniform,
            min_us: 50,
            max_us: 500,
            mean_us: 200,
            std_us: 100,
            lambda_ppm: 5_000,
            adaptive_factor_ppm: 1_000_000,
        }
    }
}

/// Jitter statistics over the history.
#[derive(Debug, Clone, Copy, PartialEq, Eq, Structural)]
pub struct JitterStats {
    pub count: usize,
    pub mean_us: u64,
    pub std_us: u64,
    pub min_us: u64,
    pub max_us: u64,
    pub last_jitter_us: u64,
}

/// Most jitter values kept.
pub const JITTER_HISTORY_LIMIT: usize = 1000;

/// `v` clamped to `lo..=hi`.
pub open spec fn clamp_to(v: u64, lo: u64, hi: u64) -> u64 {
    if v < lo {
        lo
    } else if v > hi {
        hi
    } else {
        v
    }
}

/// The delay kept for a value drawn from the distribution of `t`: the
/// Gaussian, exponential and adaptive draws are clamped to the configured
/// bounds; uniform and Poisson draws are kept as drawn.
pub open spec fn bounded_jitter(t: JitterType, drawn: u64, lo: u64, hi: u64) -> u64 {
    match t {
        JitterType::Uniform => drawn,
        JitterType::Poisson => drawn,
        _ => clamp_to(drawn, lo, hi),
    }
}

/// `s` with `x` appended and the oldest values dropped beyond `limit`.
pub open spec fn keep_last_values(s: Seq<u64>, x: u64, limit: nat) -> Seq<u64> {
    let t = s.push(x);
    if t.len() > limit {
        t.subrange(t.len() - limit, t.len() as int)
    } else {
        t
    }
}

/// Sum of the values of `s`.
pub open spec fn total(s: Seq<u64>) -> nat
    decreases s.len(),
{
    if s.len() == 0 {
        0
    } else {
        total(s.drop_last()) + s.last() as nat
    }
}

/// Sum of the squared distances of the values of `s` from `m`.
pub open spec fn squared_deviation(s: Seq<u64>, m: u64) -> nat
    decreases s.len(),
{
    if s.len() == 0 {
        0
    } else {
        let d: nat = if s.last() >= m {
            (s.last() - m) as nat
        } else {
            (m - s.last()) as nat
        };
        squared_deviation(s.drop_last(), m) + d * d
    }
}

/// `r` is the integer square root of `x`.
pub open spec fn is_isqrt(x: nat, r: nat) -> bool {
    r * r <= x < (r + 1) * (r + 1)
}

/// Integer square root (rounded down).
pub fn isqrt(x: u128) -> (r: u64)
    ensures
        is_isqrt(x as nat, r as nat),
{
    let mut lo: u128 = 0;
    let mut hi: u128 = 0x1_0000_0000_0000_0000;
    assert(hi * hi == 0x1_0000_0000_0000_0000_0000_0000_0000_0000);
    while hi - lo > 1
        invariant
            lo < hi <= 0x1_0000_0000_0000_0000,
            lo * lo <= x,
            x < hi * hi,
        decreases hi - lo,
    {
        let mid = lo + (hi - lo) / 2;
        assert(mid * mid < 0x1_0000_0000_0000_0000_0000_0000_0000_0000) by (nonlinear_arith)
            requires
                mid < 0x1_0000_0000_0000_0000,
        ;
        if mid * mid <= x {
            lo = mid;
        } else {
            hi = mid;
        }
    }
    assert(hi == lo + 1);
    lo as u64
}

/// Jitter generator for stealth execution.
pub struct TimingObfuscator {
    config: JitterConfig,
    rng: fastrand::Rng,
    last_jitter: u64,
    jitter_history: VecDeque<u64>,
}

impl TimingObfuscator {
    pub closed spec fn config(&self) -> JitterConfig {
        self.config
    }

    /// Kept jitter values, oldest first.
    pub closed spec fn history(&self) -> Seq<u64> {
        self.jitter_history@
    }

    pub closed spec fn last_jitter(&self) -> u64 {
        self.last_jitter
    }

    pub closed spec fn wf(&self) -> bool {
        self.jitter_history@.len() <= JITTER_HISTORY_LIMIT
    }

    /// A generator with an empty history.
    pub fn new(config: JitterConfig) -> (t: Self)
        ensures
            t.wf(),
            t.config() == config,
            t.history() == Seq::<u64>::empty(),
            t.last_jitter() == 0,
    {
        TimingObfuscator {
            config,
            rng: new_rng(),
            last_jitter: 0,
            jitter_history: VecDeque::with_capacity(1000),
        }
    }

    /// A delay drawn uniformly from the configured bounds.
    pub fn uniform_jitter(&mut self) -> (r: u64)
        requires
            old(self).config().min_us <= old(self).config().max_us,
        ensures
            old(self).config().min_us <= r <= old(self).config().max_us,
            final(self).config() == old(self).config(),
            final(self).history() == old(self).history(),
            final(self).last_jitter() == old(self).last_jitter(),
            final(self).wf() == old(self).wf(),
    {
        let lo = self.config.min_us;
        let hi = self.config.max_us;
        random_between(&mut self.rng, lo, hi)
    }

    /// Keeps a delay of `drawn` µs drawn from the configured distribution
    /// (bounded as `bounded_jitter` says) as the latest jitter, and returns
    /// it.
    pub fn record_jitter(&mut self, drawn: u64) -> (r: u64)
        requires
            old(self).wf(),
        ensures
            final(self).wf(),
            r == bounded_jitter(old(self).config().jitter_type, drawn, old(self).config().min_us, old(self).config().max_us),
            final(self).last_jitter() == r,
            final(self).history() == keep_last_values(old(self).history(), r, JITTER_HISTORY_LIMIT as nat),
            final(self).config() == old(self).config(),
    {
        let r = match self.config.jitter_type {
            JitterType::Uniform => drawn,
            JitterType::Poisson => drawn,
            _ => if drawn < self.config.min_us {
                self.config.min_us
            } else if drawn > self.config.max_us {
                self.config.max_us
            } else {
                drawn
            },
        };
        self.last_jitter = r;
        let ghost pushed = self.jitter_history@.push(r);
        self.jitter_history.push_back(r);
        if self.jitter_history.len() > JITTER_HISTORY_LIMIT {
            self.jitter_history.pop_front();
            assert(self.jitter_history@ =~= pushed.subrange(1, pushed.len() as int));
        }
        r
    }

    /// Draws a uniform delay and keeps it (see `uniform_jitter` and
    /// `record_jitter`).
    pub fn generate_uniform(&mut self) -> (r: u64)
        requires
            old(self).wf(),
            old(self).config().jitter_type == JitterType::Uniform,
            old(self).config().min_us <= old(self).config().max_us,
        ensures
            final(self).wf(),
            old(self).config().min_us <= r <= old(self).config().max_us,
            final(self).last_jitter() == r,
            final(self).history() == keep_last_values(old(self).history(), r, JITTER_HISTORY_LIMIT as nat),
            final(self).config() == old(self).config(),
    {
        let drawn = self.uniform_jitter();
        self.record_jitter(drawn)
    }

    /// Statistics over the history: count, mean (rounded down), standard
    /// deviation (integer square root of the mean squared distance from the
    /// rounded mean, the sum capped at the largest `u128`), extremes (0
    /// when empty) and the latest jitter.
    pub fn stats(&self) -> (st: JitterStats)
        requires
            self.wf(),
        ensures
            st.count == self.history().len(),
            st.last_jitter_us == self.last_jitter(),
            self.history().len() == 0 ==> st.mean_us == 0 && st.std_us == 0 && st.min_us == 0
                && st.max_us == 0,
            self.history().len() > 0 ==> {
                &&& st.mean_us == total(self.history()) / self.history().len()
                &&& is_isqrt(
                    (if squared_deviation(self.history(), st.mean_us) <= u128::MAX {
                        squared_deviation(self.history(), st.mean_us)
                    } else {
                        u128::MAX as nat
                    }) / self.history().len(),
                    st.std_us as nat,
                )
                &&& self.history().contains(st.min_us)
                &&& self.history().contains(st.max_us)
                &&& forall|i: int|
                    0 <= i < self.history().len() ==> st.min_us <= #[trigger] self.history()[i]
                        <= st.max_us
            },
    {
        let n = self.jitter_history.len();
        if n == 0 {
            return JitterStats {
                count: 0,
                mean_us: 0,
                std_us: 0,
                min_us: 0,
                max_us: 0,
                last_jitter_us: self.last_jitter,
            };
        }
        let ghost h = self.history();
        let mut sum: u128 = 0;
        let mut lo: u64 = self.jitter_history[0];
        let mut hi: u64 = self.jitter_history[0];
        let mut i: usize = 0;
        while i < n
            invariant
                n == h.len(),
                h == self.history(),
                n > 0,
                n <= JITTER_HISTORY_LIMIT,
                0 <= i <= n,
                sum == total(h.take(i as int)),
                sum <= i * 0xffff_ffff_ffff_ffff,
                h.contains(lo),
                h.contains(hi),
                forall|k: int| 0 <= k < i ==> lo <= #[trigger] h[k] <= hi,
                lo <= h[0] <= hi,
            decreases n - i,
        {
            let v = self.jitter_history[i];
            assert(h.take(i + 1).drop_last() =~= h.take(i as int));
            sum = sum + v as u128;
            if v < lo {
                lo = v;
            }
            if v > hi {
                hi = v;
            }
            i = i + 1;
        }
        assert(h.take(n as int) =~= h);
        assert(sum / (n as u128) <= 0xffff_ffff_ffff_ffff) by (nonlinear_arith)
            requires
                sum <= n * 0xffff_ffff_ffff_ffff,
                n > 0,
        ;
        let mean: u64 = (sum / n as u128) as u64;
        let mut dev: u128 = 0;
        let mut j: usize = 0;
        while j < n
            invariant
                n == h.len(),
                h == self.history(),
                n > 0,
                0 <= j <= n,
                dev == if squared_deviation(h.take(j as int), mean) <= u128::MAX {
                    squared_deviation(h.take(j as int), mean)
                } else {
                    u128::MAX as nat
                },
            decreases n - j,
        {
            let v = self.jitter_history[j];
            assert(h.take(j + 1).drop_last() =~= h.take(j as int));
            let d: u64 = if v >= mean {
                v - mean
            } else {
                mean - v
            };
            proof {
                vstd::arithmetic::mul::lemma_mul_upper_bound(
                    d as int,
                    u64::MAX as int,
                    d as int,
                    u64::MAX as int,
                );
            }
            dev = dev.saturating_add(d as u128 * d as u128);
            j = j + 1;
        }
        assert(h.take(n as int) =~= h);
        let std = isqrt(dev / n as u128);
        JitterStats {
            count: n,
            mean_us: mean,
            std_us: std,
            min_us: lo,
            max_us: hi,
            last_jitter_us: self.last_jitter,
        }
    }

    /// The kept jitter values, oldest first.
    pub fn history_values(&self) -> (r: Vec<u64>)
        ensures
            r@ == self.history(),
    {
        let mut r: Vec<u64> = Vec::new();
        let mut i: usize = 0;
        while i < self.jitter_history.len()
            invariant
                0 <= i <= self.jitter_history@.len(),
                r@ == self.jitter_history@.take(i as int),
            decreases self.jitter_history@.len() - i,
        {
            r.push(self.jitter_history[i]);
            i = i + 1;
            assert(r@ =~= self.jitter_history@.take(i as int));
        }
        assert(self.jitter_history@.take(self.jitter_history@.len() as int) =~= self.jitter_history@);
        r
    }

    /// Forgets the history and the latest jitter.
    pub fn reset(&mut self)
        ensures
            final(self).wf(),
            final(self).config() == old(self).config(),
            final(self).history() == Seq::<u64>::empty(),
            final(self).last_jitter() == 0,
    {
        self.jitter_history.clear();
        self.last_jitter = 0;
    }
}


/// A clamped draw (Gaussian, exponential, adaptive) always lies within
/// the configured bounds.
pub proof fn law_clamped_jitter_in_bounds(t: JitterType, drawn: u64, lo: u64, hi: u64)
    requires
        lo <= hi,
        t != JitterType::Uniform,
        t != JitterType::Poisson,
    ensures
        lo <= bounded_jitter(t, drawn, lo, hi) <= hi,
{
}

/// The history holds at most the limit, and its last value is the latest
/// jitter.
pub proof fn law_history_keeps_latest(s: Seq<u64>, x: u64)
    requires
        s.len() <= JITTER_HISTORY_LIMIT,
    ensures
        keep_last_values(s, x, JITTER_HISTORY_LIMIT as nat).len() <= JITTER_HISTORY_LIMIT,
        keep_last_values(s, x, JITTER_HISTORY_LIMIT as nat).last() == x,
{
}
/// A clamped draw (Gaussian, exponential, adaptive) is moved only when it
/// lies outside the bounds: a draw within them is kept as drawn, one below
/// is raised to the lower bound and one above lowered to the upper bound.
/// Uniform and Poisson draws are always kept.
pub proof fn law_clamp_moves_only_outliers(t: JitterType, drawn: u64, lo: u64, hi: u64)
    requires
        lo <= hi,
    ensures
        lo <= drawn <= hi ==> bounded_jitter(t, drawn, lo, hi) == drawn,
        t != JitterType::Uniform && t != JitterType::Poisson && drawn < lo ==> bounded_jitter(
            t,
            drawn,
            lo,
            hi,
        ) == lo,
        t != JitterType::Uniform && t != JitterType::Poisson && drawn > hi ==> bounded_jitter(
            t,
            drawn,
            lo,
            hi,
        ) == hi,
        t == JitterType::Uniform || t == JitterType::Poisson ==> bounded_jitter(t, drawn, lo, hi)
            == drawn,
{
}

} // verus!
