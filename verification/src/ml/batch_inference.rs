// Latency-aware batch assembly: requests are gathered from a queue into
// batches, which are released when full or old enough.
use vstd::prelude::*;
use std::collections::VecDeque;

verus! {

broadcast use vstd::std_specs::vecdeque::group_vec_dequeue_axioms;

/// Batch configuration.
#[derive(Debug, Clone, Copy, PartialEq, Eq, Structural)]
pub struct BatchConfig {
    pub max_batch_size: usize,
    pub max_batch_delay_ns: u64,
    pub min_batch_size: usize,
    pub num_worker_threads: usize,
    pub enable_priority: bool,
}

impl Default for BatchConfig {
    /// Batches of up to 32 requests, released after 100 µs, two workers,
    /// priorities on.
    fn default() -> (c: Self)
        ensures
            c == (BatchConfig {
                max_batch_size: 32,
                max_batch_delay_ns: 100_000,
                min_batch_size: 1,
                num_worker_threads: 2,
                enable_priority: true,
            }),
    {
        BatchConfig {
            max_batch_size: 32,
            max_batch_delay_ns: 100_000,
            min_batch_size: 1,
            num_worker_threads: 2,
            enable_priority: true,
        }
    }
}

/// A queued inference request, as the assembler sees it.
#[derive(Debug, Clone, Copy, PartialEq, Eq, Structural)]
pub struct PendingRequest {
    pub id: u64,
    /// Higher is more important.
    pub priority: u8,
    pub deadline_ns: u64,
    pub timestamp_ns: u64,
}

/// A batch released for inference.
#[derive(Debug)]
pub struct InferenceBatch {
    pub id: u64,
    pub requests: Vec<PendingRequest>,
    pub created_at_ns: u64,
    pub batch_size: usize,
}

/// Priority above which a request counts as a priority boost.
pub const PRIORITY_BOOST_THRESHOLD: u8 = 200;

/// How many requests of `current` waiting ones the batch takes from a queue
/// of `queued`: one to start an empty batch, else as many as fit.
pub open spec fn taken_count(current: nat, queued: nat, max_batch_size: nat) -> nat {
    if current == 0 {
        if queued > 0 {
            1
        } else {
            0
        }
    } else if current >= max_batch_size {
        0
    } else if max_batch_size - current <= queued {
        (max_batch_size - current) as nat
    } else {
        queued
    }
}

/// Number of requests of `s` above the boost threshold.
pub open spec fn boosted(s: Seq<PendingRequest>) -> nat
    decreases s.len(),
{
    if s.len() == 0 {
        0
    } else {
        boosted(s.drop_last()) + if s.last().priority > PRIORITY_BOOST_THRESHOLD {
            1nat
        } else {
            0nat
        }
    }
}

/// Whether a batch of `len` requests started at `start_ns` is released at
/// `now_ns`: when full, or when at least `delay` old and at least the
/// minimum size.
pub open spec fn ready(len: nat, start_ns: u64, now_ns: u64, c: BatchConfig) -> bool {
    len > 0 && (len >= c.max_batch_size || ((if now_ns >= start_ns {
        now_ns - start_ns
    } else {
        0
    }) >= c.max_batch_delay_ns && len >= c.min_batch_size))
}

/// Gathers queued requests into batches.
pub struct BatchAssembler {
    config: BatchConfig,
    current: Vec<PendingRequest>,
    batch_start_ns: u64,
    priority_boosts: u64,
    batches_processed: u64,
}

impl BatchAssembler {
    pub closed spec fn config(&self) -> BatchConfig {
        self.config
    }

    /// Requests of the batch being gathered.
    pub closed spec fn current(&self) -> Seq<PendingRequest> {
        self.current@
    }

    pub closed spec fn batch_start_ns(&self) -> u64 {
        self.batch_start_ns
    }

    pub closed spec fn priority_boosts(&self) -> u64 {
        self.priority_boosts
    }

    pub closed spec fn batches_processed(&self) -> u64 {
        self.batches_processed
    }

    /// The counts of priority boosts and of released batches so far.
    pub fn counters(&self) -> (r: (u64, u64))
        ensures
            r == (self.priority_boosts(), self.batches_processed()),
    {
        (self.priority_boosts, self.batches_processed)
    }

    /// An assembler with no batch under way.
    pub fn new(config: BatchConfig) -> (a: Self)
        ensures
            a.config() == config,
            a.current() == Seq::<PendingRequest>::empty(),
            a.batch_start_ns() == 0,
            a.priority_boosts() == 0,
            a.batches_processed() == 0,
    {
        BatchAssembler {
            config,
            current: Vec::new(),
            batch_start_ns: 0,
            priority_boosts: 0,
            batches_processed: 0,
        }
    }

    /// One round of assembly at `now_ns`: an empty batch starts with the
    /// first queued request (started at `now_ns`); a batch under way takes
    /// queued requests, oldest first, until it is full, counting those of
    /// high priority when priorities are on. A batch that is then ready
    /// (see `ready`) is released with id `now_ns` and a new one begins.
    /// The released batch records a size of 0.
    pub fn step(&mut self, queue: &mut VecDeque<PendingRequest>, now_ns: u64) -> (r: Option<InferenceBatch>)
        requires
            old(self).priority_boosts() + old(queue)@.len() <= u64::MAX,
            old(self).batches_processed() < u64::MAX,
        ensures
            final(self).config() == old(self).config(),
            ({
                let k = taken_count(
                    old(self).current().len(),
                    old(queue)@.len(),
                    old(self).config().max_batch_size as nat,
                );
                let gathered = old(self).current() + old(queue)@.take(k as int);
                let start = if old(self).current().len() == 0 && k > 0 {
                    now_ns
                } else {
                    old(self).batch_start_ns()
                };
                &&& final(queue)@ == old(queue)@.skip(k as int)
                &&& final(self).batch_start_ns() == start
                &&& final(self).priority_boosts() == if old(self).current().len() > 0
                    && old(self).config().enable_priority {
                    old(self).priority_boosts() + boosted(old(queue)@.take(k as int))
                } else {
                    old(self).priority_boosts() as int
                }
                &&& if ready(gathered.len(), start, now_ns, old(self).config()) {
                    &&& r matches Some(b) && b.requests@ == gathered && b.id == now_ns
                        && b.created_at_ns == start && b.batch_size == 0
                    &&& final(self).current() == Seq::<PendingRequest>::empty()
                    &&& final(self).batches_processed() == old(self).batches_processed() + 1
                } else {
                    &&& r is None
                    &&& final(self).current() == gathered
                    &&& final(self).batches_processed() == old(self).batches_processed()
                }
            }),
    {
        let max = self.config.max_batch_size;
        let ghost q0 = queue@;
        let ghost c0 = self.current@;
        let ghost b0 = self.priority_boosts;
        let ghost mut k: int = 0;
        if self.current.len() == 0 {
            match queue.pop_front() {
                Some(request) => {
                    self.current.push(request);
                    self.batch_start_ns = now_ns;
                    proof {
                        k = 1;
                        assert(self.current@ =~= c0 + q0.take(1));
                        assert(queue@ =~= q0.skip(1));
                    }
                },
                None => {
                    assert(self.current@ =~= c0 + q0.take(0));
                    assert(queue@ =~= q0.skip(0));
                },
            }
        } else {
            assert(self.current@ =~= c0 + q0.take(0));
            assert(queue@ =~= q0.skip(0));
            assert(q0.take(0) =~= Seq::<PendingRequest>::empty());
            let mut exhausted = false;
            while !exhausted && self.current.len() < max
                invariant
                    max == self.config.max_batch_size,
                    self.config == old(self).config,
                    self.batch_start_ns == old(self).batch_start_ns,
                    self.batches_processed == old(self).batches_processed,
                    c0.len() > 0,
                    0 <= k <= q0.len(),
                    self.current@ == c0 + q0.take(k),
                    queue@ == q0.skip(k),
                    self.priority_boosts == if self.config.enable_priority {
                        b0 + boosted(q0.take(k))
                    } else {
                        b0 as int
                    },
                    b0 + q0.len() <= u64::MAX,
                    boosted(q0.take(k)) <= k,
                    exhausted ==> k == q0.len(),
                    c0.len() < max ==> self.current@.len() <= max,
                    c0.len() >= max ==> k == 0,
                decreases q0.len() - k + if exhausted { 0int } else { 1int },
            {
                match queue.pop_front() {
                    Some(request) => {
                        proof {
                            assert(q0.skip(k)[0] == q0[k]);
                            assert(q0.take(k + 1).drop_last() =~= q0.take(k));
                            assert(q0.take(k + 1).last() == q0[k]);
                        }
                        if self.config.enable_priority && request.priority > PRIORITY_BOOST_THRESHOLD {
                            self.current.push(request);
                            self.priority_boosts = self.priority_boosts + 1;
                        } else {
                            self.current.push(request);
                        }
                        proof {
                            assert(self.current@ =~= c0 + q0.take(k + 1));
                            assert(queue@ =~= q0.skip(k + 1));
                            k = k + 1;
                        }
                    },
                    None => {
                        exhausted = true;
                    },
                }
            }
            proof {
                if !exhausted {
                    if c0.len() < max {
                        assert(self.current@.len() == max);
                    }
                }
            }
        }
        assert(k == taken_count(c0.len(), q0.len(), max as nat));
        let len = self.current.len();
        let age: u64 = if now_ns >= self.batch_start_ns {
            now_ns - self.batch_start_ns
        } else {
            0
        };
        if len > 0 && (len >= max || (age >= self.config.max_batch_delay_ns
            && len >= self.config.min_batch_size)) {
            let mut requests: Vec<PendingRequest> = Vec::new();
            std::mem::swap(&mut requests, &mut self.current);
            let batch = InferenceBatch {
                id: now_ns,
                requests,
                created_at_ns: self.batch_start_ns,
                batch_size: self.current.len(),
            };
            self.current = Vec::with_capacity(max);
            self.batches_processed = self.batches_processed + 1;
            Some(batch)
        } else {
            None
        }
    }
}


/// A batch under way never grows past the maximum batch size (when that
/// size is at least one): it starts with one request and then takes only
/// what fits.
pub proof fn law_batches_stay_within_size(current: nat, queued: nat, max_batch_size: nat)
    requires
        max_batch_size >= 1,
        current <= max_batch_size,
    ensures
        current + taken_count(current, queued, max_batch_size) <= max_batch_size,
        taken_count(current, queued, max_batch_size) <= queued,
{
}

/// A batch that has reached the maximum size is always released.
pub proof fn law_full_batch_is_released(len: nat, start_ns: u64, now_ns: u64, c: BatchConfig)
    requires
        len > 0,
        len >= c.max_batch_size,
    ensures
        ready(len, start_ns, now_ns, c),
{
}
} // verus!
