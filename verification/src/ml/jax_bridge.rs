// Model configuration, inference modes and inference statistics.
use vstd::prelude::*;

verus! {

/// Inference mode.
#[derive(Debug, Clone, Copy, PartialEq, Eq, Structural)]
pub enum InferenceMode {
    Sync,
    Async,
    Batch,
    Streaming,
}

/// Model configuration.
#[derive(Debug, Clone)]
pub struct JAXConfig {
    pub model_path: String,
    pub device_id: i32,
    pub use_gpu: bool,
    pub batch_size: usize,
    pub timeout_ms: u64,
    pub warmup_iterations: usize,
}

impl Default for JAXConfig {
    /// The production model on GPU 0, batches of 32, a 1 ms timeout and
    /// 10 warmup iterations.
    fn default() -> (c: Self)
        ensures
            c.model_path@ == "models/production.xla"@,
            c.device_id == 0,
            c.use_gpu,
            c.batch_size == 32,
            c.timeout_ms == 1,
            c.warmup_iterations == 10,
    {
        JAXConfig {
            model_path: "models/production.xla".to_owned(),
            device_id: 0,
            use_gpu: true,
            batch_size: 32,
            timeout_ms: 1,
            warmup_iterations: 10,
        }
    }
}

/// Inference statistics. Totals wrap at the largest `u64`.
#[derive(Debug, Clone, Copy, PartialEq, Eq, Structural)]
pub struct ModelStats {
    pub inferences: u64,
    pub failed_inferences: u64,
    pub total_latency_ns: u64,
    pub max_latency_ns: u64,
    pub min_latency_ns: u64,
}

/// `a + b`, wrapping at the largest `u64`.
pub open spec fn wrapping(a: u64, b: u64) -> u64 {
    if a + b <= u64::MAX {
        (a + b) as u64
    } else {
        (a + b - u64::MAX - 1) as u64
    }
}

impl Default for ModelStats {
    fn default() -> (s: Self)
        ensures
            s == (ModelStats {
                inferences: 0,
                failed_inferences: 0,
                total_latency_ns: 0,
                max_latency_ns: 0,
                min_latency_ns: 0,
            }),
    {
        ModelStats {
            inferences: 0,
            failed_inferences: 0,
            total_latency_ns: 0,
            max_latency_ns: 0,
            min_latency_ns: 0,
        }
    }
}

impl ModelStats {
    /// Counts a successful inference that took `latency_ns`: the largest
    /// and smallest latencies follow (a smallest of 0 means none yet).
    pub fn record_success(&mut self, latency_ns: u64)
        ensures
            final(self).inferences == wrapping(old(self).inferences, 1),
            final(self).failed_inferences == old(self).failed_inferences,
            final(self).total_latency_ns == wrapping(old(self).total_latency_ns, latency_ns),
            final(self).max_latency_ns == if latency_ns > old(self).max_latency_ns {
                latency_ns
            } else {
                old(self).max_latency_ns
            },
            final(self).min_latency_ns == if old(self).min_latency_ns == 0 || latency_ns < old(
                self,
            ).min_latency_ns {
                latency_ns
            } else {
                old(self).min_latency_ns
            },
    {
        self.inferences = self.inferences.wrapping_add(1);
        self.total_latency_ns = self.total_latency_ns.wrapping_add(latency_ns);
        if latency_ns > self.max_latency_ns {
            self.max_latency_ns = latency_ns;
        }
        self.min_latency_ns = if self.min_latency_ns == 0 {
            latency_ns
        } else if latency_ns < self.min_latency_ns {
            latency_ns
        } else {
            self.min_latency_ns
        };
    }

    /// Counts a failed inference.
    pub fn record_failure(&mut self)
        ensures
            *final(self) == (ModelStats {
                failed_inferences: wrapping(old(self).failed_inferences, 1),
                ..*old(self)
            }),
    {
        self.failed_inferences = self.failed_inferences.wrapping_add(1);
    }

    /// Mean latency of the successful inferences (rounded down; 0 when
    /// none).
    pub fn avg_latency_ns(&self) -> (r: u64)
        ensures
            r == if self.inferences > 0 {
                self.total_latency_ns / self.inferences
            } else {
                0
            },
    {
        if self.inferences > 0 {
            self.total_latency_ns / self.inferences
        } else {
            0
        }
    }
}

} // verus!
