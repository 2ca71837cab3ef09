// Machine learning configuration, model statistics and batch assembly.
pub mod batch_inference;
pub mod jax_bridge;

use vstd::prelude::*;

verus! {

/// ML configuration.
#[derive(Debug, Clone)]
pub struct MLConfig {
    pub model_path: String,
    pub batch_size: usize,
    pub max_batch_delay_ns: u64,
    pub feature_window_size: usize,
    pub inference_timeout_ms: u64,
    pub use_gpu: bool,
    pub gpu_device_id: i32,
    pub enable_profiling: bool,
}

impl Default for MLConfig {
    /// The production model on GPU 0, batches of 32 within 100 µs, a
    /// feature window of 256 and a 1 ms inference timeout.
    fn default() -> (c: Self)
        ensures
            c.model_path@ == "models/production.xla"@,
            c.batch_size == 32,
            c.max_batch_delay_ns == 100_000,
            c.feature_window_size == 256,
            c.inference_timeout_ms == 1,
            c.use_gpu,
            c.gpu_device_id == 0,
            !c.enable_profiling,
    {
        MLConfig {
            model_path: "models/production.xla".to_owned(),
            batch_size: 32,
            max_batch_delay_ns: 100_000,
            feature_window_size: 256,
            inference_timeout_ms: 1,
            use_gpu: true,
            gpu_device_id: 0,
            enable_profiling: false,
        }
    }
}

} // verus!
