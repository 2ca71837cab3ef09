// io_uring driver configuration.
use vstd::prelude::*;

verus! {

/// Queue depth and buffer pool size for the io_uring driver.
pub struct IoUringConfig {
    pub queue_depth: u32,
    pub buffer_size: usize,
}

impl Default for IoUringConfig {
    fn default() -> (c: Self)
        ensures
            c.queue_depth == 4096,
            c.buffer_size == 67_108_864,
    {
        IoUringConfig { queue_depth: 4096, buffer_size: 67_108_864 }
    }
}

} // verus!
