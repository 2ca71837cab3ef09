// Memory management: cache-aligned cells, bump arenas, object pools,
// zero-copy buffers.
pub mod allocator;
pub mod allocators;
pub mod cache_aligned;
pub mod zero_copy;

use vstd::prelude::*;

verus! {

/// Size of a cache line in bytes.
pub const CACHE_LINE_SIZE: usize = 64;

/// Size of a memory page in bytes.
pub const PAGE_SIZE: usize = 4096;

/// Memory statistics handle.
pub struct MemoryStats;

/// The process-wide memory statistics handle.
pub const MEMORY_STATS: MemoryStats = MemoryStats;

} // verus!
