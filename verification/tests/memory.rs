use hft_stealth::memory::allocators::{ArenaAllocator, Block, HFTAllocator, LocalCache, ObjectPool};
use hft_stealth::memory::cache_aligned::CacheAligned;
use hft_stealth::memory::zero_copy::{ScatterGatherList, ZeroCopyBuffer};

#[test]
fn arena_hands_out_aligned_disjoint_blocks() {
    let mut arena = ArenaAllocator::new();
    arena.init(64);
    assert_eq!(arena.allocate(5), Some(0));
    assert_eq!(arena.allocate(8), Some(8));
    assert_eq!(arena.allocate(17), Some(16));
    assert_eq!(arena.allocate(32), None);
    assert_eq!(arena.allocate(1), None);
    arena.reset();
    assert_eq!(arena.allocate(64), Some(0));
}

#[test]
fn pool_reuses_last_returned_chunk() {
    let mut pool = ObjectPool::new(16, 2);
    assert_eq!(pool.allocate(), Some(1));
    assert_eq!(pool.allocate(), Some(0));
    assert_eq!(pool.allocate(), Some(2));
    assert!(pool.deallocate(1));
    assert_eq!(pool.allocate(), Some(1));
    let st = pool.stats();
    assert_eq!(st.chunk_size, 16);
    assert_eq!(st.total_allocations, 4);
    assert_eq!(st.total_deallocations, 1);
    assert_eq!(st.cache_hits, 3);
    assert_eq!(st.cache_misses, 1);
    assert_eq!(st.pool_size, 0);
}

#[test]
fn allocator_routes_by_size_class() {
    let mut a = HFTAllocator::new();
    match a.allocate(100) {
        Some(Block::Pooled { pool, chunk }) => {
            assert_eq!(pool, 6);
            assert_eq!(chunk, 0);
            assert!(a.deallocate(Block::Pooled { pool, chunk }, 100));
        }
        other => panic!("expected a pooled block, got {:?}", other),
    }
    assert_eq!(a.allocate(5000), None);
    assert!(!a.deallocate(Block::Arena(0), 5000));
}

#[test]
fn local_cache_flushes_at_limit() {
    let mut c = LocalCache::new();
    c.store(1, 1_048_576);
    c.store(2, 10);
    c.store(3, 10);
    c.store(4, 10);
}

#[test]
fn cache_aligned_and_buffers() {
    let c = CacheAligned::new(42u32);
    assert_eq!(*c.get(), 42);
    let b = ZeroCopyBuffer::new(4096);
    assert!(b.as_slice().is_empty());
    let mut l = ScatterGatherList::new();
    l.add_buffer(0x1000, 64);
    l.add_buffer(0x2000, 32);
    assert_eq!(l.entries.len(), 2);
    assert_eq!(l.entries[1].len, 32);
}
