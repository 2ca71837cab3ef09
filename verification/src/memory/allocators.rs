// Arena (bump) allocation, fixed-size object pools with a free list, the
// size classes that route small requests to the pools, and a per-thread
// cache of small blocks. Blocks are named by offsets and chunk indices.
use vstd::prelude::*;

verus! {

/// `size` rounded up to a multiple of 8.
pub open spec fn align8(size: nat) -> nat {
    ((size + 7) / 8 * 8) as nat
}

/// Bump allocator over one buffer; blocks are offsets into it.
pub struct ArenaAllocator {
    buffer: Vec<u8>,
    offset: usize,
    capacity: usize,
}

impl ArenaAllocator {
    /// Offset of the next block.
    pub closed spec fn offset(&self) -> usize {
        self.offset
    }

    /// Size of the buffer.
    pub closed spec fn capacity(&self) -> usize {
        self.capacity
    }

    pub closed spec fn wf(&self) -> bool {
        self.buffer@.len() == self.capacity
    }

    /// An arena without a buffer.
    pub fn new() -> (a: Self)
        ensures
            a.wf(),
            a.offset() == 0,
            a.capacity() == 0,
    {
        ArenaAllocator { buffer: Vec::new(), offset: 0, capacity: 0 }
    }

    /// Gives the arena a zeroed buffer of `capacity` bytes and starts over.
    pub fn init(&mut self, capacity: usize)
        ensures
            final(self).wf(),
            final(self).offset() == 0,
            final(self).capacity() == capacity,
    {
        self.buffer = vec![0u8; capacity];
        self.capacity = capacity;
        self.offset = 0;
    }

    /// Takes a block of `size` bytes (rounded up to a multiple of 8): its
    /// offset, or `None` when it would end past the buffer. The next offset
    /// advances by the rounded size either way (up to the largest `usize`).
    pub fn allocate(&mut self, size: usize) -> (r: Option<usize>)
        requires
            size + 7 <= usize::MAX,
        ensures
            final(self).capacity() == old(self).capacity(),
            final(self).wf() == old(self).wf(),
            final(self).offset() == if old(self).offset() + align8(size as nat) <= usize::MAX {
                old(self).offset() + align8(size as nat)
            } else {
                usize::MAX as int
            },
            r == if old(self).offset() + align8(size as nat) > old(self).capacity() {
                None::<usize>
            } else {
                Some(old(self).offset())
            },
    {
        let aligned_size: usize = (size + 7) / 8 * 8;
        let current = self.offset;
        self.offset = self.offset.saturating_add(aligned_size);
        if current as u128 + aligned_size as u128 > self.capacity as u128 {
            None
        } else {
            Some(current)
        }
    }

    /// Starts handing out blocks from the beginning again.
    pub fn reset(&mut self)
        ensures
            final(self).wf() == old(self).wf(),
            final(self).offset() == 0,
            final(self).capacity() == old(self).capacity(),
    {
        self.offset = 0;
    }
}

/// Counters of an object pool.
struct ObjectPoolStats {
    allocations: usize,
    deallocations: usize,
    hits: usize,
    misses: usize,
}

/// Pool statistics.
#[derive(Debug, Clone, Copy, PartialEq, Eq, Structural)]
pub struct PoolStats {
    pub chunk_size: usize,
    pub pool_size: usize,
    pub total_allocations: usize,
    pub total_deallocations: usize,
    pub cache_hits: usize,
    pub cache_misses: usize,
}

/// Pool of fixed-size chunks; a chunk is named by its index, and free
/// chunks are handed out last-freed first.
pub struct ObjectPool {
    chunk_size: usize,
    chunks: Vec<Vec<u8>>,
    free_list: Vec<usize>,
    stats: ObjectPoolStats,
}

/// `counter + 1`, wrapping at the largest `usize`.
pub open spec fn bumped(counter: usize) -> usize {
    if counter < usize::MAX {
        (counter + 1) as usize
    } else {
        0
    }
}

/// `q` is pool `p` after handing out `r`: the last free chunk when there
/// is one (a hit), else a new chunk numbered after the existing ones (a
/// miss).
pub open spec fn pool_allocated(p: ObjectPool, q: ObjectPool, r: Option<usize>) -> bool {
    &&& q.chunk_size() == p.chunk_size()
    &&& p.free().len() > 0 ==> {
        &&& r == Some(p.free().last())
        &&& q.free() == p.free().drop_last()
        &&& q.chunk_count() == p.chunk_count()
        &&& q.counters() == (bumped(p.counters().0), p.counters().1, bumped(p.counters().2), p.counters().3)
    }
    &&& p.free().len() == 0 ==> {
        &&& r == Some(p.chunk_count() as usize)
        &&& q.free() == p.free()
        &&& q.chunk_count() == p.chunk_count() + 1
        &&& q.counters() == (bumped(p.counters().0), p.counters().1, p.counters().2, bumped(p.counters().3))
    }
}

/// `q` is pool `p` with chunk `idx` returned to its free list.
pub open spec fn pool_returned(p: ObjectPool, q: ObjectPool, idx: usize) -> bool {
    &&& q.chunk_size() == p.chunk_size()
    &&& q.chunk_count() == p.chunk_count()
    &&& q.free() == p.free().push(idx)
    &&& q.counters() == (p.counters().0, bumped(p.counters().1), p.counters().2, p.counters().3)
}

impl ObjectPool {
    pub closed spec fn chunk_size(&self) -> usize {
        self.chunk_size
    }

    /// Number of chunks the pool owns.
    pub closed spec fn chunk_count(&self) -> nat {
        self.chunks@.len()
    }

    /// Free chunks; the last is handed out first.
    pub closed spec fn free(&self) -> Seq<usize> {
        self.free_list@
    }

    /// The counters, as the statistics report them.
    pub closed spec fn counters(&self) -> (usize, usize, usize, usize) {
        (self.stats.allocations, self.stats.deallocations, self.stats.hits, self.stats.misses)
    }

    pub closed spec fn wf(&self) -> bool {
        forall|i: int| 0 <= i < self.chunks@.len() ==> (#[trigger] self.chunks@[i])@.len() == self.chunk_size
    }

    /// A pool with no chunks.
    pub fn empty() -> (p: Self)
        ensures
            p.wf(),
            p.chunk_size() == 0,
            p.chunk_count() == 0,
            p.free() == Seq::<usize>::empty(),
            p.counters() == (0usize, 0usize, 0usize, 0usize),
    {
        ObjectPool {
            chunk_size: 0,
            chunks: Vec::new(),
            free_list: Vec::new(),
            stats: ObjectPoolStats { allocations: 0, deallocations: 0, hits: 0, misses: 0 },
        }
    }

    /// A pool of `initial_capacity` zeroed chunks of `chunk_size` bytes, all
    /// free; chunk 0 is handed out last.
    pub fn new(chunk_size: usize, initial_capacity: usize) -> (p: Self)
        ensures
            p.wf(),
            p.chunk_size() == chunk_size,
            p.chunk_count() == initial_capacity,
            p.free() == Seq::new(initial_capacity as nat, |i: int| i as usize),
            p.counters() == (0usize, 0usize, 0usize, 0usize),
    {
        let mut pool = ObjectPool {
            chunk_size,
            chunks: Vec::new(),
            free_list: Vec::with_capacity(initial_capacity),
            stats: ObjectPoolStats { allocations: 0, deallocations: 0, hits: 0, misses: 0 },
        };
        let mut i: usize = 0;
        while i < initial_capacity
            invariant
                0 <= i <= initial_capacity,
                pool.wf(),
                pool.chunk_size == chunk_size,
                pool.chunks@.len() == i,
                pool.free_list@ == Seq::new(i as nat, |j: int| j as usize),
                pool.stats.allocations == 0 && pool.stats.deallocations == 0 && pool.stats.hits == 0
                    && pool.stats.misses == 0,
            decreases initial_capacity - i,
        {
            let chunk = vec![0u8; chunk_size];
            pool.chunks.push(chunk);
            pool.free_list.push(i);
            i = i + 1;
            assert(pool.free_list@ =~= Seq::new(i as nat, |j: int| j as usize));
        }
        pool
    }

    /// Hands out a chunk: the last freed one when there is one (a hit),
    /// else a new zeroed chunk added to the pool (a miss).
    pub fn allocate(&mut self) -> (r: Option<usize>)
        requires
            old(self).wf(),
        ensures
            final(self).wf(),
            final(self).chunk_size() == old(self).chunk_size(),
            pool_allocated(*old(self), *final(self), r),
    {
        self.stats.allocations = self.stats.allocations.wrapping_add(1);
        match self.free_list.pop() {
            Some(idx) => {
                self.stats.hits = self.stats.hits.wrapping_add(1);
                Some(idx)
            },
            None => {
                self.stats.misses = self.stats.misses.wrapping_add(1);
                let idx = self.chunks.len();
                let chunk = vec![0u8; self.chunk_size];
                self.chunks.push(chunk);
                Some(idx)
            },
        }
    }

    /// Returns chunk `idx` to the free list; always accepted.
    pub fn deallocate(&mut self, idx: usize) -> (accepted: bool)
        requires
            old(self).wf(),
        ensures
            final(self).wf(),
            accepted,
            pool_returned(*old(self), *final(self), idx),
    {
        self.stats.deallocations = self.stats.deallocations.wrapping_add(1);
        self.free_list.push(idx);
        true
    }

    /// The statistics: chunk size, free chunks and the counters.
    pub fn stats(&self) -> (st: PoolStats)
        ensures
            st.chunk_size == self.chunk_size(),
            st.pool_size == self.free().len(),
            st.total_allocations == self.counters().0,
            st.total_deallocations == self.counters().1,
            st.cache_hits == self.counters().2,
            st.cache_misses == self.counters().3,
    {
        PoolStats {
            chunk_size: self.chunk_size,
            pool_size: self.free_list.len(),
            total_allocations: self.stats.allocations,
            total_deallocations: self.stats.deallocations,
            cache_hits: self.stats.hits,
            cache_misses: self.stats.misses,
        }
    }
}

/// The pool size class of a request of `size` bytes: sizes up to 4096
/// bytes fall into sixteen classes (8, 16, 32, 48, 64, 96, 128, 192, 256,
/// 384, 512, 768, 1024, 1536, 2048, 4096 bytes); larger ones have none.
pub open spec fn size_class(size: usize) -> Option<usize> {
    if size <= 8 {
        Some(0usize)
    } else if size <= 16 {
        Some(1usize)
    } else if size <= 32 {
        Some(2usize)
    } else if size <= 48 {
        Some(3usize)
    } else if size <= 64 {
        Some(4usize)
    } else if size <= 96 {
        Some(5usize)
    } else if size <= 128 {
        Some(6usize)
    } else if size <= 192 {
        Some(7usize)
    } else if size <= 256 {
        Some(8usize)
    } else if size <= 384 {
        Some(9usize)
    } else if size <= 512 {
        Some(10usize)
    } else if size <= 768 {
        Some(11usize)
    } else if size <= 1024 {
        Some(12usize)
    } else if size <= 1536 {
        Some(13usize)
    } else if size <= 2048 {
        Some(14usize)
    } else if size <= 4096 {
        Some(15usize)
    } else {
        None
    }
}

/// Sizes of the pools the allocator sets up, smallest first.
pub open spec fn pool_size_of(i: int) -> usize {
    seq![
        8usize, 16, 32, 48, 64, 96, 128, 192, 256, 384, 512, 768, 1024, 1536, 2048, 4096, 8192,
        16384, 32768, 65536, 131072, 262144, 524288, 1048576, 2097152, 4194304, 8388608, 16777216,
        33554432, 67108864, 134217728, 268435456,
    ][i]
}

/// Number of pools of the allocator.
pub const POOL_COUNT: usize = 32;

/// A block handed out by the allocator.
#[derive(Debug, Clone, Copy, PartialEq, Eq, Structural)]
pub enum Block {
    /// Chunk `chunk` of pool `pool`.
    Pooled { pool: usize, chunk: usize },
    /// Offset into the arena.
    Arena(usize),
}

/// `r` is a chunk of pool `pool`.
pub open spec fn is_pool_chunk(r: Option<Block>, pool: usize) -> bool {
    match r {
        Some(Block::Pooled { pool: p, chunk: _ }) => p == pool,
        _ => false,
    }
}

/// Allocator that serves small requests from size-class pools and the
/// rest from an arena.
pub struct HFTAllocator {
    arena: ArenaAllocator,
    pools: Vec<ObjectPool>,
}

impl HFTAllocator {
    pub closed spec fn wf(&self) -> bool {
        &&& self.pools@.len() == POOL_COUNT
        &&& forall|i: int| 0 <= i < self.pools@.len() ==> (#[trigger] self.pools@[i]).wf()
    }

    pub closed spec fn arena(&self) -> ArenaAllocator {
        self.arena
    }

    pub closed spec fn pools(&self) -> Seq<ObjectPool> {
        self.pools@
    }

    /// An allocator with an empty arena and empty pools.
    pub fn new() -> (a: Self)
        ensures
            a.wf(),
            a.arena().offset() == 0,
            a.arena().capacity() == 0,
            forall|i: int| 0 <= i < POOL_COUNT ==> (#[trigger] a.pools()[i]).chunk_count() == 0
                && a.pools()[i].free().len() == 0,
    {
        let mut pools: Vec<ObjectPool> = Vec::new();
        let mut i: usize = 0;
        while i < POOL_COUNT
            invariant
                0 <= i <= POOL_COUNT,
                pools@.len() == i,
                forall|j: int| 0 <= j < i ==> (#[trigger] pools@[j]).wf() && pools@[j].chunk_count() == 0
                    && pools@[j].free().len() == 0,
            decreases POOL_COUNT - i,
        {
            pools.push(ObjectPool::empty());
            i = i + 1;
        }
        HFTAllocator { arena: ArenaAllocator::new(), pools }
    }

    /// Sets up each pool with 1024 chunks of its size (see `pool_size_of`).
    pub fn init(&mut self)
        requires
            old(self).wf(),
        ensures
            final(self).wf(),
            final(self).arena() == old(self).arena(),
            forall|i: int|
                0 <= i < POOL_COUNT ==> (#[trigger] final(self).pools()[i]).chunk_size() == pool_size_of(i)
                    && final(self).pools()[i].chunk_count() == 1024,
    {
        let common_sizes: [usize; 32] = [
            8, 16, 32, 48, 64, 96, 128, 192, 256, 384, 512, 768, 1024, 1536, 2048, 4096, 8192,
            16384, 32768, 65536, 131072, 262144, 524288, 1048576, 2097152, 4194304, 8388608,
            16777216, 33554432, 67108864, 134217728, 268435456,
        ];
        assert(common_sizes@ =~= seq![
            8usize, 16, 32, 48, 64, 96, 128, 192, 256, 384, 512, 768, 1024, 1536, 2048, 4096, 8192,
            16384, 32768, 65536, 131072, 262144, 524288, 1048576, 2097152, 4194304, 8388608, 16777216,
            33554432, 67108864, 134217728, 268435456,
        ]);
        let mut i: usize = 0;
        while i < POOL_COUNT
            invariant
                0 <= i <= POOL_COUNT,
                self.wf(),
                self.arena == old(self).arena,
                forall|k: int| 0 <= k < 32 ==> common_sizes@[k] == pool_size_of(k),
                forall|j: int|
                    0 <= j < i ==> (#[trigger] self.pools@[j]).chunk_size() == pool_size_of(j)
                        && self.pools@[j].chunk_count() == 1024,
            decreases POOL_COUNT - i,
        {
            let pool = ObjectPool::new(common_sizes[i], 1024);
            self.pools.set(i, pool);
            i = i + 1;
        }
    }

    /// The size class of `size` (see `size_class`).
    fn get_pool_index(&self, size: usize) -> (r: Option<usize>)
        ensures
            r == size_class(size),
    {
        if size <= 8 {
            Some(0)
        } else if size <= 16 {
            Some(1)
        } else if size <= 32 {
            Some(2)
        } else if size <= 48 {
            Some(3)
        } else if size <= 64 {
            Some(4)
        } else if size <= 96 {
            Some(5)
        } else if size <= 128 {
            Some(6)
        } else if size <= 192 {
            Some(7)
        } else if size <= 256 {
            Some(8)
        } else if size <= 384 {
            Some(9)
        } else if size <= 512 {
            Some(10)
        } else if size <= 768 {
            Some(11)
        } else if size <= 1024 {
            Some(12)
        } else if size <= 1536 {
            Some(13)
        } else if size <= 2048 {
            Some(14)
        } else if size <= 4096 {
            Some(15)
        } else {
            None
        }
    }

    /// Serves a request of `size` bytes: from the pool of its size class
    /// when it has one (a pool always hands out a chunk), else from the
    /// arena (`None` when the arena is exhausted).
    pub fn allocate(&mut self, size: usize) -> (r: Option<Block>)
        requires
            old(self).wf(),
            size + 7 <= usize::MAX,
        ensures
            final(self).wf(),
            match size_class(size) {
                Some(c) => {
                    &&& r matches Some(b) && b == Block::Pooled { pool: c, chunk: b->chunk }
                    &&& pool_allocated(old(self).pools()[c as int], final(self).pools()[c as int], Some(r->0->chunk))
                    &&& final(self).pools() == old(self).pools().update(c as int, final(self).pools()[c as int])
                    &&& final(self).arena() == old(self).arena()
                },
                None => {
                    &&& final(self).pools() == old(self).pools()
                    &&& r == if old(self).arena().offset() + align8(size as nat) > old(
                        self,
                    ).arena().capacity() {
                        None::<Block>
                    } else {
                        Some(Block::Arena(old(self).arena().offset()))
                    }
                },
            },
    {
        match self.get_pool_index(size) {
            Some(idx) => {
                let mut pool = self.pools.remove(idx);
                let got = pool.allocate();
                self.pools.insert(idx, pool);
                match got {
                    Some(chunk) => Some(Block::Pooled { pool: idx, chunk }),
                    None => match self.arena.allocate(size) {
                        Some(off) => Some(Block::Arena(off)),
                        None => None,
                    },
                }
            },
            None => match self.arena.allocate(size) {
                Some(off) => Some(Block::Arena(off)),
                None => None,
            },
        }
    }

    /// Returns `block` of `size` bytes: a chunk of the pool of its size
    /// class goes back to that pool (true); anything else is left to the
    /// system (false).
    pub fn deallocate(&mut self, block: Block, size: usize) -> (pooled: bool)
        requires
            old(self).wf(),
        ensures
            final(self).wf(),
            final(self).arena() == old(self).arena(),
            pooled == (size_class(size) is Some && is_pool_chunk(Some(block), size_class(size)->0)),
            pooled ==> pool_returned(
                old(self).pools()[block->pool as int],
                final(self).pools()[block->pool as int],
                block->chunk,
            ),
            pooled ==> final(self).pools() == old(self).pools().update(
                block->pool as int,
                final(self).pools()[block->pool as int],
            ),
            !pooled ==> final(self).pools() == old(self).pools(),
    {
        match self.get_pool_index(size) {
            Some(idx) => match block {
                Block::Pooled { pool, chunk } => {
                    if pool == idx {
                        let mut p = self.pools.remove(idx);
                        p.deallocate(chunk);
                        self.pools.insert(idx, p);
                        true
                    } else {
                        false
                    }
                },
                Block::Arena(_) => false,
            },
            None => false,
        }
    }
}

/// Limit of the per-thread cache, in bytes.
pub const LOCAL_CACHE_LIMIT: usize = 1_048_576;

/// Per-thread cache of small blocks (address, size).
pub struct LocalCache {
    small_allocations: Vec<(usize, usize)>,
    cache_size: usize,
}

impl LocalCache {
    /// Cached blocks, oldest first.
    pub closed spec fn blocks(&self) -> Seq<(usize, usize)> {
        self.small_allocations@
    }

    /// Bytes counted as cached.
    pub closed spec fn cache_size(&self) -> usize {
        self.cache_size
    }

    /// An empty cache.
    pub fn new() -> (c: Self)
        ensures
            c.blocks() == Seq::<(usize, usize)>::empty(),
            c.cache_size() == 0,
    {
        LocalCache { small_allocations: Vec::with_capacity(64), cache_size: 0 }
    }

    /// Caches the block at `addr` of `size` bytes while the cache holds less
    /// than the limit; once it holds the limit or more, the cache is flushed
    /// instead (emptied, the new block included).
    pub fn store(&mut self, addr: usize, size: usize)
        requires
            old(self).cache_size() < LOCAL_CACHE_LIMIT ==> old(self).cache_size() + size <= usize::MAX,
        ensures
            old(self).cache_size() < LOCAL_CACHE_LIMIT ==> {
                &&& final(self).blocks() == old(self).blocks().push((addr, size))
                &&& final(self).cache_size() == old(self).cache_size() + size
            },
            old(self).cache_size() >= LOCAL_CACHE_LIMIT ==> {
                &&& final(self).blocks() == Seq::<(usize, usize)>::empty()
                &&& final(self).cache_size() == 0
            },
    {
        if self.cache_size < LOCAL_CACHE_LIMIT {
            self.small_allocations.push((addr, size));
            self.cache_size = self.cache_size + size;
        } else {
            self.small_allocations.clear();
            self.cache_size = 0;
        }
    }
}


/// A block that the arena hands out lies within its buffer and takes at
/// least the requested size, rounded to a multiple of 8; the next block
/// starts after it, so blocks never overlap, and offsets that start
/// aligned stay aligned.
pub proof fn law_arena_blocks_fit(offset: nat, size: nat, capacity: nat)
    requires
        offset + align8(size) <= capacity,
    ensures
        offset + size <= capacity,
        size <= align8(size) < size + 8,
        align8(size) % 8 == 0,
        offset % 8 == 0 ==> (offset + align8(size)) % 8 == 0,
{
    assert((size + 7) / 8 * 8 <= size + 7) by (nonlinear_arith);
    assert((size + 7) / 8 * 8 >= size) by (nonlinear_arith);
    assert(((size + 7) / 8 * 8) % 8 == 0) by (nonlinear_arith);
}

/// A pool hands out the chunk that was returned to it last, and is then
/// as free as before the return.
pub proof fn law_pool_reuses_last_returned(p: ObjectPool, q: ObjectPool, q2: ObjectPool, idx: usize, r: Option<usize>)
    requires
        pool_returned(p, q, idx),
        pool_allocated(q, q2, r),
    ensures
        r == Some(idx),
        q2.free() == p.free(),
{
    assert(q.free().drop_last() =~= p.free());
}

/// Requests of up to 4096 bytes have a size class and larger ones none; the
/// pool of a request's class has chunks large enough for it.
pub proof fn law_size_classes_cover_small_requests(size: usize)
    ensures
        size <= 4096 <==> size_class(size) is Some,
        size_class(size) matches Some(c) ==> c < 16 && size <= pool_size_of(c as int),
{
}
} // verus!
