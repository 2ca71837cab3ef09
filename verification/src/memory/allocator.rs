// Simple allocator handles: a sized arena and a typed object pool.
use vstd::prelude::*;
use std::marker::PhantomData;

verus! {

/// Arena handle that only records nothing about its capacity.
pub struct ArenaAllocator;

impl ArenaAllocator {
    /// An arena; the capacity is not used.
    pub fn with_capacity(_capacity: usize) -> (a: Self)
        ensures
            a == ArenaAllocator,
    {
        ArenaAllocator
    }
}

/// Typed object pool handle.
pub struct ObjectPool<T> {
    _phantom: PhantomData<T>,
}

impl<T> ObjectPool<T> {
    /// A pool handle.
    pub fn new() -> (p: Self) {
        ObjectPool { _phantom: PhantomData }
    }
}

} // verus!
