// Memory management: cache-aligned cells, bump arenas, object pools.
use vstd::prelude::*;

verus! {

/// A wrapper for a value meant for its own cache line; the type itself
/// carries no alignment, so the value is not aligned beyond its own type.
pub struct CacheAligned<T> {
    data: T,
}

impl<T> View for CacheAligned<T> {
    type V = T;

    closed spec fn view(&self) -> T {
        self.data
    }
}

impl<T> CacheAligned<T> {
    /// Wraps `data`.
    pub fn new(data: T) -> (c: Self)
        ensures
            c@ == data,
    {
        CacheAligned { data }
    }

    /// The wrapped value.
    pub fn get(&self) -> (r: &T)
        ensures
            *r == self@,
    {
        &self.data
    }
}

} // verus!
