// Zero-copy buffers, shared memory regions and scatter/gather lists.
// Addresses are plain integers.
use vstd::prelude::*;

verus! {

/// Page-aligned buffer whose first `size` bytes are in use.
pub struct ZeroCopyBuffer {
    data: Vec<u8>,
    capacity: usize,
}

impl ZeroCopyBuffer {
    /// The bytes in use.
    pub closed spec fn contents(&self) -> Seq<u8> {
        self.data@
    }

    pub closed spec fn capacity(&self) -> usize {
        self.capacity
    }

    /// An empty buffer with room for `capacity` bytes.
    pub fn new(capacity: usize) -> (b: Self)
        requires
            capacity <= isize::MAX - 4095,
        ensures
            b.contents() == Seq::<u8>::empty(),
            b.capacity() == capacity,
    {
        ZeroCopyBuffer { data: Vec::with_capacity(capacity), capacity }
    }

    /// The bytes in use.
    pub fn as_slice(&self) -> (s: &[u8])
        ensures
            s@ == self.contents(),
    {
        self.data.as_slice()
    }

    /// The bytes in use, writable in place.
    pub fn as_mut_slice(&mut self) -> (s: &mut [u8])
        ensures
            s@ == old(self).contents(),
            final(self).capacity() == old(self).capacity(),
            final(self).contents() == final(s)@,
    {
        self.data.as_mut_slice()
    }
}

/// A named shared memory region.
pub struct SharedMemoryRegion {
    pub name: String,
    pub size: usize,
}

/// One buffer of a scatter/gather list: its address and length.
#[derive(Debug, Clone, Copy, PartialEq, Eq, Structural)]
pub struct ScatterGatherEntry {
    pub ptr: usize,
    pub len: usize,
}

/// Buffers to be read or written in one operation, in order.
pub struct ScatterGatherList {
    pub entries: Vec<ScatterGatherEntry>,
}

impl ScatterGatherList {
    /// An empty list.
    pub fn new() -> (l: Self)
        ensures
            l.entries@ == Seq::<ScatterGatherEntry>::empty(),
    {
        ScatterGatherList { entries: Vec::new() }
    }

    /// Appends the buffer at `ptr` of `len` bytes.
    pub fn add_buffer(&mut self, ptr: usize, len: usize)
        ensures
            final(self).entries@ == old(self).entries@.push(ScatterGatherEntry { ptr, len }),
    {
        self.entries.push(ScatterGatherEntry { ptr, len });
    }
}

/// Ring buffer handle.
pub struct RingBuffer;

} // verus!
