// Lock-free style byte ring buffers.
//
// The multi-producer ring carries length-prefixed frames: each frame is an
// eight-byte little-endian length followed by the payload bytes. Positions
// are logical (they only grow); a position maps to the slot `pos & mask`.
use vstd::prelude::*;
use vstd::bytes::{
    spec_u64_to_le_bytes,
    spec_u64_from_le_bytes,
    u64_to_le_bytes,
    u64_from_le_bytes,
    lemma_auto_spec_u64_to_from_le_bytes,
};
use vstd::arithmetic::power2::{pow2, lemma_pow2_pos};
use vstd::bits::lemma_u64_low_bits_mask_is_mod;
use crate::memory::cache_aligned::CacheAligned;

verus! {

/// Bytes that one frame occupies in the ring: its length as eight
/// little-endian bytes, then the payload.
pub open spec fn frame_encoding(data: Seq<u8>) -> Seq<u8> {
    spec_u64_to_le_bytes(data.len() as u64) + data
}

/// Bytes that a queue of frames occupies, oldest frame first.
pub open spec fn stream_encoding(frames: Seq<Seq<u8>>) -> Seq<u8>
    decreases frames.len(),
{
    if frames.len() == 0 {
        Seq::empty()
    } else {
        frame_encoding(frames[0]) + stream_encoding(frames.drop_first())
    }
}

/// `n` is a power of two (what std's `usize::is_power_of_two` checks).
pub open spec fn is_power_of_two(n: usize) -> bool {
    exists|k: nat| k < 64 && n == pow2(k)
}

pub proof fn lemma_stream_push(frames: Seq<Seq<u8>>, data: Seq<u8>)
    ensures
        stream_encoding(frames.push(data)) == stream_encoding(frames) + frame_encoding(data),
    decreases frames.len(),
{
    if frames.len() == 0 {
        assert(frames.push(data).drop_first() =~= Seq::<Seq<u8>>::empty());
        assert(frames.push(data)[0] == data);
        assert(stream_encoding(Seq::<Seq<u8>>::empty()) =~= Seq::<u8>::empty());
        assert(stream_encoding(frames) =~= Seq::<u8>::empty());
        assert(stream_encoding(frames.push(data)) =~= frame_encoding(data) + Seq::<u8>::empty());
    } else {
        lemma_stream_push(frames.drop_first(), data);
        assert(frames.push(data).drop_first() =~= frames.drop_first().push(data));
        assert(stream_encoding(frames.push(data)) =~= stream_encoding(frames) + frame_encoding(
            data,
        ));
    }
}

/// Decoding law of the frame format: the first eight bytes of a non-empty
/// stream decode to the length of the oldest frame, the bytes after them are
/// that frame, and the rest is the stream of the younger frames.
pub proof fn lemma_stream_decodes(frames: Seq<Seq<u8>>)
    requires
        frames.len() > 0,
        stream_encoding(frames).len() <= u64::MAX,
    ensures
        stream_encoding(frames).len() >= 8 + frames[0].len(),
        spec_u64_from_le_bytes(stream_encoding(frames).subrange(0, 8)) == frames[0].len(),
        stream_encoding(frames).subrange(8, 8 + frames[0].len() as int) == frames[0],
        stream_encoding(frames).subrange(8 + frames[0].len() as int, stream_encoding(frames).len() as int)
            == stream_encoding(frames.drop_first()),
{
    lemma_auto_spec_u64_to_from_le_bytes();
    let s = stream_encoding(frames);
    let h = spec_u64_to_le_bytes(frames[0].len() as u64);
    assert(h.len() == 8);
    assert(s.subrange(0, 8) =~= h);
    assert(s.subrange(8, 8 + frames[0].len() as int) =~= frames[0]);
    assert(s.subrange(8 + frames[0].len() as int, s.len() as int) =~= stream_encoding(
        frames.drop_first(),
    ));
}

proof fn lemma_mask_is_mod(x: u64, c: usize)
    requires
        is_power_of_two(c),
    ensures
        c > 0,
        x & ((c - 1) as u64) == x % (c as u64),
{
    let k = choose|k: nat| k < 64 && c == pow2(k);
    lemma_pow2_pos(k);
    lemma_u64_low_bits_mask_is_mod(x, k);
}

proof fn lemma_slots_distinct(a: int, b: int, c: int)
    requires
        0 <= a < b,
        b - a < c,
    ensures
        a % c != b % c,
{
    assert(a % c != b % c) by (nonlinear_arith)
        requires
            0 <= a < b,
            b - a < c,
    {
        if a % c == b % c {
            assert(a == c * (a / c) + a % c);
            assert(b == c * (b / c) + b % c);
            assert(b - a == c * (b / c - a / c));
            if b / c - a / c >= 1 {
                assert(c * (b / c - a / c) >= c);
            } else {
                assert(c * (b / c - a / c) <= 0);
            }
        }
    }
}

/// Slot of a logical position.
fn slot_of(pos: u64, mask: usize, capacity: usize) -> (s: usize)
    requires
        is_power_of_two(capacity),
        mask == capacity - 1,
    ensures
        s == (pos as int) % (capacity as int),
        s < capacity,
{
    let m = mask as u64;
    proof {
        lemma_mask_is_mod(pos, capacity);
    }
    (pos & m) as usize
}

/// A byte ring with length-prefixed frames, written by producers and drained
/// by one reader.
pub struct MPSCRingBuffer {
    buffer: Vec<u8>,
    capacity: usize,
    write_index: u64,
    read_index: u64,
    mask: usize,
    pending: Ghost<Seq<Seq<u8>>>,
}

impl View for MPSCRingBuffer {
    type V = Seq<Seq<u8>>;

    /// The frames written and not read yet, oldest first.
    closed spec fn view(&self) -> Seq<Seq<u8>> {
        self.pending@
    }
}

impl MPSCRingBuffer {
    pub closed spec fn wf(&self) -> bool {
        &&& is_power_of_two(self.capacity)
        &&& self.mask == self.capacity - 1
        &&& self.buffer@.len() == self.capacity
        &&& self.read_index <= self.write_index
        &&& self.write_index - self.read_index == stream_encoding(self.pending@).len()
        &&& stream_encoding(self.pending@).len() <= self.capacity
        &&& forall|i: int|
            0 <= i < stream_encoding(self.pending@).len() ==> self.buffer@[(self.read_index + i)
                % (self.capacity as int)] == #[trigger] stream_encoding(self.pending@)[i]
    }

    /// Number of bytes the ring holds.
    pub closed spec fn capacity(&self) -> nat {
        self.capacity as nat
    }

    /// Bytes taken by the frames not read yet (headers included).
    pub open spec fn used_bytes(&self) -> nat {
        stream_encoding(self@).len()
    }

    /// Logical position of the next write.
    pub closed spec fn write_position(&self) -> u64 {
        self.write_index
    }

    /// Logical position of the next read.
    pub closed spec fn read_position(&self) -> u64 {
        self.read_index
    }

    /// Creates an empty ring of `capacity` bytes; the capacity must be a power
    /// of two.
    pub fn new(capacity: usize) -> (ring: Self)
        requires
            is_power_of_two(capacity),
        ensures
            ring.wf(),
            ring@ == Seq::<Seq<u8>>::empty(),
            ring.capacity() == capacity,
            ring.write_position() == 0,
            ring.read_position() == 0,
    {
        proof {
            lemma_mask_is_mod(0, capacity);
        }
        MPSCRingBuffer {
            buffer: vec![0u8; capacity],
            capacity,
            write_index: 0,
            read_index: 0,
            mask: capacity - 1,
            pending: Ghost(Seq::empty()),
        }
    }

    /// A reader positioned at the oldest unread frame.
    pub fn reader(&self) -> (r: RingBufferReader)
        ensures
            r.position() == self.read_position(),
    {
        RingBufferReader { local_read_index: self.read_index }
    }

    /// Appends `data` as one frame when the free space holds it and its
    /// eight-byte header; returns whether it did.
    pub fn try_write(&mut self, data: &[u8]) -> (written: bool)
        requires
            old(self).wf(),
            old(self).write_position() + data@.len() + 8 <= u64::MAX,
        ensures
            final(self).wf(),
            final(self).capacity() == old(self).capacity(),
            final(self).read_position() == old(self).read_position(),
            written == (old(self).used_bytes() + data@.len() + 8 <= old(self).capacity()),
            written ==> final(self)@ == old(self)@.push(data@),
            written ==> final(self).write_position() == old(self).write_position() + data@.len()
                + 8,
            !written ==> final(self)@ == old(self)@,
            !written ==> final(self).write_position() == old(self).write_position(),
    {
        proof {
            lemma_auto_spec_u64_to_from_le_bytes();
        }
        let data_len = data.len() as u64;
        let total_needed = data_len + 8;
        let write = self.write_index;
        let read = self.read_index;
        if (self.capacity as u64) - (write - read) < total_needed {
            return false;
        }
        let ghost old_stream = stream_encoding(self.pending@);
        let ghost frame = frame_encoding(data@);
        let ghost used = old_stream.len();
        assert(frame.len() == total_needed);
        let header = u64_to_le_bytes(data_len);
        let mut k: usize = 0;
        while k < 8
            invariant
                0 <= k <= 8,
                header@ == spec_u64_to_le_bytes(data_len),
                header@.len() == 8,
                frame == header@ + data@,
                self.buffer@.len() == self.capacity,
                is_power_of_two(self.capacity),
                self.mask == self.capacity - 1,
                forall|i: int|
                    0 <= i < used ==> self.buffer@[(read + i) % (self.capacity as int)]
                        == #[trigger] old_stream[i],
                self.write_index == write,
                self.read_index == read,
                self.pending@ == old(self).pending@,
                self.capacity == old(self).capacity,
                used == write - read,
                used + total_needed <= self.capacity,
                total_needed == data_len + 8,
                write + total_needed <= u64::MAX,
                old_stream == stream_encoding(self.pending@),
                forall|j: int|
                    0 <= j < k ==> self.buffer@[(write + j) % (self.capacity as int)]
                        == #[trigger] frame[j],
            decreases 8 - k,
        {
            let idx = slot_of(write + k as u64, self.mask, self.capacity);
            let ghost prev = self.buffer@;
            self.buffer.set(idx, header[k]);
            proof {
                assert forall|i: int| 0 <= i < used implies self.buffer@[(read + i) % (
                self.capacity as int)] == #[trigger] old_stream[i] by {
                    lemma_slots_distinct(read + i, write + k, self.capacity as int);
                    assert(prev[(read + i) % (self.capacity as int)] == old_stream[i]);
                }
                assert forall|j: int| 0 <= j < k + 1 implies self.buffer@[(write + j) % (
                self.capacity as int)] == #[trigger] frame[j] by {
                    if j < k {
                        lemma_slots_distinct(write + j, write + k, self.capacity as int);
                    } else {
                        assert(frame[j] == header@[j]);
                    }
                }
            }
            k = k + 1;
        }
        let mut d: usize = 0;
        while d < data.len()
            invariant
                0 <= d <= data@.len(),
                data_len == data@.len(),
                frame.len() == 8 + data@.len(),
                frame == spec_u64_to_le_bytes(data_len) + data@,
                self.buffer@.len() == self.capacity,
                is_power_of_two(self.capacity),
                self.mask == self.capacity - 1,
                self.write_index == write,
                self.read_index == read,
                self.pending@ == old(self).pending@,
                self.capacity == old(self).capacity,
                used == write - read,
                used + total_needed <= self.capacity,
                total_needed == data_len + 8,
                write + total_needed <= u64::MAX,
                old_stream == stream_encoding(self.pending@),
                forall|i: int|
                    0 <= i < used ==> self.buffer@[(read + i) % (self.capacity as int)]
                        == #[trigger] old_stream[i],
                forall|j: int|
                    0 <= j < 8 + d ==> self.buffer@[(write + j) % (self.capacity as int)]
                        == #[trigger] frame[j],
            decreases data@.len() - d,
        {
            let idx = slot_of(write + 8 + d as u64, self.mask, self.capacity);
            let ghost prev = self.buffer@;
            self.buffer.set(idx, data[d]);
            proof {
                assert forall|i: int| 0 <= i < used implies self.buffer@[(read + i) % (
                self.capacity as int)] == #[trigger] old_stream[i] by {
                    lemma_slots_distinct(read + i, write + 8 + d, self.capacity as int);
                    assert(prev[(read + i) % (self.capacity as int)] == old_stream[i]);
                }
                assert forall|j: int| 0 <= j < 8 + d + 1 implies self.buffer@[(write + j) % (
                self.capacity as int)] == #[trigger] frame[j] by {
                    if j < 8 + d {
                        lemma_slots_distinct(write + j, write + 8 + d, self.capacity as int);
                        assert(prev[(write + j) % (self.capacity as int)] == frame[j]);
                    } else {
                        assert(frame[j] == data@[d as int]);
                    }
                }
            }
            d = d + 1;
        }
        self.write_index = write + total_needed;
        proof {
            lemma_stream_push(self.pending@, data@);
        }
        self.pending = Ghost(self.pending@.push(data@));
        proof {
            let s = stream_encoding(self.pending@);
            assert(s == old_stream + frame);
            assert forall|i: int| 0 <= i < s.len() implies self.buffer@[(self.read_index + i) % (
            self.capacity as int)] == #[trigger] s[i] by {
                if i < used {
                    assert(s[i] == old_stream[i]);
                } else {
                    let j = i - used;
                    assert(s[i] == frame[j]);
                    assert(read + i == write + j);
                }
            }
        }
        true
    }
}

/// The reading end of an `MPSCRingBuffer`.
pub struct RingBufferReader {
    local_read_index: u64,
}

impl RingBufferReader {
    /// Logical position this reader reads from next.
    pub closed spec fn position(&self) -> u64 {
        self.local_read_index
    }

    /// Takes the oldest frame out of `buffer` into `output`; returns false,
    /// and touches nothing, when no frame is pending.
    pub fn read(&mut self, buffer: &mut MPSCRingBuffer, output: &mut Vec<u8>) -> (got: bool)
        requires
            old(buffer).wf(),
            old(self).position() == old(buffer).read_position(),
        ensures
            final(buffer).wf(),
            final(self).position() == final(buffer).read_position(),
            final(buffer).capacity() == old(buffer).capacity(),
            final(buffer).write_position() == old(buffer).write_position(),
            got == (old(buffer)@.len() > 0),
            got ==> final(output)@ == old(buffer)@[0],
            got ==> final(buffer)@ == old(buffer)@.drop_first(),
            !got ==> final(buffer)@ == old(buffer)@,
            !got ==> final(buffer).read_position() == old(buffer).read_position(),
            !got ==> final(output)@ == old(output)@,
    {
        let write = buffer.write_index;
        if self.local_read_index >= write {
            proof {
                if buffer.pending@.len() > 0 {
                    assert(stream_encoding(buffer.pending@).len() >= 8) by {
                        lemma_auto_spec_u64_to_from_le_bytes();
                    }
                }
            }
            return false;
        }
        let local = self.local_read_index;
        let ghost frames = buffer.pending@;
        let ghost s = stream_encoding(frames);
        proof {
            if frames.len() == 0 {
                assert(s.len() == 0);
            }
            assert(frames.len() > 0);
            lemma_stream_decodes(frames);
        }
        let mut len_bytes: Vec<u8> = Vec::new();
        let mut k: usize = 0;
        while k < 8
            invariant
                0 <= k <= 8,
                len_bytes@.len() == k,
                buffer.wf(),
                buffer.pending@ == frames,
                s == stream_encoding(frames),
                s.len() >= 8 + frames[0].len(),
                local == buffer.read_index,
                forall|j: int| 0 <= j < k ==> len_bytes@[j] == #[trigger] s[j],
            decreases 8 - k,
        {
            let idx = slot_of(local + k as u64, buffer.mask, buffer.capacity);
            let b = buffer.buffer[idx];
            assert(b == s[k as int]);
            len_bytes.push(b);
            k = k + 1;
        }
        assert(len_bytes@ =~= s.subrange(0, 8));
        let data_len_u64 = u64_from_le_bytes(len_bytes.as_slice());
        assert(data_len_u64 == frames[0].len());
        let data_len = data_len_u64 as usize;
        let total_len = data_len_u64 + 8;
        output.clear();
        let mut d: usize = 0;
        while d < data_len
            invariant
                0 <= d <= data_len,
                data_len == frames[0].len(),
                output@.len() == d,
                buffer.wf(),
                buffer.pending@ == frames,
                s == stream_encoding(frames),
                s.len() >= 8 + frames[0].len(),
                s.subrange(8, 8 + frames[0].len() as int) == frames[0],
                local == buffer.read_index,
                forall|j: int| 0 <= j < d ==> output@[j] == #[trigger] frames[0][j],
            decreases data_len - d,
        {
            let idx = slot_of(local + 8 + d as u64, buffer.mask, buffer.capacity);
            let b = buffer.buffer[idx];
            assert(b == s[8 + d]);
            assert(s.subrange(8, 8 + frames[0].len() as int)[d as int] == s[8 + d]);
            output.push(b);
            d = d + 1;
        }
        assert(output@ =~= frames[0]);
        self.local_read_index = local + total_len;
        buffer.read_index = self.local_read_index;
        buffer.pending = Ghost(frames.drop_first());
        proof {
            let rest = stream_encoding(frames.drop_first());
            assert(rest == s.subrange(8 + frames[0].len() as int, s.len() as int));
            assert forall|i: int| 0 <= i < rest.len() implies buffer.buffer@[(buffer.read_index
                + i) % (buffer.capacity as int)] == #[trigger] rest[i] by {
                assert(rest[i] == s[8 + frames[0].len() + i]);
                assert(buffer.read_index + i == local + (8 + frames[0].len() + i));
            }
        }
        true
    }
}

/// A single-producer single-consumer slot ring of `N` values.
pub struct SPSCRingBuffer<T, const N: usize> {
    _data: Vec<T>,
    head: CacheAligned<u64>,
    tail: CacheAligned<u64>,
}

impl<T: Default + Copy, const N: usize> SPSCRingBuffer<T, N> {
    /// Creates the ring with `N` default slots and both cursors at zero.
    pub fn new() -> (ring: Self)
        ensures
            ring.slots() == N,
            ring.head() == 0,
            ring.tail() == 0,
    {
        let mut data: Vec<T> = Vec::new();
        let mut i: usize = 0;
        while i < N
            invariant
                0 <= i <= N,
                data@.len() == i,
            decreases N - i,
        {
            data.push(T::default());
            i = i + 1;
        }
        SPSCRingBuffer {
            _data: data,
            head: CacheAligned::new(0u64),
            tail: CacheAligned::new(0u64),
        }
    }
}

impl<T, const N: usize> SPSCRingBuffer<T, N> {
    pub closed spec fn slots(&self) -> nat {
        self._data@.len()
    }

    pub closed spec fn head(&self) -> u64 {
        self.head@
    }

    pub closed spec fn tail(&self) -> u64 {
        self.tail@
    }
}

/// Marker for the writing end of a ring.
pub struct RingBufferWriter;


/// Frames leave the ring in the order they entered it: after writing a
/// frame, the next read gives the oldest pending frame, or this one when
/// none was pending, and the rest stay queued in order.
pub proof fn law_ring_is_fifo(pending: Seq<Seq<u8>>, data: Seq<u8>)
    ensures
        pending.push(data)[0] == if pending.len() > 0 {
            pending[0]
        } else {
            data
        },
        pending.len() > 0 ==> pending.push(data).drop_first() == pending.drop_first().push(data),
        pending.len() == 0 ==> pending.push(data).drop_first() == Seq::<Seq<u8>>::empty(),
{
    assert(pending.len() > 0 ==> pending.push(data).drop_first() =~= pending.drop_first().push(data));
    assert(pending.len() == 0 ==> pending.push(data).drop_first() =~= Seq::<Seq<u8>>::empty());
}
/// The frames pending after successful writes of `ds`, in order, onto
/// pending frames `p` (each write appends, as `try_write` states).
pub open spec fn after_writes(p: Seq<Seq<u8>>, ds: Seq<Seq<u8>>) -> Seq<Seq<u8>>
    decreases ds.len(),
{
    if ds.len() == 0 {
        p
    } else {
        after_writes(p, ds.drop_last()).push(ds.last())
    }
}

/// The frames pending after `k` successful reads from pending frames `q`
/// (each read takes the first, as `RingBufferReader::read` states).
pub open spec fn after_reads(q: Seq<Seq<u8>>, k: nat) -> Seq<Seq<u8>>
    decreases k,
{
    if k == 0 {
        q
    } else {
        after_reads(q, (k - 1) as nat).drop_first()
    }
}

/// Frames written one after another, with no read in between, are read
/// back in the order they were written: writing `ds` onto pending frames
/// `p` leaves `p + ds` pending, and reading from pending frames `q`, the
/// read after `j` earlier ones gets `q[j]`; once all are read, the next
/// read finds nothing.
pub proof fn law_writes_read_back_in_order(p: Seq<Seq<u8>>, ds: Seq<Seq<u8>>, q: Seq<Seq<u8>>)
    ensures
        after_writes(p, ds) == p + ds,
        after_writes(Seq::empty(), ds) == ds,
        forall|j: nat| j <= q.len() ==> #[trigger] after_reads(q, j) == q.subrange(j as int, q.len() as int),
        forall|j: nat| j < q.len() ==> (#[trigger] after_reads(q, j)).len() > 0 && after_reads(q, j)[0] == q[j as int],
        after_reads(q, q.len()).len() == 0,
    decreases ds.len(),
{
    if ds.len() > 0 {
        law_writes_read_back_in_order(p, ds.drop_last(), q);
        assert(p + ds =~= (p + ds.drop_last()).push(ds.last()));
    } else {
        assert(p + ds =~= p);
    }
    assert(Seq::<Seq<u8>>::empty() + ds =~= ds);
    assert forall|j: nat| j <= q.len() implies #[trigger] after_reads(q, j) == q.subrange(j as int, q.len() as int) by {
        lemma_after_reads(q, j);
    }
    assert forall|j: nat| j < q.len() implies (#[trigger] after_reads(q, j)).len() > 0 && after_reads(q, j)[0] == q[j as int] by {
        lemma_after_reads(q, j);
    }
    lemma_after_reads(q, q.len());
}

proof fn lemma_after_reads(q: Seq<Seq<u8>>, j: nat)
    requires
        j <= q.len(),
    ensures
        after_reads(q, j) == q.subrange(j as int, q.len() as int),
    decreases j,
{
    if j == 0 {
        assert(q.subrange(0, q.len() as int) =~= q);
    } else {
        lemma_after_reads(q, (j - 1) as nat);
        assert(q.subrange(j - 1, q.len() as int).drop_first() =~= q.subrange(j as int, q.len() as int));
    }
}
} // verus!
