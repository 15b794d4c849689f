//! A single-producer, multi-consumer queue over a ring that grows.
//!
//! The ring lives in a version: a buffer whose capacity is a power of two,
//! with its mask and an id. When a push does not fit, the producer makes a
//! new version of a larger capacity, copies the values over and installs
//! it. The tail counter and the id of the installed version are packed into
//! one word, so that a consumer reads both at once.
use crate::ring::{
    advance, distance, lemma_advance_of_counter, lemma_distance_of_counters, lemma_queue_taken,
    lemma_queue_written, lemma_ring_write_same_slot, lemma_runs_are_ring_write,
    lemma_same_distance, lemma_window_is_subrange, lemma_window_two_parts, read_ring,
    ring_write, slot, window, write_ring,
};
use vstd::arithmetic::div_mod::{lemma_mod_bound, lemma_mod_twice};
use crate::spmc::capacity::{
    counter_modulus, grow_capacity, grown_capacity, is_capacity, lemma_capacity_aligned,
    lemma_capacity_doubles, lemma_grown_capacity, lemma_larger_capacity, lemma_mask_is_slot,
    lemma_version_id_bound, max_capacity,
};
use crate::spmc::ledger::{can_grow_for, delivered, left, unbounded_effect, Operation};
use crate::spmc::steal_count;
use crate::sync_batch_receiver::SyncBatchReceiver;
use std::marker::PhantomData;
use vstd::arithmetic::power2::{lemma2_to64, lemma_pow2_unfold, pow2};
use vstd::prelude::*;

verus! {

/// The word that holds `version` in its high half and `tail` in its low
/// half.
pub open spec fn packed(version: u32, tail: u32) -> u64 {
    (version as int * 0x1_0000_0000 + tail as int) as u64
}

/// Packs the version and the tail into a single 64-bit value.
pub fn pack_version_and_tail(version: u32, tail: u32) -> (value: u64)
    ensures
        value == packed(version, tail),
        value / 0x1_0000_0000 == version,
        value % 0x1_0000_0000 == tail,
{
    let high = version as u64;
    let low = tail as u64;
    assert((high << 32) | low == high * 0x1_0000_0000 + low) by (bit_vector)
        requires
            high <= 0xffff_ffff,
            low <= 0xffff_ffff,
    ;
    (high << 32) | low
}

/// Unpacks the version and the tail from a single 64-bit value.
pub fn unpack_version_and_tail(value: u64) -> (pair: (u32, u32))
    ensures
        pair.0 == value / 0x1_0000_0000,
        pair.1 == value % 0x1_0000_0000,
{
    assert(value >> 32 == value / 0x1_0000_0000) by (bit_vector);
    assert(value >> 32 <= 0xffff_ffff) by (bit_vector);
    assert(value & 0xffff_ffff == value % 0x1_0000_0000) by (bit_vector);
    ((value >> 32) as u32, (value & 0xffff_ffff) as u32)
}

/// A version of the ring: its buffer, the mask that addresses it, and the
/// id that tells it from the versions before it.
pub struct Version<T> {
    buffer: Vec<T>,
    mask: u32,
    id: u32,
}

impl<T> Version<T> {
    /// The buffer has a capacity that the mask addresses.
    pub closed spec fn well_formed(&self) -> bool {
        &&& is_capacity(self.buffer@.len() as int)
        &&& self.mask + 1 == self.buffer@.len()
    }

    /// The number of slots of the buffer.
    pub closed spec fn spec_capacity(&self) -> int {
        self.buffer@.len() as int
    }

    /// The id of the version.
    pub closed spec fn spec_id(&self) -> u32 {
        self.id
    }
}

impl<T: Copy + Default> Version<T> {
    /// Returns the mask for the capacity of the buffer.
    fn mask(&self) -> (mask: u32)
        requires
            self.well_formed(),
        ensures
            mask + 1 == self.spec_capacity(),
    {
        self.mask
    }

    /// Allocates a new version with the given `capacity` and `id`.
    fn alloc_new(capacity: usize, id: u32) -> (version: Self)
        requires
            is_capacity(capacity as int),
        ensures
            version.well_formed(),
            version.spec_capacity() == capacity,
            version.spec_id() == id,
    {
        proof {
            lemma_capacity_aligned(capacity as int);
        }
        let mut buffer: Vec<T> = Vec::new();
        while buffer.len() < capacity
            invariant
                buffer@.len() <= capacity,
            decreases capacity - buffer@.len(),
        {
            buffer.push(T::default());
        }
        Self { buffer, mask: (capacity - 1) as u32, id }
    }
}

/// What a producer or a consumer remembers of a version: its id and the
/// mask of its capacity.
#[derive(Clone, Copy)]
pub struct CachedVersion {
    mask: u32,
    id: u32,
}

impl CachedVersion {
    /// The remembered mask is that of a capacity.
    pub closed spec fn well_formed(&self) -> bool {
        is_capacity(self.mask + 1)
    }

    /// The remembered capacity.
    pub closed spec fn spec_capacity(&self) -> int {
        self.mask + 1
    }

    /// The remembered id.
    pub closed spec fn spec_id(&self) -> u32 {
        self.id
    }

    /// Returns what is to be remembered of `version`.
    fn from_version<T: Copy + Default>(version: &Version<T>) -> (cached: Self)
        requires
            version.well_formed(),
        ensures
            cached.well_formed(),
            cached.spec_capacity() == version.spec_capacity(),
            cached.spec_id() == version.spec_id(),
    {
        Self { mask: version.mask(), id: version.id }
    }

    /// Returns the capacity of the remembered version.
    pub fn capacity(&self) -> (capacity: usize)
        requires
            self.well_formed(),
        ensures
            capacity == self.spec_capacity(),
    {
        proof {
            lemma_capacity_aligned(self.mask + 1);
        }
        self.mask as usize + 1
    }

    /// Returns the id of the remembered version.
    pub fn id(&self) -> (id: u32)
        ensures
            id == self.spec_id(),
    {
        self.id
    }

    /// Returns the mask for the capacity of the remembered version.
    fn mask(&self) -> (mask: u32)
        ensures
            mask + 1 == self.spec_capacity(),
    {
        self.mask
    }
}

/// The single-producer, multi-consumer queue that grows.
///
/// Its view is the sequence of the values it holds, oldest first.
pub struct SPMCUnboundedQueue<T> {
    /// The id of the installed version in the high half, the tail counter
    /// in the low half.
    tail_and_version: u64,
    head: u32,
    last_version: Version<T>,
}

impl<T> SPMCUnboundedQueue<T> {
    /// The tail counter that the packed word holds.
    closed spec fn tail(&self) -> int {
        self.tail_and_version as int % 0x1_0000_0000
    }

    /// The queue is in a state that its own functions leave it in.
    pub closed spec fn well_formed(&self) -> bool {
        &&& self.last_version.well_formed()
        &&& self.tail_and_version as int / 0x1_0000_0000 == self.last_version.id
        &&& distance(self.head as int, self.tail(), counter_modulus())
            <= self.last_version.buffer@.len()
        &&& pow2(self.last_version.id as nat) <= self.last_version.buffer@.len()
    }

    /// The values in the queue, oldest first.
    pub closed spec fn view(&self) -> Seq<T> {
        window(
            self.last_version.buffer@,
            self.head as int,
            distance(self.head as int, self.tail(), counter_modulus()),
        )
    }

    /// The capacity of the installed version.
    pub closed spec fn spec_capacity(&self) -> int {
        self.last_version.buffer@.len() as int
    }

    /// The id of the installed version.
    pub closed spec fn spec_version_id(&self) -> u32 {
        self.last_version.id
    }

    /// `version` is what is to be remembered of the installed version.
    pub open spec fn is_latest(&self, version: CachedVersion) -> bool {
        &&& version.well_formed()
        &&& version.spec_id() == self.spec_version_id()
        &&& version.spec_capacity() == self.spec_capacity()
    }

    /// `version` is what was remembered of the installed version or of one
    /// before it.
    pub open spec fn knows(&self, version: CachedVersion) -> bool {
        &&& version.well_formed()
        &&& version.spec_id() <= self.spec_version_id()
        &&& version.spec_id() == self.spec_version_id() ==> version.spec_capacity()
            == self.spec_capacity()
    }
}

impl<T: Copy + Default> SPMCUnboundedQueue<T> {
    /// Creates a new queue with the given capacity.
    pub fn with_capacity(capacity: usize) -> (queue: Self)
        requires
            is_capacity(capacity as int),
        ensures
            queue.well_formed(),
            queue@ == Seq::<T>::empty(),
            queue.spec_capacity() == capacity,
            queue.spec_version_id() == 0,
    {
        proof {
            lemma2_to64();
            lemma_capacity_aligned(capacity as int);
            lemma_distance_of_counters(0, 0, counter_modulus());
        }
        let queue = Self {
            tail_and_version: 0,
            head: 0,
            last_version: Version::alloc_new(capacity, 0),
        };
        assert(queue@ =~= Seq::<T>::empty());
        queue
    }

    /// Creates a new queue with the default capacity of four values.
    pub fn new() -> (queue: Self)
        ensures
            queue.well_formed(),
            queue@ == Seq::<T>::empty(),
            queue.spec_capacity() == 4,
            queue.spec_version_id() == 0,
    {
        proof {
            lemma2_to64();
            assert(is_capacity(4)) by {
                assert(4 == pow2(2));
            }
        }
        Self::with_capacity(4)
    }

    /// Returns what is to be remembered of the installed version.
    pub fn latest_version(&self) -> (version: CachedVersion)
        requires
            self.well_formed(),
        ensures
            self.is_latest(version),
    {
        CachedVersion::from_version(&self.last_version)
    }

    /// Makes `version` what is to be remembered of the installed version.
    pub fn update_version(&self, version: &mut CachedVersion)
        requires
            self.well_formed(),
        ensures
            self.is_latest(*final(version)),
    {
        *version = self.latest_version();
    }

    /// Returns the number of values between the two counters.
    pub fn len(head: u32, tail: u32) -> (len: usize)
        ensures
            len == distance(head as int, tail as int, counter_modulus()),
    {
        proof {
            lemma_distance_of_counters(head as int, tail as int, counter_modulus());
        }
        tail.wrapping_sub(head) as usize
    }

    /// Returns the counter that lies `n` steps after `counter`.
    fn advanced(counter: u32, n: u32) -> (next: u32)
        ensures
            next == advance(counter as int, n as int, counter_modulus()),
    {
        proof {
            lemma_advance_of_counter(counter as int, n as int, counter_modulus());
        }
        counter.wrapping_add(n)
    }

    /// Loads the tail.
    fn load_tail(&self) -> (tail: u32)
        ensures
            tail == self.tail(),
    {
        unpack_version_and_tail(self.tail_and_version).1
    }

    /// Loads the id of the installed version and the tail, both at once.
    fn load_version_and_tail(&self) -> (pair: (u32, u32))
        ensures
            pair.0 == self.tail_and_version as int / 0x1_0000_0000,
            pair.1 == self.tail(),
    {
        unpack_version_and_tail(self.tail_and_version)
    }

    /// Loads the id of the installed version.
    fn load_version(&self) -> (id: u32)
        ensures
            id == self.tail_and_version as int / 0x1_0000_0000,
    {
        unpack_version_and_tail(self.tail_and_version).0
    }

    /// Returns the number of values in the queue.
    pub fn producer_len(&self) -> (len: usize)
        requires
            self.well_formed(),
        ensures
            len == self@.len(),
            len <= self.spec_capacity(),
    {
        Self::len(self.head, self.load_tail())
    }

    /// Returns the capacity of the queue.
    pub fn producer_capacity(&self, version: &CachedVersion) -> (capacity: usize)
        requires
            self.well_formed(),
            self.is_latest(*version),
        ensures
            capacity == self.spec_capacity(),
            self@.len() <= capacity,
    {
        version.capacity()
    }

    /// Returns the slot of a counter in the ring of `version`.
    fn slot_of(counter: u32, version: &CachedVersion) -> (idx: usize)
        requires
            version.well_formed(),
        ensures
            idx == slot(counter as int, version.spec_capacity()),
            idx < version.spec_capacity(),
    {
        proof {
            lemma_mask_is_slot(counter, version.mask);
            lemma_capacity_aligned(version.spec_capacity());
            lemma_mod_bound(counter as int, version.spec_capacity());
        }
        (counter & version.mask()) as usize
    }

    /// Writes a slice into the ring from the slot of `start_tail` on.
    /// Returns the tail that lies behind the slice.
    fn copy_slice(
        buffer: &mut Vec<T>,
        start_tail: u32,
        slice: &[T],
        version: &CachedVersion,
    ) -> (new_tail: u32)
        requires
            version.well_formed(),
            old(buffer)@.len() == version.spec_capacity(),
            slice@.len() <= version.spec_capacity(),
        ensures
            final(buffer)@ == ring_write(old(buffer)@, start_tail as int, slice@),
            final(buffer)@.len() == version.spec_capacity(),
            new_tail == advance(start_tail as int, slice@.len() as int, counter_modulus()),
    {
        let tail_idx = Self::slot_of(start_tail, version);
        proof {
            lemma_capacity_aligned(version.spec_capacity());
            lemma_mod_twice(
                start_tail as int,
                version.spec_capacity(),
            );
            lemma_ring_write_same_slot(buffer@, tail_idx as int, start_tail as int, slice@);
        }
        write_ring(buffer.as_mut_slice(), tail_idx, slice);
        Self::advanced(start_tail, slice.len() as u32)
    }

    /// The oldest `n` values of the queue, as the one or two runs in which
    /// the ring holds them.
    fn leading_runs(&self, n: usize, version: &CachedVersion) -> (runs: (&[T], &[T]))
        requires
            self.well_formed(),
            self.is_latest(*version),
            n <= self@.len(),
        ensures
            runs.0@ + runs.1@ == self@.subrange(0, n as int),
    {
        let values = self.last_version.buffer.as_slice();
        let capacity = version.capacity();
        let head_idx = Self::slot_of(self.head, version);
        let right = capacity - head_idx;
        proof {
            lemma_capacity_aligned(capacity as int);
            lemma_queue_taken(
                self.last_version.buffer@,
                self.head as int,
                self.tail(),
                n as int,
                counter_modulus(),
            );
        }
        if n <= right {
            proof {
                lemma_window_is_subrange(self.last_version.buffer@, head_idx as int, n as int);
            }
            let first = &values[head_idx..head_idx + n];
            let last = &values[0..0];
            assert(first@ + last@ =~= first@);
            (first, last)
        } else {
            proof {
                lemma_window_two_parts(self.last_version.buffer@, head_idx as int, n as int);
            }
            (&values[head_idx..capacity], &values[0..n - right])
        }
    }

    /// Stores the id of `version` and `tail` as the packed word.
    fn store_version_and_tail(&mut self, version: &CachedVersion, tail: u32)
        ensures
            final(self).tail_and_version as int / 0x1_0000_0000 == version.spec_id(),
            final(self).tail() == tail,
            final(self).head == old(self).head,
            final(self).last_version == old(self).last_version,
    {
        self.tail_and_version = pack_version_and_tail(version.id(), tail);
    }

    /// Creates a new version of `new_capacity` slots, copies the values of
    /// the queue into it, each to the slot of its own counter, and installs
    /// it. The packed word still holds the id of the version before.
    /// Returns what is to be remembered of the new version, and the tail
    /// that lies behind the copied values.
    fn create_new_version_and_write_it_but_not_update_tail(
        &mut self,
        new_capacity: usize,
        old_version: &CachedVersion,
    ) -> (created: (CachedVersion, u32))
        requires
            old(self).well_formed(),
            old(self).is_latest(*old_version),
            is_capacity(new_capacity as int),
            new_capacity >= 2 * old(self).spec_capacity(),
        ensures
            final(self).last_version.well_formed(),
            final(self).last_version.buffer@.len() == new_capacity,
            final(self).last_version.id == old(self).last_version.id + 1,
            pow2(final(self).last_version.id as nat) <= new_capacity,
            final(self).head == old(self).head,
            final(self).tail_and_version == old(self).tail_and_version,
            created.0.well_formed(),
            created.0.spec_id() == final(self).last_version.id,
            created.0.spec_capacity() == new_capacity,
            created.1 == old(self).tail(),
            window(final(self).last_version.buffer@, old(self).head as int, old(self)@.len() as int)
                == old(self)@,
    {
        proof {
            lemma_capacity_aligned(new_capacity as int);
            lemma_capacity_aligned(self.spec_capacity());
            lemma_version_id_bound(self.last_version.id as nat, self.spec_capacity());
            lemma_pow2_unfold(self.last_version.id as nat + 1);
        }
        let head = self.head;
        let tail = self.load_tail();
        let len = Self::len(head, tail);
        let mut new_version: Version<T> = Version::alloc_new(new_capacity, old_version.id() + 1);
        let cached_version = CachedVersion::from_version(&new_version);
        let (src_right, src_left) = self.leading_runs(len, old_version);
        // The new ring is filled as a queue of its own, empty at first, whose
        // head is the head of this queue.
        let ghost fresh = new_version.buffer@;
        proof {
            assert((src_right@ + src_left@).len() == len);
            assert(self@.subrange(0, len as int) =~= self@);
            lemma_distance_of_counters(head as int, head as int, counter_modulus());
            lemma_queue_written(fresh, head as int, head as int, src_right@, counter_modulus());
        }
        let mid_tail = Self::copy_slice(&mut new_version.buffer, head, src_right, &cached_version);
        proof {
            lemma_queue_written(
                new_version.buffer@,
                head as int,
                mid_tail as int,
                src_left@,
                counter_modulus(),
            );
            assert(window(fresh, head as int, 0) + src_right@ =~= src_right@);
        }
        let new_tail = Self::copy_slice(
            &mut new_version.buffer,
            mid_tail,
            src_left,
            &cached_version,
        );
        proof {
            lemma_same_distance(head as int, tail as int, new_tail as int, counter_modulus());
        }
        self.last_version = new_version;
        (cached_version, new_tail)
    }

    /// Grows the queue to the given capacity.
    ///
    /// The capacity must be a power of two that is greater than that of the
    /// queue.
    pub fn producer_reserve(&mut self, new_capacity: usize, version: &mut CachedVersion)
        requires
            old(self).well_formed(),
            old(self).is_latest(*old(version)),
            is_capacity(new_capacity as int),
            new_capacity > old(self).spec_capacity(),
        ensures
            final(self).well_formed(),
            final(self).is_latest(*final(version)),
            final(self)@ == old(self)@,
            final(self).spec_capacity() == new_capacity,
            final(self).spec_version_id() == old(self).spec_version_id() + 1,
    {
        proof {
            lemma_larger_capacity(self.spec_capacity(), new_capacity as int);
        }
        let (cached_version, tail) = self.create_new_version_and_write_it_but_not_update_tail(
            new_capacity,
            version,
        );
        self.store_version_and_tail(&cached_version, tail);
        *version = cached_version;
    }

    /// Pops the oldest value from the queue.
    /// Returns `None` if the queue is empty.
    pub fn producer_pop(&mut self, version: &CachedVersion) -> (popped: Option<T>)
        requires
            old(self).well_formed(),
            old(self).is_latest(*version),
        ensures
            final(self).well_formed(),
            final(self).spec_capacity() == old(self).spec_capacity(),
            final(self).spec_version_id() == old(self).spec_version_id(),
            old(self)@.len() == 0 ==> popped is None && final(self)@ == old(self)@,
            old(self)@.len() > 0 ==> popped == Some(old(self)@[0]) && final(self)@ == old(
                self,
            )@.subrange(1, old(self)@.len() as int),
    {
        let head = self.head;
        let tail = self.load_tail();
        proof {
            lemma_distance_of_counters(head as int, tail as int, counter_modulus());
        }
        if head == tail {
            return None;
        }
        proof {
            lemma_capacity_aligned(self.spec_capacity());
            lemma_queue_taken(
                self.last_version.buffer@,
                head as int,
                tail as int,
                1,
                counter_modulus(),
            );
        }
        let value = self.last_version.buffer[Self::slot_of(head, version)];
        self.head = Self::advanced(head, 1);
        Some(value)
    }

    /// Pops the oldest values from the queue into the front of `dst`, as
    /// many as the queue holds and `dst` has room for.
    /// Returns the number of values popped.
    pub fn producer_pop_many(&mut self, dst: &mut [T], version: &CachedVersion) -> (n: usize)
        requires
            old(self).well_formed(),
            old(self).is_latest(*version),
        ensures
            final(self).well_formed(),
            final(self).spec_capacity() == old(self).spec_capacity(),
            final(self).spec_version_id() == old(self).spec_version_id(),
            n == old(self)@.len() || n == old(dst)@.len(),
            n <= old(self)@.len(),
            n <= old(dst)@.len(),
            final(dst)@ == old(self)@.subrange(0, n as int) + old(dst)@.subrange(
                n as int,
                old(dst)@.len() as int,
            ),
            final(self)@ == old(self)@.subrange(n as int, old(self)@.len() as int),
    {
        let head = self.head;
        let tail = self.load_tail();
        let available = Self::len(head, tail);
        let n = if dst.len() < available {
            dst.len()
        } else {
            available
        };
        if n == 0 {
            assert(dst@ =~= self@.subrange(0, 0) + dst@.subrange(0, dst@.len() as int));
            assert(self@ =~= self@.subrange(0, self@.len() as int));
            return 0;
        }
        proof {
            lemma_capacity_aligned(self.spec_capacity());
            lemma_queue_taken(
                self.last_version.buffer@,
                head as int,
                tail as int,
                n as int,
                counter_modulus(),
            );
        }
        self.head = Self::advanced(head, n as u32);
        read_ring(self.last_version.buffer.as_slice(), Self::slot_of(head, version), n, dst);
        n
    }

    /// Pushes a value to the queue.
    ///
    /// The queue must not be full.
    pub fn push_unchecked(&mut self, value: T, version: &CachedVersion)
        requires
            old(self).well_formed(),
            old(self).is_latest(*version),
            old(self)@.len() < old(self).spec_capacity(),
        ensures
            final(self).well_formed(),
            final(self).spec_capacity() == old(self).spec_capacity(),
            final(self).spec_version_id() == old(self).spec_version_id(),
            final(self)@ == old(self)@.push(value),
    {
        let tail = self.load_tail();
        let ghost head = self.head as int;
        let ghost before = self.last_version.buffer@;
        let idx = Self::slot_of(tail, version);
        self.last_version.buffer[idx] = value;
        proof {
            lemma_capacity_aligned(self.spec_capacity());
            assert(self.last_version.buffer@ =~= before.subrange(0, idx as int) + seq![value]
                + before.subrange(idx + 1, before.len() as int));
            lemma_runs_are_ring_write(
                before,
                self.last_version.buffer@,
                tail as int,
                seq![value],
            );
            lemma_queue_written(before, head, tail as int, seq![value], counter_modulus());
        }
        self.store_version_and_tail(version, Self::advanced(tail, 1));
    }

    /// Installs a version that has room for the values of the queue and
    /// for `values`, and pushes `values` to it.
    fn handle_overflow(&mut self, version: &mut CachedVersion, values: &[T])
        requires
            old(self).well_formed(),
            old(self).is_latest(*old(version)),
            old(self)@.len() + values@.len() > old(self).spec_capacity(),
            old(self)@.len() + values@.len() < max_capacity(),
        ensures
            final(self).well_formed(),
            final(self).is_latest(*final(version)),
            final(self)@ == old(self)@ + values@,
            final(self).spec_capacity() == grown_capacity(
                2 * old(self).spec_capacity(),
                (old(self)@.len() + values@.len()) as int,
            ),
            final(self).spec_version_id() == old(self).spec_version_id() + 1,
    {
        let ghost before = self@;
        let len = self.producer_len();
        let new_capacity = grow_capacity(version.capacity(), len + values.len());
        proof {
            lemma_capacity_aligned(self.spec_capacity());
            lemma_capacity_aligned(new_capacity as int);
            lemma_capacity_doubles(self.spec_capacity());
            lemma_grown_capacity(2 * self.spec_capacity(), (len + values@.len()) as int);
        }
        let (cached_version, tail) = self.create_new_version_and_write_it_but_not_update_tail(
            new_capacity,
            version,
        );
        let ghost head = self.head as int;
        proof {
            lemma_queue_written(
                self.last_version.buffer@,
                head,
                tail as int,
                values@,
                counter_modulus(),
            );
        }
        let new_tail = Self::copy_slice(
            &mut self.last_version.buffer,
            tail,
            values,
            &cached_version,
        );
        self.store_version_and_tail(&cached_version, new_tail);
        *version = cached_version;
    }

    /// Pushes a value to the queue, which grows if it is full.
    pub fn producer_push(&mut self, value: T, version: &mut CachedVersion)
        requires
            old(self).well_formed(),
            old(self).is_latest(*old(version)),
            old(self)@.len() + 1 < max_capacity(),
        ensures
            final(self).well_formed(),
            final(self).is_latest(*final(version)),
            final(self)@ == old(self)@.push(value),
            old(self)@.len() < old(self).spec_capacity() ==> {
                &&& final(self).spec_capacity() == old(self).spec_capacity()
                &&& final(self).spec_version_id() == old(self).spec_version_id()
            },
            old(self)@.len() == old(self).spec_capacity() ==> {
                &&& final(self).spec_capacity() == grown_capacity(
                    2 * old(self).spec_capacity(),
                    old(self).spec_capacity() + 1,
                )
                &&& final(self).spec_version_id() == old(self).spec_version_id() + 1
            },
    {
        let head = self.head;
        let tail = self.load_tail();
        if Self::len(head, tail) == version.capacity() {
            let values = [value];
            proof {
                lemma_capacity_aligned(self.spec_capacity());
                assert(values@ =~= seq![value]);
                assert(self@ + values@ =~= self@.push(value));
            }
            self.handle_overflow(version, values.as_slice());
            return ;
        }
        self.push_unchecked(value, version);
    }

    /// Pushes the values of two slices to the queue, `first` before `last`.
    ///
    /// The queue must have room for all of them.
    pub fn producer_push_many_unchecked(
        &mut self,
        first: &[T],
        last: &[T],
        version: &CachedVersion,
    )
        requires
            old(self).well_formed(),
            old(self).is_latest(*version),
            old(self)@.len() + first@.len() + last@.len() <= old(self).spec_capacity(),
        ensures
            final(self).well_formed(),
            final(self).spec_capacity() == old(self).spec_capacity(),
            final(self).spec_version_id() == old(self).spec_version_id(),
            final(self)@ == old(self)@ + first@ + last@,
    {
        let ghost head = self.head as int;
        let mut tail = self.load_tail();
        proof {
            lemma_capacity_aligned(self.spec_capacity());
            lemma_queue_written(
                self.last_version.buffer@,
                head,
                tail as int,
                first@,
                counter_modulus(),
            );
        }
        tail = Self::copy_slice(&mut self.last_version.buffer, tail, first, version);
        proof {
            lemma_queue_written(
                self.last_version.buffer@,
                head,
                tail as int,
                last@,
                counter_modulus(),
            );
        }
        tail = Self::copy_slice(&mut self.last_version.buffer, tail, last, version);
        self.store_version_and_tail(version, tail);
    }

    /// Pushes the values of a slice to the queue, which grows if it has no
    /// room for all of them.
    pub fn producer_push_many(&mut self, slice: &[T], version: &mut CachedVersion)
        requires
            old(self).well_formed(),
            old(self).is_latest(*old(version)),
            old(self)@.len() + slice@.len() < max_capacity(),
        ensures
            final(self).well_formed(),
            final(self).is_latest(*final(version)),
            final(self)@ == old(self)@ + slice@,
            old(self)@.len() + slice@.len() <= old(self).spec_capacity() ==> {
                &&& final(self).spec_capacity() == old(self).spec_capacity()
                &&& final(self).spec_version_id() == old(self).spec_version_id()
            },
            old(self)@.len() + slice@.len() > old(self).spec_capacity() ==> {
                &&& final(self).spec_capacity() == grown_capacity(
                    2 * old(self).spec_capacity(),
                    (old(self)@.len() + slice@.len()) as int,
                )
                &&& final(self).spec_version_id() == old(self).spec_version_id() + 1
            },
    {
        let head = self.head;
        let mut tail = self.load_tail();
        if slice.len() > version.capacity() - Self::len(head, tail) {
            self.handle_overflow(version, slice);
            return ;
        }
        proof {
            lemma_capacity_aligned(self.spec_capacity());
            lemma_queue_written(
                self.last_version.buffer@,
                head as int,
                tail as int,
                slice@,
                counter_modulus(),
            );
        }
        tail = Self::copy_slice(&mut self.last_version.buffer, tail, slice, version);
        self.store_version_and_tail(version, tail);
    }

    /// Returns the capacity of the queue, and brings `version` up to date.
    pub fn consumer_capacity(&self, version: &mut CachedVersion) -> (capacity: usize)
        requires
            self.well_formed(),
            self.knows(*old(version)),
        ensures
            capacity == self.spec_capacity(),
            self.is_latest(*final(version)),
            final(version).spec_id() >= old(version).spec_id(),
    {
        let last_version_id = self.load_version();
        if version.id() == last_version_id {
            return version.capacity();
        }
        self.update_version(version);
        version.capacity()
    }

    /// Returns the number of values in the queue. Brings `version` up to
    /// date where the queue holds more values than the remembered version
    /// has room for.
    pub fn consumer_len(&self, version: &mut CachedVersion) -> (len: usize)
        requires
            self.well_formed(),
            self.knows(*old(version)),
        ensures
            len == self@.len(),
            self.knows(*final(version)),
            final(version).spec_id() >= old(version).spec_id(),
            len <= final(version).spec_capacity(),
            len <= old(version).spec_capacity() ==> *final(version) == *old(version),
            len > old(version).spec_capacity() ==> self.is_latest(*final(version)),
    {
        let tail = self.load_tail();
        let head = self.head;
        let len = Self::len(head, tail);
        if len > version.capacity() {
            // The installed version is a newer one, with more room.
            self.update_version(version);
        }
        len
    }

    /// Pops the oldest values from the queue into the front of `dst`, as
    /// many as the queue holds and `dst` has room for, and brings `version`
    /// up to date.
    /// Returns the number of values popped.
    pub fn consumer_pop_many(&mut self, dst: &mut [T], version: &mut CachedVersion) -> (n: usize)
        requires
            old(self).well_formed(),
            old(self).knows(*old(version)),
        ensures
            final(self).well_formed(),
            final(self).spec_capacity() == old(self).spec_capacity(),
            final(self).spec_version_id() == old(self).spec_version_id(),
            final(self).is_latest(*final(version)),
            final(version).spec_id() >= old(version).spec_id(),
            n == old(self)@.len() || n == old(dst)@.len(),
            n <= old(self)@.len(),
            n <= old(dst)@.len(),
            final(dst)@ == old(self)@.subrange(0, n as int) + old(dst)@.subrange(
                n as int,
                old(dst)@.len() as int,
            ),
            final(self)@ == old(self)@.subrange(n as int, old(self)@.len() as int),
    {
        let head = self.head;
        let (last_version_id, tail) = self.load_version_and_tail();
        if version.id() < last_version_id {
            self.update_version(version);
        }
        let available = Self::len(head, tail);
        let n = if dst.len() < available {
            dst.len()
        } else {
            available
        };
        if n == 0 {
            assert(dst@ =~= self@.subrange(0, 0) + dst@.subrange(0, dst@.len() as int));
            assert(self@ =~= self@.subrange(0, self@.len() as int));
            return 0;
        }
        // The values are copied out first, and claimed by moving the head
        // past them after that.

        read_ring(self.last_version.buffer.as_slice(), Self::slot_of(head, version), n, dst);
        proof {
            lemma_capacity_aligned(self.spec_capacity());
            lemma_queue_taken(
                self.last_version.buffer@,
                head as int,
                tail as int,
                n as int,
                counter_modulus(),
            );
        }
        self.head = Self::advanced(head, n as u32);
        n
    }

    /// Steals the older half of the values of this queue into `dst`, or as
    /// many of them as `dst` has room for, and brings `src_version` up to
    /// date.
    /// Returns the number of values stolen.
    ///
    /// Nothing is stolen where that half is empty, or is under four values
    /// and `always_steal` is off. `dst` must be empty.
    pub fn steal_into(
        &mut self,
        dst: &mut Self,
        src_version: &mut CachedVersion,
        dst_version: &CachedVersion,
        always_steal: bool,
    ) -> (n: usize)
        requires
            old(self).well_formed(),
            old(self).knows(*old(src_version)),
            old(dst).well_formed(),
            old(dst).is_latest(*dst_version),
            old(dst)@.len() == 0,
        ensures
            final(self).well_formed(),
            final(self).spec_capacity() == old(self).spec_capacity(),
            final(self).spec_version_id() == old(self).spec_version_id(),
            final(self).is_latest(*final(src_version)),
            final(src_version).spec_id() >= old(src_version).spec_id(),
            final(dst).well_formed(),
            final(dst).spec_capacity() == old(dst).spec_capacity(),
            final(dst).spec_version_id() == old(dst).spec_version_id(),
            n == steal_count(old(self)@.len() as int, always_steal) || n == old(
                dst,
            ).spec_capacity(),
            n <= steal_count(old(self)@.len() as int, always_steal),
            n <= old(dst).spec_capacity(),
            final(self)@ == old(self)@.subrange(n as int, old(self)@.len() as int),
            final(dst)@ == old(self)@.subrange(0, n as int),
    {
        let src_head = self.head;
        let (src_last_version_id, src_tail) = self.load_version_and_tail();
        let dst_tail = dst.load_tail();
        if src_version.id() < src_last_version_id {
            self.update_version(src_version);
        }
        let half = Self::len(src_head, src_tail) / 2;
        if !always_steal && half < 4 || half == 0 {
            assert(self@ =~= self@.subrange(0, self@.len() as int));
            assert(dst@ =~= self@.subrange(0, 0));
            return 0;
        }
        let n = if dst_version.capacity() < half {
            dst_version.capacity()
        } else {
            half
        };
        let (src_right, src_left) = self.leading_runs(n, src_version);
        let ghost dst_head = dst.head as int;
        proof {
            lemma_capacity_aligned(dst.spec_capacity());
            assert((src_right@ + src_left@).len() == n);
            lemma_queue_written(
                dst.last_version.buffer@,
                dst_head,
                dst_tail as int,
                src_right@,
                counter_modulus(),
            );
        }
        let mid_tail = Self::copy_slice(
            &mut dst.last_version.buffer,
            dst_tail,
            src_right,
            dst_version,
        );
        proof {
            lemma_queue_written(
                dst.last_version.buffer@,
                dst_head,
                mid_tail as int,
                src_left@,
                counter_modulus(),
            );
        }
        let new_tail = Self::copy_slice(
            &mut dst.last_version.buffer,
            mid_tail,
            src_left,
            dst_version,
        );
        proof {
            lemma_capacity_aligned(self.spec_capacity());
            lemma_queue_taken(
                self.last_version.buffer@,
                src_head as int,
                src_tail as int,
                n as int,
                counter_modulus(),
            );
            assert(old(dst)@ + src_right@ + src_left@ =~= src_right@ + src_left@);
        }
        self.head = Self::advanced(src_head, n as u32);
        dst.store_version_and_tail(dst_version, new_tail);
        n
    }
}

/// The producer of an unbounded queue: the one owner of the queue, which
/// pushes to it and pops from it, and remembers the installed version.
///
/// Its view is the sequence of the values in the queue, oldest first.
pub struct SPMCUnboundedProducer<T> {
    inner: SPMCUnboundedQueue<T>,
    cached_version: CachedVersion,
}

impl<T> SPMCUnboundedProducer<T> {
    /// The queue is well formed, and the producer remembers the installed
    /// version.
    pub closed spec fn well_formed(&self) -> bool {
        &&& self.inner.well_formed()
        &&& self.inner.is_latest(self.cached_version)
    }

    /// The values in the queue, oldest first.
    pub closed spec fn view(&self) -> Seq<T> {
        self.inner@
    }

    /// The capacity of the queue.
    pub closed spec fn spec_capacity(&self) -> int {
        self.inner.spec_capacity()
    }

    /// The id of the installed version: the number of times the queue has
    /// grown.
    pub closed spec fn spec_version_id(&self) -> u32 {
        self.inner.spec_version_id()
    }
}

impl<T: Copy + Default> SPMCUnboundedProducer<T> {
    /// Grows the queue to the given capacity.
    ///
    /// The capacity must be a power of two that is greater than that of the
    /// queue.
    pub fn reserve(&mut self, capacity: usize)
        requires
            old(self).well_formed(),
            is_capacity(capacity as int),
            capacity > old(self).spec_capacity(),
        ensures
            final(self).well_formed(),
            final(self)@ == old(self)@,
            final(self).spec_capacity() == capacity,
            final(self).spec_version_id() == old(self).spec_version_id() + 1,
    {
        self.inner.producer_reserve(capacity, &mut self.cached_version);
    }

    /// Returns the capacity of the queue.
    pub fn capacity(&self) -> (capacity: usize)
        requires
            self.well_formed(),
        ensures
            capacity == self.spec_capacity(),
            is_capacity(capacity as int),
            self@.len() <= capacity,
    {
        self.inner.producer_capacity(&self.cached_version)
    }

    /// Returns the id of the installed version: the number of times the
    /// queue has grown.
    pub fn version_id(&self) -> (id: u32)
        requires
            self.well_formed(),
        ensures
            id == self.spec_version_id(),
    {
        self.cached_version.id()
    }

    /// Returns the number of values in the queue.
    pub fn len(&self) -> (len: usize)
        requires
            self.well_formed(),
        ensures
            len == self@.len(),
            len <= self.spec_capacity(),
    {
        self.inner.producer_len()
    }

    /// Returns whether the queue holds no value.
    pub fn is_empty(&self) -> (empty: bool)
        requires
            self.well_formed(),
        ensures
            empty <==> self@.len() == 0,
    {
        self.inner.producer_len() == 0
    }

    /// Pushes a value to the queue, which grows if it is full. The receiver
    /// gets nothing.
    pub fn push<SBR: SyncBatchReceiver<T>>(&mut self, value: T, _sync_batch_receiver: &mut SBR)
        requires
            old(self).well_formed(),
            old(self)@.len() + 1 < max_capacity(),
        ensures
            final(self).well_formed(),
            final(self)@ == old(self)@.push(value),
            final(_sync_batch_receiver).contents() == old(_sync_batch_receiver).contents(),
            old(self)@.len() < old(self).spec_capacity() ==> {
                &&& final(self).spec_capacity() == old(self).spec_capacity()
                &&& final(self).spec_version_id() == old(self).spec_version_id()
            },
            old(self)@.len() == old(self).spec_capacity() ==> {
                &&& final(self).spec_capacity() == grown_capacity(
                    2 * old(self).spec_capacity(),
                    old(self).spec_capacity() + 1,
                )
                &&& final(self).spec_version_id() == old(self).spec_version_id() + 1
            },
    {
        self.inner.producer_push(value, &mut self.cached_version);
    }

    /// Pushes a value to the queue, which grows if it is full.
    pub fn maybe_push(&mut self, value: T) -> (res: Result<(), T>)
        requires
            old(self).well_formed(),
            old(self)@.len() + 1 < max_capacity(),
        ensures
            res is Ok,
            final(self).well_formed(),
            final(self)@ == old(self)@.push(value),
            old(self)@.len() < old(self).spec_capacity() ==> {
                &&& final(self).spec_capacity() == old(self).spec_capacity()
                &&& final(self).spec_version_id() == old(self).spec_version_id()
            },
            old(self)@.len() == old(self).spec_capacity() ==> {
                &&& final(self).spec_capacity() == grown_capacity(
                    2 * old(self).spec_capacity(),
                    old(self).spec_capacity() + 1,
                )
                &&& final(self).spec_version_id() == old(self).spec_version_id() + 1
            },
    {
        self.inner.producer_push(value, &mut self.cached_version);
        Ok(())
    }

    /// Pops the oldest value from the queue.
    /// Returns `None` if the queue is empty.
    pub fn pop(&mut self) -> (popped: Option<T>)
        requires
            old(self).well_formed(),
        ensures
            final(self).well_formed(),
            final(self).spec_capacity() == old(self).spec_capacity(),
            final(self).spec_version_id() == old(self).spec_version_id(),
            old(self)@.len() == 0 ==> popped is None && final(self)@ == old(self)@,
            old(self)@.len() > 0 ==> popped == Some(old(self)@[0]) && final(self)@ == old(
                self,
            )@.subrange(1, old(self)@.len() as int),
    {
        self.inner.producer_pop(&self.cached_version)
    }

    /// Pops the oldest values from the queue into the front of `dst`, as
    /// many as the queue holds and `dst` has room for.
    /// Returns the number of values popped.
    pub fn pop_many(&mut self, dst: &mut [T]) -> (n: usize)
        requires
            old(self).well_formed(),
        ensures
            final(self).well_formed(),
            final(self).spec_capacity() == old(self).spec_capacity(),
            final(self).spec_version_id() == old(self).spec_version_id(),
            n == old(self)@.len() || n == old(dst)@.len(),
            n <= old(self)@.len(),
            n <= old(dst)@.len(),
            final(dst)@ == old(self)@.subrange(0, n as int) + old(dst)@.subrange(
                n as int,
                old(dst)@.len() as int,
            ),
            final(self)@ == old(self)@.subrange(n as int, old(self)@.len() as int),
    {
        self.inner.producer_pop_many(dst, &self.cached_version)
    }

    /// Pushes the values of two slices to the queue, `first` before `last`.
    ///
    /// The queue must have room for all of them.
    pub fn push_many_unchecked(&mut self, first: &[T], last: &[T])
        requires
            old(self).well_formed(),
            old(self)@.len() + first@.len() + last@.len() <= old(self).spec_capacity(),
        ensures
            final(self).well_formed(),
            final(self).spec_capacity() == old(self).spec_capacity(),
            final(self).spec_version_id() == old(self).spec_version_id(),
            final(self)@ == old(self)@ + first@ + last@,
    {
        self.inner.producer_push_many_unchecked(first, last, &self.cached_version);
    }

    /// Pushes the values of a slice to the queue, which grows if it has no
    /// room for all of them.
    pub fn maybe_push_many(&mut self, slice: &[T]) -> (res: Result<(), ()>)
        requires
            old(self).well_formed(),
            old(self)@.len() + slice@.len() < max_capacity(),
        ensures
            res is Ok,
            final(self).well_formed(),
            final(self)@ == old(self)@ + slice@,
            old(self)@.len() + slice@.len() <= old(self).spec_capacity() ==> {
                &&& final(self).spec_capacity() == old(self).spec_capacity()
                &&& final(self).spec_version_id() == old(self).spec_version_id()
            },
            old(self)@.len() + slice@.len() > old(self).spec_capacity() ==> {
                &&& final(self).spec_capacity() == grown_capacity(
                    2 * old(self).spec_capacity(),
                    (old(self)@.len() + slice@.len()) as int,
                )
                &&& final(self).spec_version_id() == old(self).spec_version_id() + 1
            },
    {
        self.inner.producer_push_many(slice, &mut self.cached_version);
        Ok(())
    }

    /// Pushes the values of a slice to the queue, which grows if it has no
    /// room for all of them. The receiver gets nothing.
    pub fn push_many<SBR: SyncBatchReceiver<T>>(
        &mut self,
        slice: &[T],
        _sync_batch_receiver: &mut SBR,
    )
        requires
            old(self).well_formed(),
            old(self)@.len() + slice@.len() < max_capacity(),
        ensures
            final(self).well_formed(),
            final(self)@ == old(self)@ + slice@,
            final(_sync_batch_receiver).contents() == old(_sync_batch_receiver).contents(),
            old(self)@.len() + slice@.len() <= old(self).spec_capacity() ==> {
                &&& final(self).spec_capacity() == old(self).spec_capacity()
                &&& final(self).spec_version_id() == old(self).spec_version_id()
            },
            old(self)@.len() + slice@.len() > old(self).spec_capacity() ==> {
                &&& final(self).spec_capacity() == grown_capacity(
                    2 * old(self).spec_capacity(),
                    (old(self)@.len() + slice@.len()) as int,
                )
                &&& final(self).spec_version_id() == old(self).spec_version_id() + 1
            },
    {
        self.inner.producer_push_many(slice, &mut self.cached_version);
    }

    /// Returns a vector of `n` values to pop into.
    fn room_for(n: usize) -> (room: Vec<T>)
        ensures
            room@.len() == n,
    {
        let mut room: Vec<T> = Vec::new();
        while room.len() < n
            invariant
                room@.len() <= n,
            decreases n - room@.len(),
        {
            room.push(T::default());
        }
        room
    }

    /// Performs an operation on the queue, with a consumer of its own
    /// where the operation is that of a consumer; such a consumer steals
    /// into a new queue of the capacity `room`.
    /// Returns the values that the operation hands to its caller.
    ///
    /// What the queue holds afterwards and what is returned are what the
    /// effect of the operation says.
    pub fn apply(&mut self, op: &Operation<T>, room: usize) -> (handed: Vec<T>)
        requires
            old(self).well_formed(),
            is_capacity(room as int),
            can_grow_for(old(self)@.len() as int, *op),
        ensures
            final(self).well_formed(),
            final(self).spec_version_id() >= old(self).spec_version_id(),
            final(self)@ == left(
                old(self)@,
                unbounded_effect(old(self)@.len() as int, *op, room as int),
            ),
            handed@ == delivered(
                old(self)@,
                unbounded_effect(old(self)@.len() as int, *op, room as int),
            ),
    {
        let ghost queue = self@;
        let ghost effect = unbounded_effect(queue.len() as int, *op, room as int);
        let len = self.len();
        let mut handed: Vec<T> = Vec::new();
        match op {
            Operation::Push(value) => {
                self.inner.producer_push(*value, &mut self.cached_version);
            },
            Operation::PushMany(values) => {
                self.inner.producer_push_many(values.as_slice(), &mut self.cached_version);
            },
            Operation::MaybePush(value) => {
                let _ = self.maybe_push(*value);
            },
            Operation::MaybePushMany(values) => {
                let _ = self.maybe_push_many(values.as_slice());
            },
            Operation::Pop => {
                if let Some(value) = self.pop() {
                    handed.push(value);
                }
            },
            Operation::PopMany(n) => {
                handed = Self::room_for(if *n < len { *n } else { len });
                let _ = self.pop_many(handed.as_mut_slice());
            },
            Operation::ConsumerPopMany(n) => {
                let mut consumer: SPMCUnboundedConsumer<T> = SPMCUnboundedConsumer {
                    cached_version: self.cached_version,
                    always_steal: false,
                    _values: PhantomData,
                };
                handed = Self::room_for(if *n < len { *n } else { len });
                let _ = consumer.pop_many(self, handed.as_mut_slice());
            },
            Operation::Steal(always_steal) => {
                let mut consumer: SPMCUnboundedConsumer<T> = SPMCUnboundedConsumer {
                    cached_version: self.cached_version,
                    always_steal: *always_steal,
                    _values: PhantomData,
                };
                let queue = SPMCUnboundedQueue::with_capacity(room);
                let version = queue.latest_version();
                let mut thief: SPMCUnboundedProducer<T> = SPMCUnboundedProducer {
                    inner: queue,
                    cached_version: version,
                };
                let n = consumer.steal_into(self, &mut thief);
                handed = Self::room_for(n);
                let _ = thief.pop_many(handed.as_mut_slice());
            },
        }
        proof {
            assert(self@ =~= left(queue, effect));
            assert(handed@ =~= delivered(queue, effect));
        }
        handed
    }
}

/// A consumer of unbounded queues: it takes values from the head of the
/// queue of a producer, for itself or into the queue of another producer,
/// and remembers the version of the queue that it saw last.
pub struct SPMCUnboundedConsumer<T> {
    cached_version: CachedVersion,
    always_steal: bool,
    _values: PhantomData<T>,
}

impl<T> SPMCUnboundedConsumer<T> {
    /// Whether the consumer steals even where it would take under four
    /// values.
    pub closed spec fn always_steal(&self) -> bool {
        self.always_steal
    }

    /// The id of the version that the consumer remembers.
    pub closed spec fn spec_version_id(&self) -> u32 {
        self.cached_version.spec_id()
    }

    /// The capacity of the version that the consumer remembers.
    pub closed spec fn spec_capacity(&self) -> int {
        self.cached_version.spec_capacity()
    }

    /// The consumer remembers a capacity.
    pub closed spec fn well_formed(&self) -> bool {
        self.cached_version.well_formed()
    }

    /// The consumer remembers the version that `producer` has installed,
    /// or one that it had installed before.
    pub open spec fn attached(&self, producer: &SPMCUnboundedProducer<T>) -> bool {
        &&& self.well_formed()
        &&& self.spec_version_id() <= producer.spec_version_id()
        &&& self.spec_version_id() == producer.spec_version_id() ==> self.spec_capacity()
            == producer.spec_capacity()
    }

    /// The consumer remembers the version that `producer` has installed.
    pub open spec fn up_to_date(&self, producer: &SPMCUnboundedProducer<T>) -> bool {
        &&& self.well_formed()
        &&& self.spec_version_id() == producer.spec_version_id()
        &&& self.spec_capacity() == producer.spec_capacity()
    }
}

impl<T: Copy + Default> SPMCUnboundedConsumer<T> {
    /// Sets whether the consumer steals even where it would take under four
    /// values.
    pub fn set_always_steal(&mut self, always_steal: bool)
        ensures
            final(self).always_steal() == always_steal,
            final(self).well_formed() == old(self).well_formed(),
            final(self).spec_version_id() == old(self).spec_version_id(),
            final(self).spec_capacity() == old(self).spec_capacity(),
    {
        self.always_steal = always_steal;
    }

    /// Returns the id of the version that the consumer remembers.
    pub fn version_id(&self) -> (id: u32)
        ensures
            id == self.spec_version_id(),
    {
        self.cached_version.id()
    }

    /// Returns another consumer that remembers the same version, with the
    /// same setting.
    pub fn clone(&self) -> (other: Self)
        ensures
            other.always_steal() == self.always_steal(),
            other.well_formed() == self.well_formed(),
            other.spec_version_id() == self.spec_version_id(),
            other.spec_capacity() == self.spec_capacity(),
    {
        Self {
            cached_version: self.cached_version,
            always_steal: self.always_steal,
            _values: PhantomData,
        }
    }

    /// Returns the capacity of the queue of `producer`, and brings the
    /// consumer up to date.
    pub fn capacity(&mut self, producer: &SPMCUnboundedProducer<T>) -> (capacity: usize)
        requires
            producer.well_formed(),
            old(self).attached(producer),
        ensures
            capacity == producer.spec_capacity(),
            final(self).up_to_date(producer),
            final(self).always_steal() == old(self).always_steal(),
            final(self).spec_version_id() >= old(self).spec_version_id(),
    {
        producer.inner.consumer_capacity(&mut self.cached_version)
    }

    /// Returns the number of values in the queue of `producer`. Brings the
    /// consumer up to date where the queue holds more values than the
    /// version that it remembers has room for.
    pub fn len(&mut self, producer: &SPMCUnboundedProducer<T>) -> (len: usize)
        requires
            producer.well_formed(),
            old(self).attached(producer),
        ensures
            len == producer@.len(),
            final(self).attached(producer),
            final(self).always_steal() == old(self).always_steal(),
            final(self).spec_version_id() >= old(self).spec_version_id(),
            len <= final(self).spec_capacity(),
            len > old(self).spec_capacity() ==> final(self).up_to_date(producer),
            len <= old(self).spec_capacity() ==> {
                &&& final(self).spec_version_id() == old(self).spec_version_id()
                &&& final(self).spec_capacity() == old(self).spec_capacity()
            },
    {
        producer.inner.consumer_len(&mut self.cached_version)
    }

    /// Pops the oldest values from the queue of `producer` into the front
    /// of `dst`, as many as the queue holds and `dst` has room for, and
    /// brings the consumer up to date.
    /// Returns the number of values popped.
    pub fn pop_many(&mut self, producer: &mut SPMCUnboundedProducer<T>, dst: &mut [T]) -> (n:
        usize)
        requires
            old(producer).well_formed(),
            old(self).attached(old(producer)),
        ensures
            final(producer).well_formed(),
            final(producer).spec_capacity() == old(producer).spec_capacity(),
            final(producer).spec_version_id() == old(producer).spec_version_id(),
            final(self).up_to_date(final(producer)),
            final(self).always_steal() == old(self).always_steal(),
            final(self).spec_version_id() >= old(self).spec_version_id(),
            n == old(producer)@.len() || n == old(dst)@.len(),
            n <= old(producer)@.len(),
            n <= old(dst)@.len(),
            final(dst)@ == old(producer)@.subrange(0, n as int) + old(dst)@.subrange(
                n as int,
                old(dst)@.len() as int,
            ),
            final(producer)@ == old(producer)@.subrange(n as int, old(producer)@.len() as int),
    {
        producer.inner.consumer_pop_many(dst, &mut self.cached_version)
    }

    /// Steals the older half of the values in the queue of `src` into the
    /// queue of `dst`, or as many of them as that queue has room for, and
    /// brings the consumer up to date with `src`.
    /// Returns the number of values stolen.
    ///
    /// Nothing is stolen where that half is empty, or is under four values
    /// and the consumer does not always steal. The queue of `dst` must be
    /// empty.
    pub fn steal_into(
        &mut self,
        src: &mut SPMCUnboundedProducer<T>,
        dst: &mut SPMCUnboundedProducer<T>,
    ) -> (n: usize)
        requires
            old(src).well_formed(),
            old(self).attached(old(src)),
            old(dst).well_formed(),
            old(dst)@.len() == 0,
        ensures
            final(src).well_formed(),
            final(src).spec_capacity() == old(src).spec_capacity(),
            final(src).spec_version_id() == old(src).spec_version_id(),
            final(self).up_to_date(final(src)),
            final(self).always_steal() == old(self).always_steal(),
            final(self).spec_version_id() >= old(self).spec_version_id(),
            final(dst).well_formed(),
            final(dst).spec_capacity() == old(dst).spec_capacity(),
            final(dst).spec_version_id() == old(dst).spec_version_id(),
            n == steal_count(old(src)@.len() as int, old(self).always_steal()) || n == old(
                dst,
            ).spec_capacity(),
            n <= steal_count(old(src)@.len() as int, old(self).always_steal()),
            n <= old(dst).spec_capacity(),
            final(src)@ == old(src)@.subrange(n as int, old(src)@.len() as int),
            final(dst)@ == old(src)@.subrange(0, n as int),
    {
        src.inner.steal_into(
            &mut dst.inner,
            &mut self.cached_version,
            &dst.cached_version,
            self.always_steal,
        )
    }
}

/// Creates a new single-producer, multi-consumer queue that grows, with
/// room for four values.
/// Returns the producer, which owns the queue, and a consumer.
pub fn new_unbounded<T: Copy + Default>() -> (handles: (
    SPMCUnboundedProducer<T>,
    SPMCUnboundedConsumer<T>,
))
    ensures
        handles.0.well_formed(),
        handles.0@ == Seq::<T>::empty(),
        handles.0.spec_capacity() == 4,
        handles.0.spec_version_id() == 0,
        handles.1.up_to_date(&handles.0),
        !handles.1.always_steal(),
{
    let queue = SPMCUnboundedQueue::new();
    let version = queue.latest_version();
    (
        SPMCUnboundedProducer { inner: queue, cached_version: version },
        SPMCUnboundedConsumer { cached_version: version, always_steal: false, _values: PhantomData },
    )
}

} // verus!
