//! A single-producer, multi-consumer queue over a ring of fixed capacity.
//!
//! The queue is a ring of `CAPACITY` slots addressed by two counters that
//! wrap at the word size. The producer writes at the tail; the producer and
//! the consumers take from the head.
use crate::ring::{
    advance, aligned, distance, lemma_advance_of_counter, lemma_distance_of_counters,
    lemma_queue_taken, lemma_queue_written, lemma_ring_write_same_slot,
    lemma_runs_are_ring_write, lemma_window_is_subrange, lemma_window_two_parts, read_ring,
    ring_write, slot, window, write_ring,
};
use crate::spmc::ledger::{bounded_effect, delivered, left, sunk, Operation};
use crate::spmc::{spilled, steal_count};
use crate::sync_batch_receiver::SyncBatchReceiver;
use std::marker::PhantomData;
use vstd::arithmetic::div_mod::{
    lemma_fundamental_div_mod, lemma_fundamental_div_mod_converse, lemma_mod_multiples_basic,
    lemma_mod_twice,
};
use vstd::arithmetic::power2::{
    lemma2_to64, lemma_pow2_adds, lemma_pow2_pos, lemma_pow2_strictly_increases, pow2,
};
use vstd::prelude::*;

verus! {

/// The value at which the counters of a bounded queue wrap.
pub open spec fn word_modulus() -> int {
    usize::MAX as int + 1
}

/// Every power of two that fits a word divides the word size, and so can
/// be the capacity of a bounded queue.
pub proof fn lemma_power_of_two_aligned(e: nat)
    requires
        pow2(e) <= usize::MAX,
    ensures
        aligned(pow2(e) as int, word_modulus()),
{
    lemma2_to64();
    let bits: nat = if usize::MAX == 0xffff_ffff {
        32
    } else {
        64
    };
    assert(word_modulus() == pow2(bits));
    if e >= bits {
        if e > bits {
            lemma_pow2_strictly_increases(bits, e);
        }
    }
    let rest = (bits - e) as nat;
    lemma_pow2_pos(e);
    lemma_pow2_adds(e, rest);
    lemma_mod_multiples_basic(pow2(rest) as int, pow2(e) as int);
}

/// Returns whether `capacity` divides the word size, and so can be the
/// capacity of a bounded queue.
pub fn is_aligned_capacity(capacity: usize) -> (valid: bool)
    ensures
        valid == aligned(capacity as int, word_modulus()),
{
    if capacity == 0 {
        return false;
    }
    let rest = usize::MAX % capacity;
    proof {
        // The word size is one more than the largest word.
        let c = capacity as int;
        let q = usize::MAX as int / c;
        lemma_fundamental_div_mod(usize::MAX as int, c);
        assert(usize::MAX as int == q * c + rest) by (nonlinear_arith)
            requires
                usize::MAX as int == c * q + rest,
        ;
        if rest == c - 1 {
            assert(word_modulus() == (q + 1) * c + 0) by (nonlinear_arith)
                requires
                    word_modulus() == q * c + rest + 1,
                    rest == c - 1,
            ;
            lemma_fundamental_div_mod_converse(word_modulus(), c, q + 1, 0);
        } else {
            lemma_fundamental_div_mod_converse(word_modulus(), c, q, rest + 1);
        }
    }
    rest == capacity - 1
}

/// The single-producer, multi-consumer queue of fixed capacity.
///
/// Its view is the sequence of the values it holds, oldest first.
pub struct SPMCBoundedQueue<T, const CAPACITY: usize> {
    tail: usize,
    head: usize,
    buffer: Vec<T>,
}

impl<T, const CAPACITY: usize> SPMCBoundedQueue<T, CAPACITY> {
    /// The queue is in a state that its own functions leave it in.
    pub closed spec fn well_formed(&self) -> bool {
        &&& aligned(CAPACITY as int, word_modulus())
        &&& self.buffer@.len() == CAPACITY
        &&& distance(self.head as int, self.tail as int, word_modulus()) <= CAPACITY
    }

    /// The values in the queue, oldest first.
    pub closed spec fn view(&self) -> Seq<T> {
        window(
            self.buffer@,
            self.head as int,
            distance(self.head as int, self.tail as int, word_modulus()),
        )
    }
}

impl<T: Copy + Default, const CAPACITY: usize> SPMCBoundedQueue<T, CAPACITY> {
    /// Creates an empty queue.
    ///
    /// The capacity must divide the word size, at which the counters wrap:
    /// any power of two does.
    pub fn new() -> (queue: Self)
        requires
            aligned(CAPACITY as int, word_modulus()),
        ensures
            queue.well_formed(),
            queue@ == Seq::<T>::empty(),
    {
        let mut buffer: Vec<T> = Vec::new();
        while buffer.len() < CAPACITY
            invariant
                buffer@.len() <= CAPACITY,
            decreases CAPACITY - buffer@.len(),
        {
            buffer.push(T::default());
        }
        proof {
            lemma_distance_of_counters(0, 0, word_modulus());
        }
        let queue = Self { tail: 0, head: 0, buffer };
        assert(queue@ =~= Seq::<T>::empty());
        queue
    }

    /// Returns the capacity of the queue.
    pub fn capacity(&self) -> (capacity: usize)
        requires
            self.well_formed(),
        ensures
            capacity == CAPACITY,
            self@.len() <= capacity,
    {
        CAPACITY
    }

    /// Returns the number of values between the two counters.
    pub fn len(head: usize, tail: usize) -> (len: usize)
        ensures
            len == distance(head as int, tail as int, word_modulus()),
    {
        proof {
            lemma_distance_of_counters(head as int, tail as int, word_modulus());
        }
        tail.wrapping_sub(head)
    }

    /// Returns the counter that lies `n` steps after `counter`.
    fn advanced(counter: usize, n: usize) -> (next: usize)
        ensures
            next == advance(counter as int, n as int, word_modulus()),
    {
        proof {
            lemma_advance_of_counter(counter as int, n as int, word_modulus());
        }
        counter.wrapping_add(n)
    }

    /// Writes a slice into the ring from the slot of `start_tail` on.
    /// Returns the tail that lies behind the slice.
    fn copy_slice(buffer: &mut Vec<T>, start_tail: usize, slice: &[T]) -> (new_tail: usize)
        requires
            0 < CAPACITY,
            old(buffer)@.len() == CAPACITY,
            slice@.len() <= CAPACITY,
        ensures
            final(buffer)@ == ring_write(old(buffer)@, start_tail as int, slice@),
            final(buffer)@.len() == CAPACITY,
            new_tail == advance(start_tail as int, slice@.len() as int, word_modulus()),
    {
        let tail_idx = start_tail % CAPACITY;
        proof {
            lemma_mod_twice(start_tail as int, CAPACITY as int);
            lemma_ring_write_same_slot(buffer@, tail_idx as int, start_tail as int, slice@);
        }
        write_ring(buffer.as_mut_slice(), tail_idx, slice);
        Self::advanced(start_tail, slice.len())
    }

    /// Returns the number of values in the queue.
    pub fn producer_len(&self) -> (len: usize)
        requires
            self.well_formed(),
        ensures
            len == self@.len(),
            len <= CAPACITY,
    {
        Self::len(self.head, self.tail)
    }

    /// Pops the oldest value from the queue.
    /// Returns `None` if the queue is empty.
    pub fn producer_pop(&mut self) -> (popped: Option<T>)
        requires
            old(self).well_formed(),
        ensures
            final(self).well_formed(),
            old(self)@.len() == 0 ==> popped is None && final(self)@ == old(self)@,
            old(self)@.len() > 0 ==> popped == Some(old(self)@[0]) && final(self)@ == old(
                self,
            )@.subrange(1, old(self)@.len() as int),
    {
        let head = self.head;
        let tail = self.tail;
        if head == tail {
            proof {
                lemma_distance_of_counters(head as int, tail as int, word_modulus());
            }
            return None;
        }
        proof {
            lemma_distance_of_counters(head as int, tail as int, word_modulus());
            lemma_queue_taken(self.buffer@, head as int, tail as int, 1, word_modulus());
        }
        let value = self.buffer[head % CAPACITY];
        self.head = Self::advanced(head, 1);
        Some(value)
    }

    /// Pushes a value to the queue.
    ///
    /// The queue must not be full.
    pub fn push_unchecked(&mut self, value: T)
        requires
            old(self).well_formed(),
            old(self)@.len() < CAPACITY,
        ensures
            final(self).well_formed(),
            final(self)@ == old(self)@.push(value),
    {
        let tail = self.tail;
        let ghost head = self.head as int;
        let ghost before = self.buffer@;
        self.buffer[tail % CAPACITY] = value;
        proof {
            let idx = slot(tail as int, CAPACITY as int);
            assert(self.buffer@ =~= before.subrange(0, idx) + seq![value] + before.subrange(
                idx + 1,
                CAPACITY as int,
            ));
            lemma_runs_are_ring_write(before, self.buffer@, tail as int, seq![value]);
            lemma_queue_written(before, head, tail as int, seq![value], word_modulus());
        }
        self.tail = Self::advanced(tail, 1);
    }

    /// Pushes a value to the queue, or hands it back if the queue is full.
    pub fn producer_maybe_push(&mut self, value: T) -> (res: Result<(), T>)
        requires
            old(self).well_formed(),
        ensures
            final(self).well_formed(),
            old(self)@.len() == CAPACITY ==> res == Err::<(), T>(value) && final(self)@ == old(
                self,
            )@,
            old(self)@.len() < CAPACITY ==> res is Ok && final(self)@ == old(self)@.push(value),
    {
        if Self::len(self.head, self.tail) == CAPACITY {
            return Err(value);
        }
        self.push_unchecked(value);
        Ok(())
    }

    /// Pops the oldest values from the queue into the front of `dst`, as
    /// many as the queue holds and `dst` has room for.
    /// Returns the number of values popped.
    pub fn producer_pop_many(&mut self, dst: &mut [T]) -> (n: usize)
        requires
            old(self).well_formed(),
        ensures
            final(self).well_formed(),
            n == old(self)@.len() || n == old(dst)@.len(),
            n <= old(self)@.len(),
            n <= old(dst)@.len(),
            final(dst)@ == old(self)@.subrange(0, n as int) + old(dst)@.subrange(
                n as int,
                old(dst)@.len() as int,
            ),
            final(self)@ == old(self)@.subrange(n as int, old(self)@.len() as int),
    {
        let head = self.head;
        let tail = self.tail;
        let available = Self::len(head, tail);
        let n = if dst.len() < available {
            dst.len()
        } else {
            available
        };
        if n == 0 {
            assert(dst@ =~= self@.subrange(0, 0) + dst@.subrange(0, dst@.len() as int));
            assert(self@ =~= self@.subrange(0, self@.len() as int));
            return 0;
        }
        proof {
            lemma_queue_taken(self.buffer@, head as int, tail as int, n as int, word_modulus());
        }
        self.head = Self::advanced(head, n);
        read_ring(self.buffer.as_slice(), head % CAPACITY, n, dst);
        n
    }

    /// Pushes the values of two slices to the queue, `first` before `last`.
    ///
    /// The queue must have room for all of them.
    pub fn producer_push_many_unchecked(&mut self, first: &[T], last: &[T])
        requires
            old(self).well_formed(),
            old(self)@.len() + first@.len() + last@.len() <= CAPACITY,
        ensures
            final(self).well_formed(),
            final(self)@ == old(self)@ + first@ + last@,
    {
        let ghost head = self.head as int;
        let ghost before = self.buffer@;
        let mut tail = self.tail;
        proof {
            lemma_queue_written(before, head, tail as int, first@, word_modulus());
        }
        tail = Self::copy_slice(&mut self.buffer, tail, first);
        proof {
            lemma_queue_written(self.buffer@, head, tail as int, last@, word_modulus());
        }
        tail = Self::copy_slice(&mut self.buffer, tail, last);
        self.tail = tail;
    }

    /// Pushes the values of a slice to the queue, all of them or, if the
    /// queue has no room for all, none.
    pub fn producer_maybe_push_many(&mut self, slice: &[T]) -> (res: Result<(), ()>)
        requires
            old(self).well_formed(),
        ensures
            final(self).well_formed(),
            old(self)@.len() + slice@.len() > CAPACITY ==> res is Err && final(self)@ == old(
                self,
            )@,
            old(self)@.len() + slice@.len() <= CAPACITY ==> res is Ok && final(self)@ == old(
                self,
            )@ + slice@,
    {
        let head = self.head;
        let mut tail = self.tail;
        if slice.len() > CAPACITY - Self::len(head, tail) {
            return Err(());
        }
        proof {
            lemma_queue_written(self.buffer@, head as int, tail as int, slice@, word_modulus());
        }
        tail = Self::copy_slice(&mut self.buffer, tail, slice);
        self.tail = tail;
        Ok(())
    }

    /// The oldest `n` values of the queue, as the one or two runs in which
    /// the ring holds them.
    fn leading_runs(&self, n: usize) -> (runs: (&[T], &[T]))
        requires
            self.well_formed(),
            n <= self@.len(),
        ensures
            runs.0@ + runs.1@ == self@.subrange(0, n as int),
    {
        let values = self.buffer.as_slice();
        let head_idx = self.head % CAPACITY;
        let right = CAPACITY - head_idx;
        proof {
            lemma_queue_taken(self.buffer@, self.head as int, self.tail as int, n as int, word_modulus());
        }
        if n <= right {
            proof {
                lemma_window_is_subrange(self.buffer@, head_idx as int, n as int);
            }
            let first = &values[head_idx..head_idx + n];
            let last = &values[0..0];
            assert(first@ + last@ =~= first@);
            (first, last)
        } else {
            proof {
                lemma_window_two_parts(self.buffer@, head_idx as int, n as int);
            }
            (&values[head_idx..CAPACITY], &values[0..n - right])
        }
    }

    /// Hands the older half of a full queue, and `value` behind it, to the
    /// receiver.
    fn handle_overflow_one<SBR: SyncBatchReceiver<T>>(&mut self, sbr: &mut SBR, value: T)
        requires
            old(self).well_formed(),
            old(self)@.len() == CAPACITY,
        ensures
            final(self).well_formed(),
            final(self)@ == old(self)@.subrange(CAPACITY as int / 2, CAPACITY as int),
            final(sbr).contents() == old(sbr).contents() + old(self)@.subrange(
                0,
                CAPACITY as int / 2,
            ) + seq![value],
    {
        let taken = CAPACITY / 2;
        let (first, last) = self.leading_runs(taken);
        sbr.push_many_and_one(first, last, value);
        proof {
            lemma_queue_taken(self.buffer@, self.head as int, self.tail as int, taken as int, word_modulus());
            assert(old(sbr).contents() + first@ + last@ =~= old(sbr).contents() + (first@
                + last@));
        }
        self.head = Self::advanced(self.head, taken);
    }

    /// Hands the older values of the queue, up to half its capacity, and
    /// the values of `slice` behind them, to the receiver.
    fn handle_overflow_many<SBR: SyncBatchReceiver<T>>(&mut self, sbr: &mut SBR, slice: &[T])
        requires
            old(self).well_formed(),
        ensures
            final(self).well_formed(),
            final(self)@ == old(self)@.subrange(
                spilled(old(self)@.len() as int, CAPACITY as int),
                old(self)@.len() as int,
            ),
            final(sbr).contents() == old(sbr).contents() + old(self)@.subrange(
                0,
                spilled(old(self)@.len() as int, CAPACITY as int),
            ) + slice@,
    {
        let len = Self::len(self.head, self.tail);
        let taken = if len < CAPACITY / 2 {
            len
        } else {
            CAPACITY / 2
        };
        let (first, last) = self.leading_runs(taken);
        sbr.push_many_and_slice(first, last, slice);
        proof {
            lemma_queue_taken(self.buffer@, self.head as int, self.tail as int, taken as int, word_modulus());
            assert(old(sbr).contents() + first@ + last@ =~= old(sbr).contents() + (first@
                + last@));
        }
        self.head = Self::advanced(self.head, taken);
    }

    /// Pushes a value to the queue. If the queue is full, the older half of
    /// it goes to the receiver instead, and the value behind it.
    pub fn producer_push<SBR: SyncBatchReceiver<T>>(
        &mut self,
        value: T,
        sync_batch_receiver: &mut SBR,
    )
        requires
            old(self).well_formed(),
        ensures
            final(self).well_formed(),
            old(self)@.len() < CAPACITY ==> {
                &&& final(self)@ == old(self)@.push(value)
                &&& final(sync_batch_receiver).contents() == old(sync_batch_receiver).contents()
            },
            old(self)@.len() == CAPACITY ==> {
                &&& final(self)@ == old(self)@.subrange(CAPACITY as int / 2, CAPACITY as int)
                &&& final(sync_batch_receiver).contents() == old(sync_batch_receiver).contents()
                    + old(self)@.subrange(0, CAPACITY as int / 2) + seq![value]
            },
    {
        if Self::len(self.head, self.tail) == CAPACITY {
            self.handle_overflow_one(sync_batch_receiver, value);
            return ;
        }
        self.push_unchecked(value);
    }

    /// Pushes the values of a slice to the queue. If the queue has no room
    /// for all of them, its older values, up to half its capacity, go to
    /// the receiver instead, and the whole slice behind them.
    pub fn producer_push_many<SBR: SyncBatchReceiver<T>>(
        &mut self,
        slice: &[T],
        sync_batch_receiver: &mut SBR,
    )
        requires
            old(self).well_formed(),
        ensures
            final(self).well_formed(),
            old(self)@.len() + slice@.len() <= CAPACITY ==> {
                &&& final(self)@ == old(self)@ + slice@
                &&& final(sync_batch_receiver).contents() == old(sync_batch_receiver).contents()
            },
            old(self)@.len() + slice@.len() > CAPACITY ==> {
                let taken = spilled(old(self)@.len() as int, CAPACITY as int);
                &&& final(self)@ == old(self)@.subrange(taken, old(self)@.len() as int)
                &&& final(sync_batch_receiver).contents() == old(sync_batch_receiver).contents()
                    + old(self)@.subrange(0, taken) + slice@
            },
    {
        let head = self.head;
        let mut tail = self.tail;
        if slice.len() > CAPACITY - Self::len(head, tail) {
            self.handle_overflow_many(sync_batch_receiver, slice);
            return ;
        }
        proof {
            lemma_queue_written(self.buffer@, head as int, tail as int, slice@, word_modulus());
        }
        tail = Self::copy_slice(&mut self.buffer, tail, slice);
        self.tail = tail;
    }

    /// Returns the number of values in the queue.
    pub fn consumer_len(&self) -> (len: usize)
        requires
            self.well_formed(),
        ensures
            len == self@.len(),
            len <= CAPACITY,
    {
        Self::len(self.head, self.tail)
    }

    /// Pops the oldest values from the queue into the front of `dst`, as
    /// many as the queue holds and `dst` has room for.
    /// Returns the number of values popped.
    pub fn consumer_pop_many(&mut self, dst: &mut [T]) -> (n: usize)
        requires
            old(self).well_formed(),
        ensures
            final(self).well_formed(),
            n == old(self)@.len() || n == old(dst)@.len(),
            n <= old(self)@.len(),
            n <= old(dst)@.len(),
            final(dst)@ == old(self)@.subrange(0, n as int) + old(dst)@.subrange(
                n as int,
                old(dst)@.len() as int,
            ),
            final(self)@ == old(self)@.subrange(n as int, old(self)@.len() as int),
    {
        let head = self.head;
        let tail = self.tail;
        let available = Self::len(head, tail);
        let n = if dst.len() < available {
            dst.len()
        } else {
            available
        };
        if n == 0 {
            assert(dst@ =~= self@.subrange(0, 0) + dst@.subrange(0, dst@.len() as int));
            assert(self@ =~= self@.subrange(0, self@.len() as int));
            return 0;
        }
        // The values are copied out first, and claimed by moving the head
        // past them after that.

        read_ring(self.buffer.as_slice(), head % CAPACITY, n, dst);
        proof {
            lemma_queue_taken(self.buffer@, head as int, tail as int, n as int, word_modulus());
        }
        self.head = Self::advanced(head, n);
        n
    }

    /// Steals the older half of the values of this queue into `dst`.
    /// Returns the number of values stolen.
    ///
    /// Nothing is stolen where that half is empty, or is under four values
    /// and `always_steal` is off. `dst` must be empty.
    pub fn steal_into(&mut self, dst: &mut Self, always_steal: bool) -> (n: usize)
        requires
            old(self).well_formed(),
            old(dst).well_formed(),
            old(dst)@.len() == 0,
        ensures
            final(self).well_formed(),
            final(dst).well_formed(),
            n == steal_count(old(self)@.len() as int, always_steal),
            final(self)@ == old(self)@.subrange(n as int, old(self)@.len() as int),
            final(dst)@ == old(self)@.subrange(0, n as int),
    {
        let src_head = self.head;
        let dst_tail = dst.tail;
        let src_tail = self.tail;
        let n = Self::len(src_head, src_tail) / 2;
        if !always_steal && n < 4 || n == 0 {
            assert(self@ =~= self@.subrange(0, self@.len() as int));
            assert(dst@ =~= self@.subrange(0, 0));
            return 0;
        }
        let (src_right, src_left) = self.leading_runs(n);
        let ghost dst_head = dst.head as int;
        proof {
            assert((src_right@ + src_left@).len() == n);
            lemma_queue_written(dst.buffer@, dst_head, dst_tail as int, src_right@, word_modulus());
        }
        let mid_tail = Self::copy_slice(&mut dst.buffer, dst_tail, src_right);
        proof {
            lemma_queue_written(dst.buffer@, dst_head, mid_tail as int, src_left@, word_modulus());
        }
        let new_tail = Self::copy_slice(&mut dst.buffer, mid_tail, src_left);
        proof {
            lemma_queue_taken(self.buffer@, src_head as int, src_tail as int, n as int, word_modulus());
            assert(old(dst)@ + src_right@ + src_left@ =~= src_right@ + src_left@);
        }
        self.head = Self::advanced(src_head, n);
        dst.tail = new_tail;
        n
    }
}

/// The producer of a bounded queue: the one owner of the queue, which
/// pushes to it and pops from it.
///
/// Its view is the sequence of the values in the queue, oldest first.
pub struct SPMCProducer<T, const CAPACITY: usize> {
    inner: SPMCBoundedQueue<T, CAPACITY>,
}

impl<T, const CAPACITY: usize> SPMCProducer<T, CAPACITY> {
    /// The queue of the producer is well formed.
    pub closed spec fn well_formed(&self) -> bool {
        self.inner.well_formed()
    }

    /// The values in the queue, oldest first.
    pub closed spec fn view(&self) -> Seq<T> {
        self.inner@
    }
}

impl<T: Copy + Default, const CAPACITY: usize> SPMCProducer<T, CAPACITY> {
    /// Returns the capacity of the queue.
    pub fn capacity(&self) -> (capacity: usize)
        requires
            self.well_formed(),
        ensures
            capacity == CAPACITY,
            self@.len() <= capacity,
    {
        self.inner.capacity()
    }

    /// Returns the number of values in the queue.
    pub fn len(&self) -> (len: usize)
        requires
            self.well_formed(),
        ensures
            len == self@.len(),
            len <= CAPACITY,
    {
        self.inner.producer_len()
    }

    /// Returns whether the queue holds no value.
    pub fn is_empty(&self) -> (empty: bool)
        requires
            self.well_formed(),
        ensures
            empty <==> self@.len() == 0,
    {
        self.inner.producer_len() == 0
    }

    /// Pushes a value to the queue. If the queue is full, the older half of
    /// it goes to the receiver instead, and the value behind it.
    pub fn push<SBR: SyncBatchReceiver<T>>(&mut self, value: T, sync_batch_receiver: &mut SBR)
        requires
            old(self).well_formed(),
        ensures
            final(self).well_formed(),
            old(self)@.len() < CAPACITY ==> {
                &&& final(self)@ == old(self)@.push(value)
                &&& final(sync_batch_receiver).contents() == old(sync_batch_receiver).contents()
            },
            old(self)@.len() == CAPACITY ==> {
                &&& final(self)@ == old(self)@.subrange(CAPACITY as int / 2, CAPACITY as int)
                &&& final(sync_batch_receiver).contents() == old(sync_batch_receiver).contents()
                    + old(self)@.subrange(0, CAPACITY as int / 2) + seq![value]
            },
    {
        self.inner.producer_push(value, sync_batch_receiver);
    }

    /// Pushes a value to the queue, or hands it back if the queue is full.
    pub fn maybe_push(&mut self, value: T) -> (res: Result<(), T>)
        requires
            old(self).well_formed(),
        ensures
            final(self).well_formed(),
            old(self)@.len() == CAPACITY ==> res == Err::<(), T>(value) && final(self)@ == old(
                self,
            )@,
            old(self)@.len() < CAPACITY ==> res is Ok && final(self)@ == old(self)@.push(value),
    {
        self.inner.producer_maybe_push(value)
    }

    /// Pops the oldest value from the queue.
    /// Returns `None` if the queue is empty.
    pub fn pop(&mut self) -> (popped: Option<T>)
        requires
            old(self).well_formed(),
        ensures
            final(self).well_formed(),
            old(self)@.len() == 0 ==> popped is None && final(self)@ == old(self)@,
            old(self)@.len() > 0 ==> popped == Some(old(self)@[0]) && final(self)@ == old(
                self,
            )@.subrange(1, old(self)@.len() as int),
    {
        self.inner.producer_pop()
    }

    /// Pops the oldest values from the queue into the front of `dst`, as
    /// many as the queue holds and `dst` has room for.
    /// Returns the number of values popped.
    pub fn pop_many(&mut self, dst: &mut [T]) -> (n: usize)
        requires
            old(self).well_formed(),
        ensures
            final(self).well_formed(),
            n == old(self)@.len() || n == old(dst)@.len(),
            n <= old(self)@.len(),
            n <= old(dst)@.len(),
            final(dst)@ == old(self)@.subrange(0, n as int) + old(dst)@.subrange(
                n as int,
                old(dst)@.len() as int,
            ),
            final(self)@ == old(self)@.subrange(n as int, old(self)@.len() as int),
    {
        self.inner.producer_pop_many(dst)
    }

    /// Pushes the values of two slices to the queue, `first` before `last`.
    ///
    /// The queue must have room for all of them.
    pub fn push_many_unchecked(&mut self, first: &[T], last: &[T])
        requires
            old(self).well_formed(),
            old(self)@.len() + first@.len() + last@.len() <= CAPACITY,
        ensures
            final(self).well_formed(),
            final(self)@ == old(self)@ + first@ + last@,
    {
        self.inner.producer_push_many_unchecked(first, last);
    }

    /// Pushes the values of a slice to the queue, all of them or, if the
    /// queue has no room for all, none.
    pub fn maybe_push_many(&mut self, slice: &[T]) -> (res: Result<(), ()>)
        requires
            old(self).well_formed(),
        ensures
            final(self).well_formed(),
            old(self)@.len() + slice@.len() > CAPACITY ==> res is Err && final(self)@ == old(
                self,
            )@,
            old(self)@.len() + slice@.len() <= CAPACITY ==> res is Ok && final(self)@ == old(
                self,
            )@ + slice@,
    {
        self.inner.producer_maybe_push_many(slice)
    }

    /// Pushes the values of a slice to the queue. If the queue has no room
    /// for all of them, its older values, up to half its capacity, go to
    /// the receiver instead, and the whole slice behind them.
    pub fn push_many<SBR: SyncBatchReceiver<T>>(
        &mut self,
        slice: &[T],
        sync_batch_receiver: &mut SBR,
    )
        requires
            old(self).well_formed(),
        ensures
            final(self).well_formed(),
            old(self)@.len() + slice@.len() <= CAPACITY ==> {
                &&& final(self)@ == old(self)@ + slice@
                &&& final(sync_batch_receiver).contents() == old(sync_batch_receiver).contents()
            },
            old(self)@.len() + slice@.len() > CAPACITY ==> {
                let taken = spilled(old(self)@.len() as int, CAPACITY as int);
                &&& final(self)@ == old(self)@.subrange(taken, old(self)@.len() as int)
                &&& final(sync_batch_receiver).contents() == old(sync_batch_receiver).contents()
                    + old(self)@.subrange(0, taken) + slice@
            },
    {
        self.inner.producer_push_many(slice, sync_batch_receiver);
    }

    /// Returns a vector of `n` values to pop into.
    fn room_for(n: usize) -> (room: Vec<T>)
        ensures
            room@.len() == n,
    {
        let mut room: Vec<T> = Vec::new();
        while room.len() < n
            invariant
                room@.len() <= n,
            decreases n - room@.len(),
        {
            room.push(T::default());
        }
        room
    }

    /// Performs an operation on the queue, with a consumer of its own
    /// where the operation is that of a consumer.
    /// Returns the values that the operation hands to its caller.
    ///
    /// What the queue holds afterwards, what the receiver gets and what is
    /// returned are what the effect of the operation says.
    pub fn apply<SBR: SyncBatchReceiver<T>>(
        &mut self,
        op: &Operation<T>,
        sync_batch_receiver: &mut SBR,
    ) -> (handed: Vec<T>)
        requires
            old(self).well_formed(),
        ensures
            final(self).well_formed(),
            final(self)@ == left(
                old(self)@,
                bounded_effect(old(self)@.len() as int, *op, CAPACITY as int),
            ),
            final(sync_batch_receiver).contents() == old(sync_batch_receiver).contents() + sunk(
                old(self)@,
                bounded_effect(old(self)@.len() as int, *op, CAPACITY as int),
            ),
            handed@ == delivered(
                old(self)@,
                bounded_effect(old(self)@.len() as int, *op, CAPACITY as int),
            ),
    {
        let ghost queue = self@;
        let ghost sink = sync_batch_receiver.contents();
        let ghost effect = bounded_effect(queue.len() as int, *op, CAPACITY as int);
        let len = self.len();
        let mut handed: Vec<T> = Vec::new();
        match op {
            Operation::Push(value) => {
                self.push(*value, sync_batch_receiver);
            },
            Operation::PushMany(values) => {
                self.push_many(values.as_slice(), sync_batch_receiver);
            },
            Operation::MaybePush(value) => {
                let _ = self.maybe_push(*value);
            },
            Operation::MaybePushMany(values) => {
                let _ = self.maybe_push_many(values.as_slice());
            },
            Operation::Pop => {
                if let Some(value) = self.pop() {
                    handed.push(value);
                }
            },
            Operation::PopMany(n) => {
                handed = Self::room_for(if *n < len { *n } else { len });
                let _ = self.pop_many(handed.as_mut_slice());
            },
            Operation::ConsumerPopMany(n) => {
                let mut consumer: SPMCConsumer<T, CAPACITY> = SPMCConsumer {
                    always_steal: false,
                    _values: PhantomData,
                };
                handed = Self::room_for(if *n < len { *n } else { len });
                let _ = consumer.pop_many(self, handed.as_mut_slice());
            },
            Operation::Steal(always_steal) => {
                let mut consumer: SPMCConsumer<T, CAPACITY> = SPMCConsumer {
                    always_steal: *always_steal,
                    _values: PhantomData,
                };
                let mut thief: SPMCProducer<T, CAPACITY> = SPMCProducer {
                    inner: SPMCBoundedQueue::new(),
                };
                let n = consumer.steal_into(self, &mut thief);
                handed = Self::room_for(n);
                let _ = thief.pop_many(handed.as_mut_slice());
            },
        }
        proof {
            assert(self@ =~= left(queue, effect));
            assert(sync_batch_receiver.contents() =~= sink + sunk(queue, effect));
            assert(handed@ =~= delivered(queue, effect));
        }
        handed
    }
}

/// A consumer of bounded queues: it takes values from the head of the queue
/// of a producer, for itself or into the queue of another producer.
pub struct SPMCConsumer<T, const CAPACITY: usize> {
    always_steal: bool,
    _values: PhantomData<T>,
}

impl<T, const CAPACITY: usize> SPMCConsumer<T, CAPACITY> {
    /// Whether the consumer steals even where it would take under four
    /// values.
    pub closed spec fn always_steal(&self) -> bool {
        self.always_steal
    }
}

impl<T: Copy + Default, const CAPACITY: usize> SPMCConsumer<T, CAPACITY> {
    /// Sets whether the consumer steals even where it would take under four
    /// values.
    pub fn set_always_steal(&mut self, always_steal: bool)
        ensures
            final(self).always_steal() == always_steal,
    {
        self.always_steal = always_steal;
    }

    /// Returns another consumer with the same setting.
    pub fn clone(&self) -> (other: Self)
        ensures
            other.always_steal() == self.always_steal(),
    {
        Self { always_steal: self.always_steal, _values: PhantomData }
    }

    /// Returns the capacity of the queues that the consumer takes from.
    pub fn capacity(&self) -> (capacity: usize)
        ensures
            capacity == CAPACITY,
    {
        CAPACITY
    }

    /// Returns the number of values in the queue of `producer`.
    pub fn len(&self, producer: &SPMCProducer<T, CAPACITY>) -> (len: usize)
        requires
            producer.well_formed(),
        ensures
            len == producer@.len(),
            len <= CAPACITY,
    {
        producer.inner.consumer_len()
    }

    /// Pops the oldest values from the queue of `producer` into the front
    /// of `dst`, as many as the queue holds and `dst` has room for.
    /// Returns the number of values popped.
    pub fn pop_many(&mut self, producer: &mut SPMCProducer<T, CAPACITY>, dst: &mut [T]) -> (n:
        usize)
        requires
            old(producer).well_formed(),
        ensures
            final(producer).well_formed(),
            final(self).always_steal() == old(self).always_steal(),
            n == old(producer)@.len() || n == old(dst)@.len(),
            n <= old(producer)@.len(),
            n <= old(dst)@.len(),
            final(dst)@ == old(producer)@.subrange(0, n as int) + old(dst)@.subrange(
                n as int,
                old(dst)@.len() as int,
            ),
            final(producer)@ == old(producer)@.subrange(n as int, old(producer)@.len() as int),
    {
        producer.inner.consumer_pop_many(dst)
    }

    /// Steals the older half of the values in the queue of `src` into the
    /// queue of `dst`.
    /// Returns the number of values stolen.
    ///
    /// Nothing is stolen where that half is empty, or is under four values
    /// and the consumer does not always steal. The queue of `dst` must be
    /// empty.
    pub fn steal_into(
        &mut self,
        src: &mut SPMCProducer<T, CAPACITY>,
        dst: &mut SPMCProducer<T, CAPACITY>,
    ) -> (n: usize)
        requires
            old(src).well_formed(),
            old(dst).well_formed(),
            old(dst)@.len() == 0,
        ensures
            final(src).well_formed(),
            final(dst).well_formed(),
            final(self).always_steal() == old(self).always_steal(),
            n == steal_count(old(src)@.len() as int, old(self).always_steal()),
            final(src)@ == old(src)@.subrange(n as int, old(src)@.len() as int),
            final(dst)@ == old(src)@.subrange(0, n as int),
    {
        src.inner.steal_into(&mut dst.inner, self.always_steal)
    }
}

/// Creates a new single-producer, multi-consumer queue of the capacity
/// `CAPACITY`, which must divide the word size: any power of two does.
/// Returns the producer, which owns the queue, and a consumer.
pub fn new_bounded<T: Copy + Default, const CAPACITY: usize>() -> (handles: (
    SPMCProducer<T, CAPACITY>,
    SPMCConsumer<T, CAPACITY>,
))
    requires
        aligned(CAPACITY as int, word_modulus()),
    ensures
        handles.0.well_formed(),
        handles.0@ == Seq::<T>::empty(),
        !handles.1.always_steal(),
{
    (
        SPMCProducer { inner: SPMCBoundedQueue::new() },
        SPMCConsumer { always_steal: false, _values: PhantomData },
    )
}

} // verus!
