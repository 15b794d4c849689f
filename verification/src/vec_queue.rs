//! A first-in, first-out queue over a vector, as the receiver of the values
//! that bounded queues cannot keep.
use crate::spmc::const_bounded::SPMCProducer;
use crate::sync_batch_receiver::SyncBatchReceiver;
use vstd::prelude::*;

verus! {

/// A first-in, first-out queue that grows as needed.
///
/// Its view is the sequence of the values it holds, oldest first.
pub struct VecQueue<T> {
    values: Vec<T>,
}

impl<T> VecQueue<T> {
    /// The values in the queue, oldest first.
    pub closed spec fn view(&self) -> Seq<T> {
        self.values@
    }
}

/// Appends the values of `slice` to `values`.
fn append_slice<T: Copy>(values: &mut Vec<T>, slice: &[T])
    ensures
        final(values)@ == old(values)@ + slice@,
{
    let n = slice.len();
    let mut i: usize = 0;
    while i < n
        invariant
            n == slice@.len(),
            i <= n,
            values@ == old(values)@ + slice@.subrange(0, i as int),
        decreases n - i,
    {
        values.push(slice[i]);
        i += 1;
        assert(values@ =~= old(values)@ + slice@.subrange(0, i as int));
    }
    assert(slice@.subrange(0, n as int) =~= slice@);
}

impl<T: Copy + Default> VecQueue<T> {
    /// Creates an empty queue.
    pub fn new() -> (queue: Self)
        ensures
            queue@ == Seq::<T>::empty(),
    {
        Self { values: Vec::new() }
    }

    /// Returns the number of values in the queue.
    pub fn len(&self) -> (len: usize)
        ensures
            len == self@.len(),
    {
        self.values.len()
    }

    /// Returns whether the queue holds no value.
    pub fn is_empty(&self) -> (empty: bool)
        ensures
            empty <==> self@.len() == 0,
    {
        self.values.len() == 0
    }

    /// Pops the oldest value from the queue.
    /// Returns `None` if the queue is empty.
    pub fn pop(&mut self) -> (popped: Option<T>)
        ensures
            old(self)@.len() == 0 ==> popped is None && final(self)@ == old(self)@,
            old(self)@.len() > 0 ==> popped == Some(old(self)@[0]) && final(self)@ == old(
                self,
            )@.subrange(1, old(self)@.len() as int),
    {
        if self.values.len() == 0 {
            return None;
        }
        let value = self.values.remove(0);
        assert(self.values@ =~= old(self)@.subrange(1, old(self)@.len() as int));
        Some(value)
    }

    /// Moves the oldest values of the queue to the queue of `producer`: at
    /// most `limit` of them, and no more than it has room for.
    /// Returns the number of values moved.
    pub fn move_batch_to_producer<const CAPACITY: usize>(
        &mut self,
        producer: &mut SPMCProducer<T, CAPACITY>,
        limit: usize,
    ) -> (n: usize)
        requires
            old(producer).well_formed(),
        ensures
            final(producer).well_formed(),
            n <= limit,
            n <= old(self)@.len(),
            n <= CAPACITY - old(producer)@.len(),
            n == limit || n == old(self)@.len() || n == CAPACITY - old(producer)@.len(),
            final(producer)@ == old(producer)@ + old(self)@.subrange(0, n as int),
            final(self)@ == old(self)@.subrange(n as int, old(self)@.len() as int),
    {
        let room = producer.capacity() - producer.len();
        let mut n = limit;
        if self.values.len() < n {
            n = self.values.len();
        }
        if room < n {
            n = room;
        }
        let rest = self.values.split_off(n);
        let batch = self.values.as_slice();
        producer.push_many_unchecked(batch, &batch[0..0]);
        proof {
            assert(old(producer)@ + batch@ + batch@.subrange(0, 0) =~= old(producer)@
                + batch@);
        }
        self.values = rest;
        n
    }
}

impl<T: Copy + Default> SyncBatchReceiver<T> for VecQueue<T> {
    open spec fn contents(&self) -> Seq<T> {
        self@
    }

    fn push_many_and_one(&mut self, first: &[T], last: &[T], value: T) {
        append_slice(&mut self.values, first);
        append_slice(&mut self.values, last);
        self.values.push(value);
    }

    fn push_many_and_slice(&mut self, first: &[T], last: &[T], slice: &[T]) {
        append_slice(&mut self.values, first);
        append_slice(&mut self.values, last);
        append_slice(&mut self.values, slice);
    }
}

} // verus!
