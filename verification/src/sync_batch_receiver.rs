//! The receiver to which a bounded queue hands the values it cannot keep.
use vstd::prelude::*;

verus! {

/// A first-in, first-out receiver of batches of values.
///
/// A batch arrives as two slices and a trailing value or slice, because a
/// ring holds a run of values in at most two contiguous parts. The receiver
/// takes the values in the order given: `first`, then `last`, then the
/// trailing part.
pub trait SyncBatchReceiver<T> {
    /// The values that the receiver has taken and still holds, oldest first.
    spec fn contents(&self) -> Seq<T>;

    /// Takes the values of `first`, then those of `last`, then `value`.
    fn push_many_and_one(&mut self, first: &[T], last: &[T], value: T)
        ensures
            final(self).contents() == old(self).contents() + first@ + last@ + seq![value],
    ;

    /// Takes the values of `first`, then those of `last`, then those of
    /// `slice`.
    fn push_many_and_slice(&mut self, first: &[T], last: &[T], slice: &[T])
        ensures
            final(self).contents() == old(self).contents() + first@ + last@ + slice@,
    ;
}

} // verus!
