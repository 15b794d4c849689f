//! Single-producer, multi-consumer queues.
use vstd::prelude::*;

pub mod capacity;
pub mod const_bounded;
pub mod ledger;
pub mod unbounded;

verus! {

/// How many of its `len` values a queue of capacity `cap` hands to the
/// receiver when a push does not fit: half the capacity, or all it holds
/// where that is less.
pub open spec fn spilled(len: int, cap: int) -> int {
    if len < cap / 2 {
        len
    } else {
        cap / 2
    }
}

/// How many values a stealer takes from a queue of `len` values: half of
/// them, but none where that half is empty, or is under four values and
/// `always_steal` is off.
pub open spec fn steal_count(len: int, always_steal: bool) -> int {
    if len / 2 == 0 || (!always_steal && len / 2 < 4) {
        0
    } else {
        len / 2
    }
}

} // verus!
