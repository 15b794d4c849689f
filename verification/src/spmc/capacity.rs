//! The capacities of a ring that grows: powers of two, addressed by a mask.
use crate::ring::{aligned, slot};
use vstd::arithmetic::power2::{
    lemma2_to64, lemma_pow2_adds, lemma_pow2_pos, lemma_pow2_strictly_increases,
    lemma_pow2_unfold, pow2,
};
use vstd::bits::{lemma_u32_low_bits_mask_is_mod, low_bits_mask};
use vstd::prelude::*;

verus! {

/// The value at which the 32-bit counters of a growing queue wrap.
pub open spec fn counter_modulus() -> int {
    0x1_0000_0000
}

/// The largest capacity that a 32-bit mask can address.
pub open spec fn max_capacity() -> int {
    0x8000_0000
}

/// `capacity` is a power of two that a 32-bit mask can address.
pub open spec fn is_capacity(capacity: int) -> bool {
    exists|e: nat| e <= 31 && capacity == #[trigger] pow2(e)
}

/// The first of `capacity`, `2 * capacity`, `4 * capacity`, ... that is
/// greater than `needed`.
pub open spec fn grown_capacity(capacity: int, needed: int) -> int
    decreases
            (if capacity <= needed {
                needed - capacity + 1
            } else {
                0
            }),
{
    if capacity <= 0 || capacity > needed {
        capacity
    } else {
        grown_capacity(2 * capacity, needed)
    }
}

/// A capacity lies between one and `max_capacity()` and divides the
/// modulus of the counters.
pub proof fn lemma_capacity_aligned(capacity: int)
    requires
        is_capacity(capacity),
    ensures
        0 < capacity <= max_capacity(),
        aligned(capacity, counter_modulus()),
{
    let e = choose|e: nat| e <= 31 && capacity == #[trigger] pow2(e);
    let rest = (32 - e) as nat;
    lemma2_to64();
    lemma_pow2_pos(e);
    lemma_pow2_pos(rest);
    lemma_pow2_adds(e, rest);
    assert(pow2(e) * pow2(rest) == counter_modulus());
    vstd::arithmetic::div_mod::lemma_mod_multiples_basic(pow2(rest) as int, capacity);
    assert((pow2(rest) * capacity) % capacity == 0);
    assert(pow2(rest) * capacity == capacity * pow2(rest)) by (nonlinear_arith);
    assert(capacity <= max_capacity()) by {
        if e < 31 {
            lemma_pow2_strictly_increases(e, 31);
        }
    }
}

/// Twice a capacity is a capacity, where it is not above `max_capacity()`.
pub proof fn lemma_capacity_doubles(capacity: int)
    requires
        is_capacity(capacity),
        2 * capacity <= max_capacity(),
    ensures
        is_capacity(2 * capacity),
{
    let e = choose|e: nat| e <= 31 && capacity == #[trigger] pow2(e);
    lemma2_to64();
    lemma_pow2_unfold(e + 1);
    assert(2 * capacity == pow2(e + 1));
    assert(e + 1 <= 31) by {
        if e == 31 {
            assert(capacity == 0x8000_0000);
        }
    }
}

/// What growing to hold more than `needed` values gives: a capacity that is
/// greater than `needed`, and the first such in the doubling sequence.
pub proof fn lemma_grown_capacity(capacity: int, needed: int)
    requires
        is_capacity(capacity),
        needed < max_capacity(),
    ensures
        is_capacity(grown_capacity(capacity, needed)),
        grown_capacity(capacity, needed) > needed,
        grown_capacity(capacity, needed) >= capacity,
        grown_capacity(capacity, needed) == capacity || grown_capacity(capacity, needed) <= 2
            * needed,
    decreases
            (if capacity <= needed {
                needed - capacity + 1
            } else {
                0
            }),
{
    lemma_capacity_aligned(capacity);
    if capacity <= needed {
        lemma_capacity_doubles_below(capacity, needed);
        lemma_grown_capacity(2 * capacity, needed);
    }
}

/// A capacity above another is at least twice the other.
pub proof fn lemma_larger_capacity(smaller: int, larger: int)
    requires
        is_capacity(smaller),
        is_capacity(larger),
        smaller < larger,
    ensures
        2 * smaller <= larger,
{
    let a = choose|e: nat| e <= 31 && smaller == #[trigger] pow2(e);
    let b = choose|e: nat| e <= 31 && larger == #[trigger] pow2(e);
    if b <= a {
        if b < a {
            lemma_pow2_strictly_increases(b, a);
        }
    } else {
        lemma_pow2_unfold(a + 1);
        if a + 1 < b {
            lemma_pow2_strictly_increases(a + 1, b);
        }
    }
}

/// A queue whose capacity has at least doubled each time it grew has
/// grown fewer than 32 times.
pub proof fn lemma_version_id_bound(id: nat, capacity: int)
    requires
        is_capacity(capacity),
        pow2(id) <= capacity,
    ensures
        id <= 31,
{
    lemma_capacity_aligned(capacity);
    lemma2_to64();
    if id > 31 {
        lemma_pow2_strictly_increases(31, id);
    }
}

/// Growth: a queue of capacity `capacity` that is to hold `needed` values,
/// which is more than it has room for, grows to a capacity that is a power
/// of two, at least twice what it was, and greater than `needed`.
pub proof fn lemma_growth(capacity: int, needed: int)
    requires
        is_capacity(capacity),
        capacity < needed < max_capacity(),
    ensures
        is_capacity(grown_capacity(2 * capacity, needed)),
        grown_capacity(2 * capacity, needed) >= 2 * capacity,
        grown_capacity(2 * capacity, needed) >= needed + 1,
{
    lemma_capacity_doubles_below(capacity, needed);
    lemma_grown_capacity(2 * capacity, needed);
}

/// A capacity that is not above a count below `max_capacity()` can double.
proof fn lemma_capacity_doubles_below(capacity: int, needed: int)
    requires
        is_capacity(capacity),
        capacity <= needed < max_capacity(),
    ensures
        is_capacity(2 * capacity),
        2 * capacity <= max_capacity(),
{
    let e = choose|e: nat| e <= 31 && capacity == #[trigger] pow2(e);
    lemma2_to64();
    if e < 30 {
        lemma_pow2_strictly_increases(e, 30);
    }
    assert(e <= 30);
    assert(capacity <= 0x4000_0000);
    lemma_capacity_doubles(capacity);
}

/// Masking a counter with `capacity - 1` gives its slot.
pub proof fn lemma_mask_is_slot(counter: u32, mask: u32)
    requires
        is_capacity(mask + 1),
    ensures
        counter & mask == slot(counter as int, mask + 1),
{
    let e = choose|e: nat| e <= 31 && mask + 1 == #[trigger] pow2(e);
    lemma_capacity_aligned(mask + 1);
    lemma_u32_low_bits_mask_is_mod(counter, e);
    assert(low_bits_mask(e) as u32 == mask);
    assert(pow2(e) as u32 == mask + 1);
}

/// Returns whether `capacity` is a power of two that a 32-bit mask can
/// address.
pub fn is_valid_capacity(capacity: usize) -> (valid: bool)
    ensures
        valid == is_capacity(capacity as int),
{
    let mut power: usize = 1;
    let mut e: u32 = 0;
    proof {
        lemma2_to64();
    }
    while e < 31
        invariant
            e <= 31,
            power == pow2(e as nat),
            forall|k: nat| k < e ==> capacity != #[trigger] pow2(k),
        decreases 31 - e,
    {
        if capacity == power {
            return true;
        }
        proof {
            lemma2_to64();
            lemma_pow2_unfold(e as nat + 1);
            lemma_pow2_strictly_increases(e as nat, 31);
        }
        power = power * 2;
        e = e + 1;
    }
    capacity == power
}

/// Returns the first of `2 * capacity`, `4 * capacity`, ... that is greater
/// than `needed`.
pub fn grow_capacity(capacity: usize, needed: usize) -> (new_capacity: usize)
    requires
        is_capacity(capacity as int),
        capacity <= needed < max_capacity(),
    ensures
        new_capacity == grown_capacity(2 * capacity, needed as int),
        is_capacity(new_capacity as int),
{
    proof {
        lemma_capacity_doubles_below(capacity as int, needed as int);
    }
    let mut new_capacity = capacity * 2;
    while new_capacity <= needed
        invariant
            is_capacity(new_capacity as int),
            needed < max_capacity(),
            grown_capacity(new_capacity as int, needed as int) == grown_capacity(
                2 * capacity,
                needed as int,
            ),
        decreases
                (if new_capacity <= needed {
                    needed - new_capacity + 1
                } else {
                    0
                }),
    {
        proof {
            lemma_capacity_aligned(new_capacity as int);
            lemma_capacity_doubles_below(new_capacity as int, needed as int);
        }
        new_capacity *= 2;
    }
    new_capacity
}

} // verus!
