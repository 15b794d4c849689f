//! The arithmetic of a ring buffer addressed by two wrapping counters.
//!
//! A ring of `cap` slots is addressed by counters that only ever grow and
//! wrap at a `modulus`. The slot of a counter is the counter modulo `cap`,
//! and the live part of the ring is the `window` of slots that starts at the
//! slot of the head counter.
use vstd::arithmetic::div_mod::*;
use vstd::prelude::*;

verus! {

/// `cap` slots can be addressed consistently by a counter that wraps at
/// `modulus`: this is the case exactly when `cap` divides `modulus`.
pub open spec fn aligned(cap: int, modulus: int) -> bool {
    &&& 0 < cap <= modulus
    &&& modulus % cap == 0
}

/// How far `tail` is ahead of `head`, for counters that wrap at `modulus`.
pub open spec fn distance(head: int, tail: int, modulus: int) -> int {
    (tail - head) % modulus
}

/// The counter reached from `counter` after `n` steps.
pub open spec fn advance(counter: int, n: int, modulus: int) -> int {
    (counter + n) % modulus
}

/// The slot that a counter addresses in a ring of `cap` slots.
pub open spec fn slot(counter: int, cap: int) -> int {
    counter % cap
}

/// The `len` values stored from the slot of `start` onwards, in ring order.
pub open spec fn window<T>(buffer: Seq<T>, start: int, len: int) -> Seq<T> {
    Seq::new(len as nat, |i: int| buffer[slot(start + i, buffer.len() as int)])
}

/// The distance between two counters is a count below the modulus.
pub proof fn lemma_distance_bounds(head: int, tail: int, modulus: int)
    requires
        0 < modulus,
    ensures
        0 <= distance(head, tail, modulus) < modulus,
{
    lemma_mod_bound(tail - head, modulus);
}

/// For counters below the modulus, the distance is the difference, taken
/// up by one modulus where the tail has wrapped and the head has not.
pub proof fn lemma_distance_of_counters(head: int, tail: int, modulus: int)
    requires
        0 <= head < modulus,
        0 <= tail < modulus,
    ensures
        distance(head, tail, modulus) == if tail - head < 0 {
            tail - head + modulus
        } else {
            tail - head
        },
{
    if tail - head < 0 {
        lemma_mod_add_multiples_vanish(tail - head, modulus);
        lemma_small_mod((tail - head + modulus) as nat, modulus as nat);
        assert(modulus + (tail - head) == tail - head + modulus);
    } else {
        lemma_small_mod((tail - head) as nat, modulus as nat);
    }
}

/// Two counters at the same distance from a head are one counter.
pub proof fn lemma_same_distance(head: int, a: int, b: int, modulus: int)
    requires
        0 <= head < modulus,
        0 <= a < modulus,
        0 <= b < modulus,
        distance(head, a, modulus) == distance(head, b, modulus),
    ensures
        a == b,
{
    lemma_distance_of_counters(head, a, modulus);
    lemma_distance_of_counters(head, b, modulus);
}

/// For a counter below the modulus and a step of at most one modulus,
/// advancing wraps around at most once.
pub proof fn lemma_advance_of_counter(counter: int, n: int, modulus: int)
    requires
        0 <= counter < modulus,
        0 <= n < modulus,
    ensures
        advance(counter, n, modulus) == if counter + n >= modulus {
            counter + n - modulus
        } else {
            counter + n
        },
{
    if counter + n >= modulus {
        lemma_mod_sub_multiples_vanish(counter + n, modulus);
        lemma_small_mod((counter + n - modulus) as nat, modulus as nat);
        assert(-modulus + (counter + n) == counter + n - modulus);
    } else {
        lemma_small_mod((counter + n) as nat, modulus as nat);
    }
}

/// Wrapping a counter at `modulus` does not change its slot.
pub proof fn lemma_slot_of_wrapped(x: int, cap: int, modulus: int)
    requires
        aligned(cap, modulus),
    ensures
        (x % modulus) % cap == x % cap,
{
    let k = modulus / cap;
    lemma_fundamental_div_mod(modulus, cap);
    assert(modulus == cap * k);
    assert(k > 0) by (nonlinear_arith)
        requires
            modulus == cap * k,
            0 < cap <= modulus,
    ;
    lemma_mod_mod(x, cap, k);
}

/// The slot that lies `distance(head, tail)` steps after the head is the
/// slot of the tail.
pub proof fn lemma_tail_slot(head: int, tail: int, cap: int, modulus: int)
    requires
        aligned(cap, modulus),
    ensures
        slot(head + distance(head, tail, modulus), cap) == slot(tail, cap),
{
    let d = distance(head, tail, modulus);
    lemma_add_mod_noop_right(head, tail - head, modulus);
    assert(head + (tail - head) == tail);
    assert((head + d) % modulus == tail % modulus);
    lemma_slot_of_wrapped(head + d, cap, modulus);
    lemma_slot_of_wrapped(tail, cap, modulus);
}

/// Advancing the tail by `n` lengthens the distance by `n`, as long as the
/// result stays below the modulus.
pub proof fn lemma_advance_tail(head: int, tail: int, n: int, modulus: int)
    requires
        0 < modulus,
        0 <= n,
        distance(head, tail, modulus) + n < modulus,
    ensures
        distance(head, advance(tail, n, modulus), modulus) == distance(head, tail, modulus) + n,
{
    let d = distance(head, tail, modulus);
    lemma_distance_bounds(head, tail, modulus);
    // (tail + n) % M - head  ==  (tail - head) % M + n   (mod M)
    lemma_sub_mod_noop(tail + n, head, modulus);
    lemma_sub_mod_noop(advance(tail, n, modulus), head, modulus);
    lemma_mod_twice(tail + n, modulus);
    assert((advance(tail, n, modulus) - head) % modulus == (tail + n - head) % modulus);
    lemma_add_mod_noop_right(n, tail - head, modulus);
    assert(n + (tail - head) == tail + n - head);
    assert(n + d == d + n);
    assert((d + n) % modulus == (tail + n - head) % modulus);
    lemma_small_mod((d + n) as nat, modulus as nat);
}

/// Advancing the head by `n` shortens the distance by `n`, and the new head
/// addresses the slot `n` steps after the old one.
pub proof fn lemma_advance_head(head: int, tail: int, n: int, cap: int, modulus: int)
    requires
        aligned(cap, modulus),
        0 <= n <= distance(head, tail, modulus),
    ensures
        distance(advance(head, n, modulus), tail, modulus) == distance(head, tail, modulus) - n,
        slot(advance(head, n, modulus), cap) == slot(head + n, cap),
{
    let d = distance(head, tail, modulus);
    lemma_distance_bounds(head, tail, modulus);
    lemma_sub_mod_noop_right(tail, head + n, modulus);
    assert((tail - advance(head, n, modulus)) % modulus == (tail - (head + n)) % modulus);
    lemma_sub_mod_noop(tail - head, n, modulus);
    lemma_small_mod(n as nat, modulus as nat);
    assert(tail - head - n == tail - (head + n));
    assert((d - n) % modulus == (tail - (head + n)) % modulus);
    lemma_small_mod((d - n) as nat, modulus as nat);
    lemma_slot_of_wrapped(head + n, cap, modulus);
}

/// Counters with the same slot see the same window.
pub proof fn lemma_window_same_slot<T>(buffer: Seq<T>, a: int, b: int, len: int)
    requires
        buffer.len() > 0,
        a % (buffer.len() as int) == b % (buffer.len() as int),
    ensures
        window(buffer, a, len) == window(buffer, b, len),
{
    let cap = buffer.len() as int;
    assert forall|i: int| slot(a + i, cap) == #[trigger] slot(b + i, cap) by {
        lemma_add_mod_noop(a, i, cap);
        lemma_add_mod_noop(b, i, cap);
    }
    assert(window(buffer, a, len) =~= window(buffer, b, len));
}

/// Splitting a window after its first `n` values.
pub proof fn lemma_window_split<T>(buffer: Seq<T>, start: int, n: int, len: int)
    requires
        0 <= n <= len,
    ensures
        window(buffer, start, len) == window(buffer, start, n) + window(
            buffer,
            start + n,
            len - n,
        ),
        window(buffer, start, len).subrange(0, n) == window(buffer, start, n),
        window(buffer, start, len).subrange(n, len) == window(buffer, start + n, len - n),
{
    let whole = window(buffer, start, len);
    let front = window(buffer, start, n);
    let back = window(buffer, start + n, len - n);
    assert forall|i: int| n <= i < len implies whole[i] == back[i - n] by {
        assert(start + n + (i - n) == start + i);
    }
    assert(whole =~= front + back);
    assert(whole.subrange(0, n) =~= front);
    assert(whole.subrange(n, len) =~= back);
}

/// A window that does not reach the end of the buffer is a plain subrange.
pub proof fn lemma_window_is_subrange<T>(buffer: Seq<T>, start: int, len: int)
    requires
        0 <= start,
        0 <= len,
        start + len <= buffer.len(),
    ensures
        window(buffer, start, len) == buffer.subrange(start, start + len),
{
    let cap = buffer.len() as int;
    assert forall|i: int| 0 <= i < len implies #[trigger] slot(start + i, cap) == start + i by {
        lemma_small_mod((start + i) as nat, cap as nat);
    }
    assert(window(buffer, start, len) =~= buffer.subrange(start, start + len));
}

/// A window that wraps is the tail of the buffer followed by its beginning.
pub proof fn lemma_window_two_parts<T>(buffer: Seq<T>, start: int, len: int)
    requires
        0 <= start < buffer.len(),
        buffer.len() - start <= len <= buffer.len(),
    ensures
        window(buffer, start, len) == buffer.subrange(start, buffer.len() as int)
            + buffer.subrange(0, len - (buffer.len() - start)),
{
    let cap = buffer.len() as int;
    let right = cap - start;
    lemma_window_split(buffer, start, right, len);
    lemma_window_is_subrange(buffer, start, right);
    lemma_mod_self_0(cap);
    lemma_window_same_slot(buffer, start + right, 0, len - right);
    lemma_window_is_subrange(buffer, 0, len - right);
}

/// The buffer after `values` have been written into consecutive slots,
/// the first of them into the slot of `start`.
pub open spec fn ring_write<T>(buffer: Seq<T>, start: int, values: Seq<T>) -> Seq<T> {
    Seq::new(
        buffer.len(),
        |k: int|
            if slot(k - start, buffer.len() as int) < values.len() {
                values[slot(k - start, buffer.len() as int)]
            } else {
                buffer[k]
            },
    )
}

/// How far slot `i` steps after `a` lies behind or ahead of `b`.
proof fn lemma_slot_difference(a: int, i: int, b: int, cap: int)
    requires
        0 < cap,
    ensures
        0 <= slot(a + i, cap) < cap,
        slot(slot(a + i, cap) - b, cap) == slot(a + i - b, cap),
{
    lemma_mod_bound(a + i, cap);
    lemma_sub_mod_noop(a + i, b, cap);
    lemma_sub_mod_noop_right((a + i) % cap, b, cap);
}

/// Where a write starts depends only on the slot of its starting counter.
pub proof fn lemma_ring_write_same_slot<T>(buffer: Seq<T>, a: int, b: int, values: Seq<T>)
    requires
        buffer.len() > 0,
        slot(a, buffer.len() as int) == slot(b, buffer.len() as int),
    ensures
        ring_write(buffer, a, values) == ring_write(buffer, b, values),
{
    let cap = buffer.len() as int;
    assert forall|k: int| slot(k - a, cap) == #[trigger] slot(k - b, cap) by {
        lemma_sub_mod_noop_right(k, a, cap);
        lemma_sub_mod_noop_right(k, b, cap);
    }
    assert(ring_write(buffer, a, values) =~= ring_write(buffer, b, values));
}

/// Writing `values` into the free slots that follow a window appends them
/// to the window and changes nothing else in it.
pub proof fn lemma_ring_write_appends<T>(buffer: Seq<T>, start: int, len: int, values: Seq<T>)
    requires
        0 <= len,
        len + values.len() <= buffer.len(),
    ensures
        window(ring_write(buffer, start + len, values), start, len + values.len()) == window(
            buffer,
            start,
            len,
        ) + values,
{
    let cap = buffer.len() as int;
    let n = values.len() as int;
    let after = ring_write(buffer, start + len, values);
    let whole = window(after, start, len + n);
    let expected = window(buffer, start, len) + values;
    if cap > 0 {
        assert forall|i: int| 0 <= i < len + n implies whole[i] == expected[i] by {
            lemma_slot_difference(start, i, start + len, cap);
            assert(start + i - (start + len) == i - len);
            if i < len {
                lemma_mod_add_multiples_vanish(i - len, cap);
                lemma_small_mod((i - len + cap) as nat, cap as nat);
                assert(cap + (i - len) == i - len + cap);
            } else {
                lemma_small_mod((i - len) as nat, cap as nat);
            }
        }
    }
    assert(whole =~= expected);
}

/// A buffer that was written in one run, or in two runs where the write
/// wraps around the end of the buffer, is the buffer after a ring write.
pub proof fn lemma_runs_are_ring_write<T>(before: Seq<T>, after: Seq<T>, start: int, values: Seq<T>)
    requires
        before.len() > 0,
        values.len() <= before.len(),
        ({
            let cap = before.len() as int;
            let idx = slot(start, cap);
            let n = values.len() as int;
            if idx + n <= cap {
                after == before.subrange(0, idx) + values + before.subrange(idx + n, cap)
            } else {
                after == values.subrange(cap - idx, n) + before.subrange(idx + n - cap, idx)
                    + values.subrange(0, cap - idx)
            }
        }),
    ensures
        after == ring_write(before, start, values),
{
    let cap = before.len() as int;
    let idx = slot(start, cap);
    let n = values.len() as int;
    lemma_mod_bound(start, cap);
    assert forall|k: int| 0 <= k < cap implies after[k] == ring_write(before, start, values)[k] by {
        lemma_sub_mod_noop_right(k, start, cap);
        if k >= idx {
            lemma_small_mod((k - idx) as nat, cap as nat);
        } else {
            lemma_mod_add_multiples_vanish(k - idx, cap);
            lemma_small_mod((k - idx + cap) as nat, cap as nat);
            assert(cap + (k - idx) == k - idx + cap);
        }
    }
    assert(after =~= ring_write(before, start, values));
}

/// After `values` have been written behind the tail of a queue with room
/// for them, the ring holds them after the values that were in the queue.
pub proof fn lemma_queue_written<T>(
    before: Seq<T>,
    head: int,
    tail: int,
    values: Seq<T>,
    modulus: int,
)
    requires
        aligned(before.len() as int, modulus),
        distance(head, tail, modulus) + values.len() <= before.len(),
        before.len() < modulus,
    ensures
        ring_write(before, tail, values).len() == before.len(),
        distance(head, advance(tail, values.len() as int, modulus), modulus) == distance(
            head,
            tail,
            modulus,
        ) + values.len(),
        window(
            ring_write(before, tail, values),
            head,
            distance(head, tail, modulus) + values.len(),
        ) == window(before, head, distance(head, tail, modulus)) + values,
{
    let len = distance(head, tail, modulus);
    lemma_distance_bounds(head, tail, modulus);
    lemma_advance_tail(head, tail, values.len() as int, modulus);
    lemma_tail_slot(head, tail, before.len() as int, modulus);
    lemma_ring_write_same_slot(before, tail, head + len, values);
    lemma_ring_write_appends(before, head, len, values);
}

/// After `n` values have been taken from the head of a queue, the ring
/// holds the values that were behind them; the values taken are those from
/// the slot of the head on.
pub proof fn lemma_queue_taken<T>(buffer: Seq<T>, head: int, tail: int, n: int, modulus: int)
    requires
        aligned(buffer.len() as int, modulus),
        0 <= n <= distance(head, tail, modulus),
    ensures
        distance(advance(head, n, modulus), tail, modulus) == distance(head, tail, modulus) - n,
        window(buffer, advance(head, n, modulus), distance(head, tail, modulus) - n) == window(
            buffer,
            head,
            distance(head, tail, modulus),
        ).subrange(n, distance(head, tail, modulus)),
        window(buffer, slot(head, buffer.len() as int), n) == window(
            buffer,
            head,
            distance(head, tail, modulus),
        ).subrange(0, n),
{
    let cap = buffer.len() as int;
    let len = distance(head, tail, modulus);
    lemma_advance_head(head, tail, n, cap, modulus);
    lemma_window_split(buffer, head, n, len);
    lemma_window_same_slot(buffer, head + n, advance(head, n, modulus), len - n);
    lemma_mod_twice(head, cap);
    lemma_window_same_slot(buffer, head, slot(head, cap), n);
}

/// Copies `src` over `dst[at..at + src.len()]`.
pub fn copy_run<T: Copy>(dst: &mut [T], at: usize, src: &[T])
    requires
        at + src@.len() <= old(dst)@.len(),
    ensures
        final(dst)@ == old(dst)@.subrange(0, at as int) + src@ + old(dst)@.subrange(
            at + src@.len(),
            old(dst)@.len() as int,
        ),
{
    let n = src.len();
    let total = dst.len();
    let ghost before = dst@;
    let mut i: usize = 0;
    while i < n
        invariant
            n == src@.len(),
            total == before.len(),
            at + n <= before.len(),
            i <= n,
            dst@.len() == before.len(),
            forall|k: int| 0 <= k < at || at + i <= k < before.len() ==> dst@[k] == before[k],
            forall|k: int| 0 <= k < i ==> dst@[at + k] == src@[k],
        decreases n - i,
    {
        dst[at + i] = src[i];
        i += 1;
    }
    assert(dst@ =~= before.subrange(0, at as int) + src@ + before.subrange(
        at + n,
        before.len() as int,
    ));
}

/// Writes `values` into the ring from slot `idx` on, in one run or, where
/// the write reaches the end of the buffer, in two.
pub fn write_ring<T: Copy>(buffer: &mut [T], idx: usize, values: &[T])
    requires
        idx < old(buffer)@.len(),
        values@.len() <= old(buffer)@.len(),
    ensures
        final(buffer)@ == ring_write(old(buffer)@, idx as int, values@),
{
    let cap = buffer.len();
    let n = values.len();
    let ghost before = buffer@;
    if n <= cap - idx {
        copy_run(buffer, idx, values);
    } else {
        let right = cap - idx;
        copy_run(buffer, idx, &values[0..right]);
        copy_run(buffer, 0, &values[right..n]);
        assert(buffer@ =~= values@.subrange(right as int, n as int) + before.subrange(
            idx + n - cap,
            idx as int,
        ) + values@.subrange(0, right as int));
    }
    proof {
        lemma_small_mod(idx as nat, cap as nat);
        lemma_runs_are_ring_write(before, buffer@, idx as int, values@);
    }
}

/// Copies the `n` values that the ring holds from slot `idx` on over
/// `dst[0..n]`, in one run or, where they wrap, in two.
pub fn read_ring<T: Copy>(buffer: &[T], idx: usize, n: usize, dst: &mut [T])
    requires
        idx < buffer@.len(),
        n <= buffer@.len(),
        n <= old(dst)@.len(),
    ensures
        final(dst)@ == window(buffer@, idx as int, n as int) + old(dst)@.subrange(
            n as int,
            old(dst)@.len() as int,
        ),
{
    let cap = buffer.len();
    let right = cap - idx;
    let ghost before = dst@;
    if n <= right {
        copy_run(dst, 0, &buffer[idx..idx + n]);
        proof {
            lemma_window_is_subrange(buffer@, idx as int, n as int);
        }
    } else {
        copy_run(dst, 0, &buffer[idx..cap]);
        copy_run(dst, right, &buffer[0..n - right]);
        proof {
            lemma_window_two_parts(buffer@, idx as int, n as int);
        }
    }
    assert(dst@ =~= window(buffer@, idx as int, n as int) + before.subrange(
        n as int,
        before.len() as int,
    ));
}

} // verus!
