//! An account of where the values pushed to a queue have gone.
//!
//! Every operation on a queue has an effect of one shape: some of the
//! oldest values leave the head, for the receiver or for the caller, and
//! some new values enter at the tail or bypass the queue on their way to
//! the receiver. The ledger keeps the account over a history of effects,
//! and the laws at the end of this file hold of every history.
use crate::spmc::capacity::max_capacity;
use crate::spmc::{spilled, steal_count};
use vstd::prelude::*;
use vstd::seq_lib::lemma_multiset_commutative;

verus! {

/// An operation on a queue, as a value.
pub enum Operation<T> {
    /// The producer pushes a value, for which room is made if there is
    /// none.
    Push(T),
    /// The producer pushes a batch, for which room is made if there is
    /// none.
    PushMany(Vec<T>),
    /// The producer pushes a value if there is room for it.
    MaybePush(T),
    /// The producer pushes a batch if there is room for all of it.
    MaybePushMany(Vec<T>),
    /// The producer pops a value.
    Pop,
    /// The producer pops a batch of at most so many values.
    PopMany(usize),
    /// A consumer pops a batch of at most so many values.
    ConsumerPopMany(usize),
    /// A consumer steals into an empty queue; with `true`, it steals even
    /// where it would take under four values.
    Steal(bool),
}

/// What an operation does to a queue.
pub struct Effect<T> {
    /// How many of the oldest values go to the receiver.
    pub spill: int,
    /// The values that go to the receiver without entering the queue.
    pub bypass: Seq<T>,
    /// How many of the oldest values, behind those spilled, go to the
    /// caller.
    pub take: int,
    /// Whether the caller is a consumer.
    pub by_consumer: bool,
    /// The values that enter the queue.
    pub enter: Seq<T>,
}

/// Where the values pushed so far are.
pub struct Ledger<T> {
    /// The values that push operations accepted, in the order of the
    /// pushes.
    pub pushed: Seq<T>,
    /// The values that entered the queue, in the order in which they did.
    pub entered: Seq<T>,
    /// The values that left the head of the queue, in the order in which
    /// they did.
    pub departed: Seq<T>,
    /// The values in the queue, oldest first.
    pub remaining: Seq<T>,
    /// The values that the producer popped.
    pub popped: Seq<T>,
    /// The values that consumers popped or stole.
    pub stolen: Seq<T>,
    /// The values that went to the receiver.
    pub in_sink: Seq<T>,
}

/// The smaller of two counts.
pub open spec fn at_most(n: int, limit: int) -> int {
    if n < limit {
        n
    } else {
        limit
    }
}

/// The effect that leaves everything as it is.
pub open spec fn no_effect<T>() -> Effect<T> {
    Effect { spill: 0, bypass: Seq::empty(), take: 0, by_consumer: false, enter: Seq::empty() }
}

/// The effect of letting values enter the queue.
pub open spec fn entering<T>(values: Seq<T>) -> Effect<T> {
    Effect { spill: 0, bypass: Seq::empty(), take: 0, by_consumer: false, enter: values }
}

/// The effect of handing the `spill` oldest values to the receiver, and
/// `values` behind them.
pub open spec fn spilling<T>(spill: int, values: Seq<T>) -> Effect<T> {
    Effect { spill, bypass: values, take: 0, by_consumer: false, enter: Seq::empty() }
}

/// The effect of handing the `take` oldest values to the caller.
pub open spec fn taking<T>(take: int, by_consumer: bool) -> Effect<T> {
    Effect { spill: 0, bypass: Seq::empty(), take, by_consumer, enter: Seq::empty() }
}

/// The effect of an operation on a bounded queue of capacity `cap` that
/// holds `len` values.
pub open spec fn bounded_effect<T>(len: int, op: Operation<T>, cap: int) -> Effect<T> {
    match op {
        Operation::Push(value) => if len < cap {
            entering(seq![value])
        } else {
            spilling(cap / 2, seq![value])
        },
        Operation::PushMany(values) => if len + values@.len() <= cap {
            entering(values@)
        } else {
            spilling(spilled(len, cap), values@)
        },
        Operation::MaybePush(value) => if len < cap {
            entering(seq![value])
        } else {
            no_effect()
        },
        Operation::MaybePushMany(values) => if len + values@.len() <= cap {
            entering(values@)
        } else {
            no_effect()
        },
        Operation::Pop => taking(at_most(1, len), false),
        Operation::PopMany(n) => taking(at_most(n as int, len), false),
        Operation::ConsumerPopMany(n) => taking(at_most(n as int, len), true),
        Operation::Steal(always_steal) => taking(steal_count(len, always_steal), true),
    }
}

/// The effect of an operation on an unbounded queue that holds `len`
/// values, where a consumer steals into a queue of capacity `room`.
pub open spec fn unbounded_effect<T>(len: int, op: Operation<T>, room: int) -> Effect<T> {
    match op {
        Operation::Push(value) => entering(seq![value]),
        Operation::PushMany(values) => entering(values@),
        Operation::MaybePush(value) => entering(seq![value]),
        Operation::MaybePushMany(values) => entering(values@),
        Operation::Pop => taking(at_most(1, len), false),
        Operation::PopMany(n) => taking(at_most(n as int, len), false),
        Operation::ConsumerPopMany(n) => taking(at_most(n as int, len), true),
        Operation::Steal(always_steal) => taking(
            at_most(steal_count(len, always_steal), room),
            true,
        ),
    }
}

/// An unbounded queue that holds `len` values can grow to take what the
/// operation pushes.
pub open spec fn can_grow_for<T>(len: int, op: Operation<T>) -> bool {
    match op {
        Operation::Push(_) => len + 1 < max_capacity(),
        Operation::PushMany(values) => len + values@.len() < max_capacity(),
        Operation::MaybePush(_) => len + 1 < max_capacity(),
        Operation::MaybePushMany(values) => len + values@.len() < max_capacity(),
        _ => true,
    }
}

/// The queue holds the values that the effect takes from it.
pub open spec fn fits<T>(queue: Seq<T>, effect: Effect<T>) -> bool {
    &&& 0 <= effect.spill
    &&& 0 <= effect.take
    &&& effect.spill + effect.take <= queue.len()
}

/// The values that the effect hands to the receiver.
pub open spec fn sunk<T>(queue: Seq<T>, effect: Effect<T>) -> Seq<T> {
    queue.subrange(0, effect.spill) + effect.bypass
}

/// The values that the effect hands to the caller.
pub open spec fn delivered<T>(queue: Seq<T>, effect: Effect<T>) -> Seq<T> {
    queue.subrange(effect.spill, effect.spill + effect.take)
}

/// The values in the queue after the effect.
pub open spec fn left<T>(queue: Seq<T>, effect: Effect<T>) -> Seq<T> {
    queue.subrange(effect.spill + effect.take, queue.len() as int) + effect.enter
}

/// The ledger before anything was pushed.
pub open spec fn opening<T>() -> Ledger<T> {
    Ledger {
        pushed: Seq::empty(),
        entered: Seq::empty(),
        departed: Seq::empty(),
        remaining: Seq::empty(),
        popped: Seq::empty(),
        stolen: Seq::empty(),
        in_sink: Seq::empty(),
    }
}

/// The ledger after an effect that fits.
pub open spec fn perform<T>(ledger: Ledger<T>, effect: Effect<T>) -> Ledger<T> {
    let queue = ledger.remaining;
    Ledger {
        pushed: ledger.pushed + effect.bypass + effect.enter,
        entered: ledger.entered + effect.enter,
        departed: ledger.departed + queue.subrange(0, effect.spill + effect.take),
        remaining: left(queue, effect),
        popped: if effect.by_consumer {
            ledger.popped
        } else {
            ledger.popped + delivered(queue, effect)
        },
        stolen: if effect.by_consumer {
            ledger.stolen + delivered(queue, effect)
        } else {
            ledger.stolen
        },
        in_sink: ledger.in_sink + sunk(queue, effect),
    }
}

/// The ledger after a history of operations on a bounded queue of capacity
/// `cap`.
pub open spec fn bounded_run<T>(ops: Seq<Operation<T>>, cap: int) -> Ledger<T>
    decreases ops.len(),
{
    if ops.len() == 0 {
        opening()
    } else {
        let before = bounded_run(ops.drop_last(), cap);
        perform(before, bounded_effect(before.remaining.len() as int, ops.last(), cap))
    }
}

/// The ledger after a history of operations on an unbounded queue, where
/// consumers steal into queues of capacity `room`.
pub open spec fn unbounded_run<T>(ops: Seq<Operation<T>>, room: int) -> Ledger<T>
    decreases ops.len(),
{
    if ops.len() == 0 {
        opening()
    } else {
        let before = unbounded_run(ops.drop_last(), room);
        perform(before, unbounded_effect(before.remaining.len() as int, ops.last(), room))
    }
}

/// All the values of which the ledger says where they are: those in the
/// queue, those popped, those stolen and those with the receiver.
pub open spec fn held<T>(ledger: Ledger<T>) -> Seq<T> {
    ledger.remaining + ledger.popped + ledger.stolen + ledger.in_sink
}

/// The values held are the values pushed, each as often as it was pushed.
pub open spec fn conserved<T>(ledger: Ledger<T>) -> bool {
    held(ledger).to_multiset() == ledger.pushed.to_multiset()
}

/// The values leave the queue in the order in which they entered it.
pub open spec fn in_order<T>(ledger: Ledger<T>) -> bool {
    ledger.departed + ledger.remaining == ledger.entered
}

/// How often `value` occurs in `values`.
pub open spec fn occurrences<T>(values: Seq<T>, value: T) -> nat {
    values.to_multiset().count(value)
}

/// A value occurs in a concatenation as often as in its two parts.
proof fn lemma_occurrences_add<T>(a: Seq<T>, b: Seq<T>, value: T)
    ensures
        occurrences(a + b, value) == occurrences(a, value) + occurrences(b, value),
{
    lemma_multiset_commutative(a, b);
}

/// A value occurs in a sequence as often as in the parts before and after
/// any place in it.
proof fn lemma_occurrences_split<T>(s: Seq<T>, at: int, value: T)
    requires
        0 <= at <= s.len(),
    ensures
        occurrences(s, value) == occurrences(s.subrange(0, at), value) + occurrences(
            s.subrange(at, s.len() as int),
            value,
        ),
{
    assert(s =~= s.subrange(0, at) + s.subrange(at, s.len() as int));
    lemma_occurrences_add(s.subrange(0, at), s.subrange(at, s.len() as int), value);
}

/// An effect that fits keeps the ledger conserved and in order.
pub proof fn lemma_perform_keeps<T>(ledger: Ledger<T>, effect: Effect<T>)
    requires
        fits(ledger.remaining, effect),
    ensures
        conserved(ledger) ==> conserved(perform(ledger, effect)),
        in_order(ledger) ==> in_order(perform(ledger, effect)),
{
    let after = perform(ledger, effect);
    let queue = ledger.remaining;
    let gone = effect.spill + effect.take;
    if in_order(ledger) {
        assert(queue =~= queue.subrange(0, gone) + queue.subrange(gone, queue.len() as int));
        assert(after.departed + after.remaining =~= ledger.departed + queue + effect.enter);
        assert(after.entered =~= ledger.departed + queue + effect.enter);
    }
    if conserved(ledger) {
        assert forall|value: T|
            occurrences(held(after), value) == occurrences(after.pushed, value) by {
            let spilt = queue.subrange(0, effect.spill);
            let given = delivered(queue, effect);
            let rest = queue.subrange(gone, queue.len() as int);
            // The queue, part by part.
            lemma_occurrences_split(queue, gone, value);
            lemma_occurrences_split(queue.subrange(0, gone), effect.spill, value);
            assert(queue.subrange(0, gone).subrange(0, effect.spill) =~= spilt);
            assert(queue.subrange(0, gone).subrange(effect.spill, gone) =~= given);
            // The ledger before.
            lemma_occurrences_add(
                ledger.remaining + ledger.popped + ledger.stolen,
                ledger.in_sink,
                value,
            );
            lemma_occurrences_add(ledger.remaining + ledger.popped, ledger.stolen, value);
            lemma_occurrences_add(ledger.remaining, ledger.popped, value);
            // The ledger after.
            lemma_occurrences_add(
                after.remaining + after.popped + after.stolen,
                after.in_sink,
                value,
            );
            lemma_occurrences_add(after.remaining + after.popped, after.stolen, value);
            lemma_occurrences_add(after.remaining, after.popped, value);
            lemma_occurrences_add(rest, effect.enter, value);
            lemma_occurrences_add(ledger.popped, given, value);
            lemma_occurrences_add(ledger.stolen, given, value);
            lemma_occurrences_add(ledger.in_sink, spilt + effect.bypass, value);
            lemma_occurrences_add(spilt, effect.bypass, value);
            lemma_occurrences_add(ledger.pushed + effect.bypass, effect.enter, value);
            lemma_occurrences_add(ledger.pushed, effect.bypass, value);
        }
        assert forall|value: T|
            held(after).to_multiset().count(value) == after.pushed.to_multiset().count(
                value,
            ) by {
            assert(occurrences(held(after), value) == occurrences(after.pushed, value));
        }
        assert(held(after).to_multiset() =~= after.pushed.to_multiset());
    }
}

/// The effect of an operation on a bounded queue fits the queue, and
/// leaves no more values in it than it has room for.
pub proof fn lemma_bounded_effect_fits<T>(queue: Seq<T>, op: Operation<T>, cap: int)
    requires
        0 < cap,
        queue.len() <= cap,
    ensures
        fits(queue, bounded_effect(queue.len() as int, op, cap)),
        left(queue, bounded_effect(queue.len() as int, op, cap)).len() <= cap,
{
}

/// A push to a full bounded queue hands half the capacity, and what was
/// pushed, to the receiver.
pub proof fn lemma_full_queue_spills<T>(queue: Seq<T>, op: Operation<T>, cap: int)
    requires
        0 < cap,
        queue.len() == cap,
    ensures
        op matches Operation::Push(value) ==> sunk(
            queue,
            bounded_effect(cap, op, cap),
        ).len() == cap / 2 + 1,
        op matches Operation::PushMany(values) ==> values@.len() > 0 ==> sunk(
            queue,
            bounded_effect(cap, op, cap),
        ).len() == cap / 2 + values@.len(),
{
}

/// The effect of an operation on an unbounded queue fits the queue.
pub proof fn lemma_unbounded_effect_fits<T>(queue: Seq<T>, op: Operation<T>, room: int)
    requires
        0 <= room,
    ensures
        fits(queue, unbounded_effect(queue.len() as int, op, room)),
{
}

/// Conservation, order and the length bound, for a bounded queue: after
/// any history of operations, the values in the queue, those popped, those
/// stolen and those with the receiver are together the values pushed, each
/// as often as it was pushed; the values that left the queue, followed by
/// those still in it, are the values that entered it, in that order; and
/// the queue holds no more than its capacity.
pub proof fn lemma_bounded_history<T>(ops: Seq<Operation<T>>, cap: int)
    requires
        0 < cap,
    ensures
        conserved(bounded_run(ops, cap)),
        in_order(bounded_run(ops, cap)),
        bounded_run(ops, cap).remaining.len() <= cap,
    decreases ops.len(),
{
    if ops.len() == 0 {
        assert(held(opening::<T>()) =~= Seq::<T>::empty());
        assert(opening::<T>().departed + opening::<T>().remaining =~= Seq::<T>::empty());
    } else {
        lemma_bounded_history(ops.drop_last(), cap);
        let before = bounded_run(ops.drop_last(), cap);
        lemma_bounded_effect_fits(before.remaining, ops.last(), cap);
        lemma_perform_keeps(
            before,
            bounded_effect(before.remaining.len() as int, ops.last(), cap),
        );
    }
}

/// Conservation and order, for an unbounded queue: after any history of
/// operations, the values in the queue, those popped and those stolen are
/// together the values pushed, each as often as it was pushed; the values
/// that left the queue, followed by those still in it, are the values that
/// entered it, in that order; and the receiver got nothing.
pub proof fn lemma_unbounded_history<T>(ops: Seq<Operation<T>>, room: int)
    requires
        0 <= room,
    ensures
        conserved(unbounded_run(ops, room)),
        in_order(unbounded_run(ops, room)),
        unbounded_run(ops, room).in_sink == Seq::<T>::empty(),
        unbounded_run(ops, room).entered == unbounded_run(ops, room).pushed,
    decreases ops.len(),
{
    if ops.len() == 0 {
        assert(held(opening::<T>()) =~= Seq::<T>::empty());
        assert(opening::<T>().departed + opening::<T>().remaining =~= Seq::<T>::empty());
    } else {
        lemma_unbounded_history(ops.drop_last(), room);
        let before = unbounded_run(ops.drop_last(), room);
        let effect = unbounded_effect(before.remaining.len() as int, ops.last(), room);
        lemma_unbounded_effect_fits(before.remaining, ops.last(), room);
        lemma_perform_keeps(before, effect);
        let after = perform(before, effect);
        assert(after.in_sink =~= Seq::<T>::empty());
        assert(after.entered =~= after.pushed);
    }
}

/// No double delivery: in a conserved ledger in which no value was pushed
/// twice, no value is held twice, and a value is held exactly if it was
/// pushed.
pub proof fn lemma_no_double_delivery<T>(ledger: Ledger<T>)
    requires
        conserved(ledger),
        ledger.pushed.no_duplicates(),
    ensures
        held(ledger).no_duplicates(),
        forall|value: T| held(ledger).contains(value) <==> ledger.pushed.contains(value),
{
    ledger.pushed.lemma_multiset_has_no_duplicates();
    held(ledger).lemma_multiset_has_no_duplicates_conv();
    assert forall|value: T| held(ledger).contains(value) <==> ledger.pushed.contains(
        value,
    ) by {
        vstd::seq_lib::to_multiset_contains(held(ledger), value);
        vstd::seq_lib::to_multiset_contains(ledger.pushed, value);
    }
}

} // verus!
