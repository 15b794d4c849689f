use parcoll::spmc::const_bounded::new_bounded;
use parcoll::spmc::ledger::Operation;
use parcoll::spmc::unbounded::new_unbounded;
use parcoll::vec_queue::VecQueue;
use std::collections::VecDeque;

const CAPACITY: usize = 16;

/// The next number of a fixed pseudo-random sequence.
fn next(seed: &mut u64) -> u64 {
    *seed = seed
        .wrapping_mul(6364136223846793005)
        .wrapping_add(1442695040888963407);
    *seed >> 33
}

/// A batch of values that were not pushed before.
fn fresh(counter: &mut u64, n: u64) -> Vec<u64> {
    let batch: Vec<u64> = (*counter..*counter + n).collect();
    *counter += n;
    batch
}

/// The next operation of a fixed pseudo-random history.
fn next_operation(seed: &mut u64, counter: &mut u64) -> Operation<u64> {
    match next(seed) % 10 {
        0 | 1 => Operation::Push(fresh(counter, 1)[0]),
        2 => {
            let n = next(seed) % 12;
            Operation::PushMany(fresh(counter, n))
        }
        3 => Operation::MaybePush(fresh(counter, 1)[0]),
        4 => {
            let n = next(seed) % 12;
            Operation::MaybePushMany(fresh(counter, n))
        }
        5 => Operation::Pop,
        6 => Operation::PopMany((next(seed) % 6) as usize),
        7 => Operation::ConsumerPopMany((next(seed) % 6) as usize),
        8 => Operation::Steal(false),
        _ => Operation::Steal(true),
    }
}

fn sorted(mut values: Vec<u64>) -> Vec<u64> {
    values.sort();
    values
}

#[test]
fn bounded_histories_conserve_order_and_bound() {
    for start in 1..=20u64 {
        let mut seed = start;
        let mut counter = 0u64;
        let (mut producer, _) = new_bounded::<u64, CAPACITY>();
        let mut sink: VecQueue<u64> = VecQueue::new();

        // The account, kept by hand.
        let mut queue: VecDeque<u64> = VecDeque::new();
        let mut pushed: Vec<u64> = Vec::new();
        let mut entered: Vec<u64> = Vec::new();
        let mut departed: Vec<u64> = Vec::new();
        let mut handed_out: Vec<u64> = Vec::new();
        let mut in_sink: Vec<u64> = Vec::new();

        for _ in 0..3000 {
            let op = next_operation(&mut seed, &mut counter);
            let len = queue.len();
            let mut expected: Vec<u64> = Vec::new();
            match &op {
                Operation::Push(value) => {
                    pushed.push(*value);
                    if len == CAPACITY {
                        let spilled: Vec<u64> = queue.drain(..CAPACITY / 2).collect();
                        departed.extend(&spilled);
                        in_sink.extend(spilled);
                        in_sink.push(*value);
                    } else {
                        queue.push_back(*value);
                        entered.push(*value);
                    }
                }
                Operation::PushMany(values) => {
                    pushed.extend(values);
                    if len + values.len() > CAPACITY {
                        let spilled: Vec<u64> =
                            queue.drain(..len.min(CAPACITY / 2)).collect();
                        departed.extend(&spilled);
                        in_sink.extend(spilled);
                        in_sink.extend(values);
                    } else {
                        queue.extend(values);
                        entered.extend(values);
                    }
                }
                Operation::MaybePush(value) => {
                    if len < CAPACITY {
                        pushed.push(*value);
                        queue.push_back(*value);
                        entered.push(*value);
                    }
                }
                Operation::MaybePushMany(values) => {
                    if len + values.len() <= CAPACITY {
                        pushed.extend(values);
                        queue.extend(values);
                        entered.extend(values);
                    }
                }
                Operation::Pop => expected = queue.drain(..len.min(1)).collect(),
                Operation::PopMany(n) | Operation::ConsumerPopMany(n) => {
                    expected = queue.drain(..len.min(*n)).collect()
                }
                Operation::Steal(always_steal) => {
                    let half = len / 2;
                    if half > 0 && (*always_steal || half >= 4) {
                        expected = queue.drain(..half).collect();
                    }
                }
            }
            departed.extend(&expected);
            handed_out.extend(&expected);

            let handed = producer.apply(&op, &mut sink);

            assert_eq!(handed, expected);
            assert_eq!(producer.len(), queue.len());
            assert!(producer.len() <= CAPACITY);
            assert_eq!(sink.len(), in_sink.len());
        }

        let mut remaining = vec![0u64; CAPACITY];
        let n = producer.pop_many(&mut remaining);
        remaining.truncate(n);
        assert_eq!(remaining, Vec::from(queue));

        let mut received: Vec<u64> = Vec::new();
        while let Some(value) = sink.pop() {
            received.push(value);
        }
        assert_eq!(received, in_sink);

        // Conservation, and no value in two places: the values are all
        // different, so as sorted lists the two sides are equal.
        let mut held = remaining.clone();
        held.extend(&handed_out);
        held.extend(&in_sink);
        assert_eq!(sorted(held), sorted(pushed));

        // The values left the queue in the order in which they entered.
        let mut through = departed.clone();
        through.extend(&remaining);
        assert_eq!(through, entered);
    }
}

#[test]
fn unbounded_histories_conserve_order_and_grow() {
    for start in 1..=20u64 {
        let mut seed = start;
        let mut counter = 0u64;
        let (mut producer, mut consumer) = new_unbounded::<u64>();

        let mut queue: VecDeque<u64> = VecDeque::new();
        let mut pushed: Vec<u64> = Vec::new();
        let mut handed_out: Vec<u64> = Vec::new();
        let mut last_seen = consumer.version_id();

        for _ in 0..3000 {
            let op = next_operation(&mut seed, &mut counter);
            let len = queue.len();
            let capacity = producer.capacity();
            let version = producer.version_id();
            let mut incoming = 0;
            let mut expected: Vec<u64> = Vec::new();
            match &op {
                Operation::Push(value) | Operation::MaybePush(value) => {
                    pushed.push(*value);
                    queue.push_back(*value);
                    incoming = 1;
                }
                Operation::PushMany(values) | Operation::MaybePushMany(values) => {
                    pushed.extend(values);
                    queue.extend(values);
                    incoming = values.len();
                }
                Operation::Pop => expected = queue.drain(..len.min(1)).collect(),
                Operation::PopMany(n) | Operation::ConsumerPopMany(n) => {
                    expected = queue.drain(..len.min(*n)).collect()
                }
                Operation::Steal(always_steal) => {
                    let half = len / 2;
                    if half > 0 && (*always_steal || half >= 4) {
                        expected = queue.drain(..half.min(8)).collect();
                    }
                }
            }
            handed_out.extend(&expected);

            let handed = producer.apply(&op, 8);

            assert_eq!(handed, expected);
            assert_eq!(producer.len(), queue.len());

            // Growth.
            if len + incoming > capacity {
                let grown = producer.capacity();
                assert!(grown.is_power_of_two());
                assert!(grown >= 2 * capacity);
                assert!(grown >= len + incoming + 1);
                assert!(grown / 2 <= len + incoming || grown == 2 * capacity);
                assert_eq!(producer.version_id(), version + 1);
            } else {
                assert_eq!(producer.capacity(), capacity);
                assert_eq!(producer.version_id(), version);
            }

            // A consumer never sees an older version than it saw before.
            if next(&mut seed) % 4 == 0 {
                assert_eq!(consumer.len(&producer), queue.len());
                assert!(consumer.version_id() >= last_seen);
                assert!(consumer.version_id() <= producer.version_id());
                assert_eq!(consumer.capacity(&producer), producer.capacity());
                assert_eq!(consumer.version_id(), producer.version_id());
                last_seen = consumer.version_id();
            }
        }

        let mut remaining = vec![0u64; queue.len()];
        assert_eq!(consumer.pop_many(&mut producer, &mut remaining), queue.len());
        assert!(consumer.version_id() >= last_seen);
        assert_eq!(remaining, Vec::from(queue));

        let mut held = handed_out.clone();
        held.extend(&remaining);
        // Nothing overtakes in a queue that hands nothing to a receiver.
        assert_eq!(held, pushed);
    }
}

#[test]
fn bounded_apply_says_what_each_operation_hands_out() {
    let (mut producer, _) = new_bounded::<u64, 8>();
    let mut sink: VecQueue<u64> = VecQueue::new();
    assert_eq!(producer.apply(&Operation::Pop, &mut sink), vec![]);
    assert_eq!(producer.apply(&Operation::PushMany(vec![1, 2, 3, 4, 5, 6, 7, 8]), &mut sink), vec![]);
    assert_eq!(producer.apply(&Operation::MaybePush(9), &mut sink), vec![]);
    assert_eq!(producer.apply(&Operation::MaybePushMany(vec![9]), &mut sink), vec![]);
    assert_eq!(producer.len(), 8);
    assert!(sink.is_empty());
    assert_eq!(producer.apply(&Operation::Pop, &mut sink), vec![1]);
    assert_eq!(producer.apply(&Operation::PopMany(2), &mut sink), vec![2, 3]);
    assert_eq!(producer.apply(&Operation::ConsumerPopMany(1), &mut sink), vec![4]);
    assert_eq!(producer.apply(&Operation::Steal(false), &mut sink), vec![]);
    assert_eq!(producer.apply(&Operation::Steal(true), &mut sink), vec![5, 6]);
    assert_eq!(producer.apply(&Operation::PopMany(usize::MAX), &mut sink), vec![7, 8]);
    assert_eq!(producer.apply(&Operation::PushMany(vec![1, 2, 3, 4, 5, 6, 7, 8]), &mut sink), vec![]);
    assert_eq!(producer.apply(&Operation::Push(9), &mut sink), vec![]);
    assert_eq!(sink.len(), 5);
    assert_eq!(producer.apply(&Operation::ConsumerPopMany(usize::MAX), &mut sink), vec![5, 6, 7, 8]);
}

#[test]
fn unbounded_apply_steals_no_more_than_there_is_room_for() {
    let (mut producer, _) = new_unbounded::<u64>();
    let batch: Vec<u64> = (0..100).collect();
    assert_eq!(producer.apply(&Operation::PushMany(batch), 4), vec![]);
    assert_eq!(producer.capacity(), 128);
    assert_eq!(producer.apply(&Operation::Steal(false), 4), vec![0, 1, 2, 3]);
    assert_eq!(producer.apply(&Operation::Steal(false), 64).len(), 48);
    assert_eq!(producer.apply(&Operation::Steal(false), 16).len(), 16);
    assert_eq!(producer.len(), 32);
    assert_eq!(producer.apply(&Operation::Pop, 1), vec![68]);
}
