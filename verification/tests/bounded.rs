use parcoll::spmc::const_bounded::{is_aligned_capacity, new_bounded, SPMCBoundedQueue};
use parcoll::sync_batch_receiver::SyncBatchReceiver;
use parcoll::vec_queue::VecQueue;
use std::collections::VecDeque;

const CAPACITY: usize = 256;

/// Takes every value out of a receiver, oldest first.
fn drain(queue: &mut VecQueue<usize>) -> Vec<usize> {
    let mut all = Vec::new();
    while let Some(value) = queue.pop() {
        all.push(value);
    }
    all
}

#[test]
fn test_spmc_bounded_seq_insertions() {
    let mut global_queue = VecQueue::new();
    let (mut producer, _) = new_bounded::<usize, CAPACITY>();

    for i in 0..CAPACITY * 100 {
        producer.push(i, &mut global_queue);
    }

    let (mut new_producer, _) = new_bounded::<usize, CAPACITY>();

    global_queue.move_batch_to_producer(&mut new_producer, producer.capacity() - producer.len());

    assert_eq!(
        producer.len() + new_producer.len() + global_queue.len(),
        CAPACITY * 100
    );

    for _ in 0..producer.len() {
        assert!(producer.pop().is_some());
    }

    for _ in 0..new_producer.len() {
        assert!(new_producer.pop().is_some());
    }
}

#[test]
fn test_spmc_bounded_stealing() {
    const TRIES: usize = 10;

    let mut global_queue = VecQueue::new();
    let (mut producer1, mut consumer) = new_bounded::<usize, CAPACITY>();
    let (mut producer2, _) = new_bounded::<usize, CAPACITY>();

    let mut stolen = VecDeque::new();

    for _ in 0..TRIES * 2 {
        for i in 0..CAPACITY / 2 {
            producer1.push(i, &mut global_queue);
        }

        consumer.steal_into(&mut producer1, &mut producer2);

        while let Some(task) = producer2.pop() {
            stolen.push_back(task);
        }

        assert!(global_queue.is_empty());
    }

    assert!(producer2.is_empty());

    let mut count = 0;

    while let Some(_) = producer1.pop() {
        count += 1;
    }

    assert_eq!(count + stolen.len() + global_queue.len(), CAPACITY * TRIES);
}

#[test]
fn test_spmc_bounded_many() {
    const BATCH_SIZE: usize = 30;
    const N: usize = BATCH_SIZE * 100;

    let mut global_queue = VecQueue::new();
    let (mut producer, mut consumer) = new_bounded::<usize, CAPACITY>();

    for i in 0..N / BATCH_SIZE / 2 {
        let slice = (0..BATCH_SIZE)
            .map(|j| i * BATCH_SIZE + j)
            .collect::<Vec<_>>();

        producer.maybe_push_many(&*slice).unwrap();

        let mut slice = [0usize; BATCH_SIZE];
        producer.pop_many(slice.as_mut_slice());

        for j in 0..BATCH_SIZE {
            let index = i * BATCH_SIZE + j;

            assert_eq!(slice[j], index);
        }
    }

    for i in 0..N / BATCH_SIZE / 2 {
        let slice = (0..BATCH_SIZE)
            .map(|j| i * BATCH_SIZE + j)
            .collect::<Vec<_>>();

        producer.push_many(&*slice, &mut global_queue);

        assert!(global_queue.is_empty());

        let mut slice = [0usize; BATCH_SIZE];
        consumer.pop_many(&mut producer, slice.as_mut_slice());

        for j in 0..BATCH_SIZE {
            let index = i * BATCH_SIZE + j;

            assert_eq!(slice[j], index);
        }
    }
}

#[test]
fn bounded_sequential_pushes_spill_the_older_half_each_time() {
    let mut sink = VecQueue::new();
    let (mut producer, _) = new_bounded::<usize, CAPACITY>();
    // What the queue and the receiver are to hold, kept by hand.
    let mut queue_model: VecDeque<usize> = VecDeque::new();
    let mut sink_model: Vec<usize> = Vec::new();
    for i in 0..25600 {
        if queue_model.len() == CAPACITY {
            sink_model.extend(queue_model.drain(..CAPACITY / 2));
            sink_model.push(i);
        } else {
            queue_model.push_back(i);
        }
        let sink_before = sink.len();
        let full = producer.len() == CAPACITY;
        producer.push(i, &mut sink);
        assert!(producer.len() <= CAPACITY);
        if full {
            assert_eq!(sink.len(), sink_before + CAPACITY / 2 + 1);
        } else {
            assert_eq!(sink.len(), sink_before);
        }
    }
    assert_eq!(producer.len() + sink.len(), 25600);
    let spilled = drain(&mut sink);
    assert_eq!(spilled, sink_model);
    let mut rest = Vec::new();
    while let Some(value) = producer.pop() {
        rest.push(value);
    }
    assert_eq!(rest, Vec::from(queue_model));
    // The values still in the queue come out in the order of the pushes.
    assert!(rest.windows(2).all(|pair| pair[0] < pair[1]));
    // Every value is in one place, once.
    let mut all = spilled;
    all.extend(rest);
    all.sort();
    assert_eq!(all, (0..25600).collect::<Vec<_>>());
}

#[test]
fn bounded_steal_takes_the_older_half() {
    let mut sink = VecQueue::new();
    let (mut victim, mut stealer) = new_bounded::<usize, CAPACITY>();
    let (mut thief, _) = new_bounded::<usize, CAPACITY>();
    for i in 0..128 {
        victim.push(i, &mut sink);
    }
    assert_eq!(stealer.steal_into(&mut victim, &mut thief), 64);
    let mut sum = 0;
    for i in 0..64 {
        assert_eq!(thief.pop(), Some(i));
        sum += 1;
    }
    assert_eq!(thief.pop(), None);
    for i in 64..128 {
        assert_eq!(victim.pop(), Some(i));
        sum += 1;
    }
    assert_eq!(victim.pop(), None);
    assert_eq!(sum, 128);
    assert!(sink.is_empty());
}

#[test]
fn bounded_batches_come_back_as_pushed() {
    let (mut producer, _) = new_bounded::<usize, CAPACITY>();
    for round in 0..50 {
        let batch: Vec<usize> = (0..30).map(|j| round * 1000 + j).collect();
        assert_eq!(producer.maybe_push_many(&batch), Ok(()));
        let mut out = [0usize; 30];
        assert_eq!(producer.pop_many(&mut out), 30);
        assert_eq!(out.to_vec(), batch);
    }
}

#[test]
fn bounded_push_on_a_full_queue_hands_half_and_the_value_to_the_receiver() {
    let mut sink = VecQueue::new();
    let (mut producer, _) = new_bounded::<usize, 8>();
    // Move the head to slot 6, so that the older half wraps around the end.
    for i in 0..6 {
        producer.push(100 + i, &mut sink);
    }
    for _ in 0..6 {
        producer.pop();
    }
    for i in 0..8 {
        producer.push(i, &mut sink);
    }
    assert_eq!(producer.len(), 8);
    assert!(sink.is_empty());
    producer.push(8, &mut sink);
    assert_eq!(sink.len(), 8 / 2 + 1);
    assert_eq!(drain(&mut sink), vec![0, 1, 2, 3, 8]);
    assert_eq!(producer.len(), 4);
    for i in 4..8 {
        assert_eq!(producer.pop(), Some(i));
    }
}

#[test]
fn bounded_push_many_that_does_not_fit_spills_and_bypasses() {
    let mut sink = VecQueue::new();
    let (mut producer, _) = new_bounded::<usize, 8>();
    producer.push_many(&[0, 1, 2, 3, 4, 5], &mut sink);
    assert!(sink.is_empty());
    producer.push_many(&[6, 7, 8], &mut sink);
    // Four of the six values go to the receiver, and the batch behind them.
    assert_eq!(drain(&mut sink), vec![0, 1, 2, 3, 6, 7, 8]);
    assert_eq!(producer.len(), 2);
    assert_eq!(producer.pop(), Some(4));
    assert_eq!(producer.pop(), Some(5));

    // With fewer values than half the capacity, all of them go.
    producer.push_many(&[10, 11], &mut sink);
    producer.push_many(&[20, 21, 22, 23, 24, 25, 26], &mut sink);
    assert_eq!(drain(&mut sink), vec![10, 11, 20, 21, 22, 23, 24, 25, 26]);
    assert!(producer.is_empty());
}

#[test]
fn bounded_maybe_push_hands_the_value_back_when_full() {
    let (mut producer, _) = new_bounded::<usize, 4>();
    for i in 0..4 {
        assert_eq!(producer.maybe_push(i), Ok(()));
    }
    assert_eq!(producer.maybe_push(4), Err(4));
    assert_eq!(producer.len(), 4);
    assert_eq!(producer.pop(), Some(0));
    assert_eq!(producer.maybe_push(4), Ok(()));
    for i in 1..5 {
        assert_eq!(producer.pop(), Some(i));
    }
    assert_eq!(producer.pop(), None);
}

#[test]
fn bounded_maybe_push_many_is_all_or_nothing() {
    let (mut producer, _) = new_bounded::<usize, 8>();
    assert_eq!(producer.maybe_push_many(&[1, 2, 3, 4, 5]), Ok(()));
    assert_eq!(producer.maybe_push_many(&[6, 7, 8, 9]), Err(()));
    assert_eq!(producer.len(), 5);
    assert_eq!(producer.maybe_push_many(&[6, 7, 8]), Ok(()));
    assert_eq!(producer.maybe_push_many(&[]), Ok(()));
    assert_eq!(producer.maybe_push_many(&[9]), Err(()));
    let mut out = [0usize; 8];
    assert_eq!(producer.pop_many(&mut out), 8);
    assert_eq!(out, [1, 2, 3, 4, 5, 6, 7, 8]);
}

#[test]
fn bounded_pop_many_takes_what_there_is_and_leaves_the_rest_of_dst() {
    let (mut producer, mut consumer) = new_bounded::<usize, 8>();
    let mut out = [7usize; 5];
    assert_eq!(producer.pop_many(&mut out), 0);
    assert_eq!(consumer.pop_many(&mut producer, &mut out), 0);
    assert_eq!(out, [7; 5]);
    producer.push_many_unchecked(&[1, 2], &[3]);
    assert_eq!(consumer.len(&producer), 3);
    assert_eq!(consumer.pop_many(&mut producer, &mut out), 3);
    assert_eq!(out, [1, 2, 3, 7, 7]);
    producer.push_many_unchecked(&[4, 5, 6, 7, 8, 9, 10], &[]);
    let mut two = [0usize; 2];
    assert_eq!(producer.pop_many(&mut two), 2);
    assert_eq!(two, [4, 5]);
    assert_eq!(producer.pop_many(&mut []), 0);
    assert_eq!(producer.len(), 5);
}

#[test]
fn bounded_steal_declines_small_batches_unless_told_otherwise() {
    let (mut src, mut consumer) = new_bounded::<usize, 16>();
    let (mut dst, _) = new_bounded::<usize, 16>();
    src.push_many_unchecked(&[1, 2, 3, 4, 5, 6, 7], &[]);
    assert_eq!(consumer.steal_into(&mut src, &mut dst), 0);
    assert_eq!(src.len(), 7);
    assert!(dst.is_empty());
    src.push_many_unchecked(&[8], &[]);
    assert_eq!(consumer.steal_into(&mut src, &mut dst), 4);
    let mut out = [0usize; 4];
    assert_eq!(dst.pop_many(&mut out), 4);
    assert_eq!(out, [1, 2, 3, 4]);

    let mut eager = consumer.clone();
    eager.set_always_steal(true);
    assert_eq!(eager.steal_into(&mut src, &mut dst), 2);
    assert_eq!(dst.pop(), Some(5));
    assert_eq!(dst.pop(), Some(6));
    assert_eq!(eager.steal_into(&mut src, &mut dst), 1);
    assert_eq!(dst.pop(), Some(7));
    // One value is left: half of it is none.
    assert_eq!(eager.steal_into(&mut src, &mut dst), 0);
    assert_eq!(src.pop(), Some(8));
    assert_eq!(eager.steal_into(&mut src, &mut dst), 0);
}

#[test]
fn bounded_queue_keeps_its_order_around_the_end_of_the_ring() {
    let mut queue = SPMCBoundedQueue::<u8, 4>::new();
    assert_eq!(queue.capacity(), 4);
    let mut next = 0u8;
    let mut expected = 0u8;
    for round in 0..1000 {
        let pushes = round % 4 + 1;
        for _ in 0..pushes {
            if queue.producer_maybe_push(next).is_ok() {
                next = next.wrapping_add(1);
            }
        }
        assert_eq!(queue.producer_len(), queue.consumer_len());
        let mut out = [0u8; 3];
        let n = if round % 2 == 0 {
            queue.producer_pop_many(&mut out)
        } else {
            queue.consumer_pop_many(&mut out)
        };
        for value in &out[..n] {
            assert_eq!(*value, expected);
            expected = expected.wrapping_add(1);
        }
    }
}

#[test]
fn bounded_queue_steals_between_queues_at_different_offsets() {
    let mut src = SPMCBoundedQueue::<usize, 16>::new();
    let mut dst = SPMCBoundedQueue::<usize, 16>::new();
    // Leave the two rings at different slots.
    for i in 0..13 {
        src.push_unchecked(i);
    }
    for _ in 0..13 {
        src.producer_pop();
    }
    for i in 0..7 {
        dst.push_unchecked(i);
        dst.producer_pop();
    }
    src.producer_push_many_unchecked(&[1, 2, 3, 4, 5], &[6, 7, 8, 9, 10]);
    assert_eq!(src.steal_into(&mut dst, false), 5);
    assert_eq!(src.producer_len(), 5);
    for i in 1..=5 {
        assert_eq!(dst.producer_pop(), Some(i));
    }
    for i in 6..=10 {
        assert_eq!(src.producer_pop(), Some(i));
    }
}

#[test]
fn receiver_takes_first_then_last_then_the_rest() {
    let mut queue: VecQueue<usize> = VecQueue::new();
    assert!(queue.is_empty());
    queue.push_many_and_one(&[1, 2], &[3], 4);
    queue.push_many_and_slice(&[5], &[], &[6, 7]);
    assert_eq!(queue.len(), 7);
    let (mut producer, _) = new_bounded::<usize, 4>();
    assert_eq!(queue.move_batch_to_producer(&mut producer, 3), 3);
    assert_eq!(queue.move_batch_to_producer(&mut producer, 3), 1);
    assert_eq!(queue.move_batch_to_producer(&mut producer, 3), 0);
    let mut out = [0usize; 4];
    assert_eq!(producer.pop_many(&mut out), 4);
    assert_eq!(out, [1, 2, 3, 4]);
    assert_eq!(queue.pop(), Some(5));
    assert_eq!(queue.move_batch_to_producer(&mut producer, 10), 2);
    assert!(queue.is_empty());
    assert_eq!(queue.pop(), None);
    assert_eq!(producer.pop(), Some(6));
    assert_eq!(producer.pop(), Some(7));
}

#[test]
fn distance_between_counters_wraps_with_the_word() {
    type Queue = SPMCBoundedQueue<usize, 4>;
    assert_eq!(Queue::len(0, 0), 0);
    assert_eq!(Queue::len(3, 7), 4);
    assert_eq!(Queue::len(usize::MAX, 1), 2);
    assert_eq!(Queue::len(usize::MAX - 1, usize::MAX), 1);
    assert_eq!(Queue::len(5, 5), 0);
}

#[test]
fn capacities_that_divide_the_word_size_are_the_powers_of_two() {
    assert!(!is_aligned_capacity(0));
    for capacity in 1..=4096usize {
        assert_eq!(is_aligned_capacity(capacity), capacity.is_power_of_two());
    }
    assert!(is_aligned_capacity(1 << (usize::BITS - 1)));
    assert!(!is_aligned_capacity(usize::MAX));
    assert!(!is_aligned_capacity((1 << (usize::BITS - 1)) + 1));
}
