use parcoll::spmc::capacity::{grow_capacity, is_valid_capacity};
use parcoll::spmc::unbounded::{
    new_unbounded, pack_version_and_tail, unpack_version_and_tail, SPMCUnboundedQueue,
};
use parcoll::vec_queue::VecQueue;
use std::collections::VecDeque;

const N: usize = 16000;
const BATCH_SIZE: usize = 10;

#[test]
fn test_spmc_unbounded_seq_insertions() {
    let mut global_queue = VecQueue::new();
    let (mut producer, _) = new_unbounded();

    for i in 0..N {
        producer.push(i, &mut global_queue);
    }

    assert!(global_queue.is_empty());

    for i in 0..N {
        assert_eq!(producer.pop().unwrap(), i);
    }

    let (mut producer, mut consumer) = new_unbounded();

    for i in 0..N {
        producer.maybe_push(i).unwrap();
    }

    for i in 0..N / BATCH_SIZE {
        let mut slice = [0usize; BATCH_SIZE];

        assert_eq!(consumer.pop_many(&mut producer, slice.as_mut_slice()), BATCH_SIZE);

        for j in 0..BATCH_SIZE {
            assert_eq!(slice[j], i * BATCH_SIZE + j);
        }
    }
}

#[test]
fn test_spmc_unbounded_stealing() {
    const TRIES: usize = 100;

    let mut global_queue = VecQueue::new();
    let mut stolen = VecDeque::new();
    let (mut producer1, mut consumer) = new_unbounded();
    let (mut producer2, _) = new_unbounded();

    producer2.reserve(512);

    for _ in 0..TRIES * 2 {
        for i in 0..N / 2 {
            producer1.push(i, &mut global_queue);
        }

        consumer.steal_into(&mut producer1, &mut producer2);

        while let Some(task) = producer2.pop() {
            stolen.push_back(task);
        }

        assert!(global_queue.is_empty());
    }

    assert!(producer2.is_empty());

    let mut count = 0;

    while let Some(_) = producer1.pop() {
        count += 1;
    }

    assert_eq!(count + stolen.len(), N * TRIES);
}

#[test]
fn test_spmc_unbounded_many() {
    const BATCH_SIZE: usize = 30;
    const N: usize = BATCH_SIZE * 100;

    let mut global_queue = VecQueue::new();
    let (mut producer, mut consumer) = new_unbounded();

    for i in 0..N / BATCH_SIZE / 2 {
        let slice = (0..BATCH_SIZE)
            .map(|j| i * BATCH_SIZE + j)
            .collect::<Vec<_>>();

        producer.maybe_push_many(&*slice).unwrap();

        let mut slice = [0usize; BATCH_SIZE];
        producer.pop_many(slice.as_mut_slice());

        for j in 0..BATCH_SIZE {
            let index = i * BATCH_SIZE + j;

            assert_eq!(slice[j], index);
        }
    }

    for i in 0..N / BATCH_SIZE / 2 {
        let slice = (0..BATCH_SIZE)
            .map(|j| i * BATCH_SIZE + j)
            .collect::<Vec<_>>();

        producer.push_many(&*slice, &mut global_queue);

        assert!(global_queue.is_empty());

        let mut slice = [0usize; BATCH_SIZE];
        consumer.pop_many(&mut producer, slice.as_mut_slice());

        for j in 0..BATCH_SIZE {
            let index = i * BATCH_SIZE + j;

            assert_eq!(slice[j], index);
        }
    }
}

#[test]
fn unbounded_grows_to_the_next_power_of_two() {
    let mut sink: VecQueue<usize> = VecQueue::new();
    let (mut producer, _) = new_unbounded();
    assert_eq!(producer.capacity(), 4);
    for i in 0..16000 {
        let before = producer.capacity();
        let full = producer.len() == before;
        producer.push(i, &mut sink);
        if full {
            assert_eq!(producer.capacity(), 2 * before);
        } else {
            assert_eq!(producer.capacity(), before);
        }
    }
    assert_eq!(producer.capacity(), 16384);
    assert!(sink.is_empty());
    for i in 0..16000 {
        assert_eq!(producer.pop(), Some(i));
    }
    assert_eq!(producer.pop(), None);
    assert_eq!(producer.capacity(), 16384);
}

#[test]
fn unbounded_batch_grows_until_it_has_more_room_than_needed() {
    let (mut producer, _) = new_unbounded::<usize>();
    producer.maybe_push_many(&[1, 2, 3]).unwrap();
    assert_eq!(producer.capacity(), 4);
    // Three and five are eight: sixteen is the first capacity above that.
    producer.maybe_push_many(&[4, 5, 6, 7, 8]).unwrap();
    assert_eq!(producer.capacity(), 16);
    assert_eq!(producer.len(), 8);
    // Eight and eight fit.
    producer.maybe_push_many(&[9, 10, 11, 12, 13, 14, 15, 16]).unwrap();
    assert_eq!(producer.capacity(), 16);
    let batch: Vec<usize> = (17..=100).collect();
    producer.maybe_push_many(&batch).unwrap();
    assert_eq!(producer.capacity(), 128);
    for i in 1..=100 {
        assert_eq!(producer.pop(), Some(i));
    }
}

#[test]
fn unbounded_growth_keeps_the_values_when_the_ring_has_wrapped() {
    let (mut producer, mut consumer) = new_unbounded::<usize>();
    for i in 0..3 {
        producer.maybe_push(i).unwrap();
    }
    for i in 0..3 {
        assert_eq!(producer.pop(), Some(i));
    }
    // The head is at slot 3: the next four values wrap around the end.
    producer.push_many_unchecked(&[10, 11], &[12, 13]);
    assert_eq!(producer.len(), 4);
    producer.maybe_push(14).unwrap();
    assert_eq!(producer.capacity(), 8);
    assert_eq!(consumer.capacity(&producer), 8);
    producer.reserve(32);
    assert_eq!(producer.capacity(), 32);
    assert_eq!(producer.len(), 5);
    let mut out = [0usize; 8];
    assert_eq!(consumer.pop_many(&mut producer, &mut out), 5);
    assert_eq!(&out[..5], &[10, 11, 12, 13, 14]);
    assert_eq!(consumer.capacity(&producer), 32);
}

#[test]
fn unbounded_consumer_catches_up_with_the_producer() {
    let (mut producer, mut consumer) = new_unbounded::<usize>();
    let mut late = consumer.clone();
    assert_eq!(consumer.len(&producer), 0);
    producer.maybe_push_many(&[1, 2, 3, 4, 5, 6, 7, 8, 9]).unwrap();
    assert_eq!(producer.capacity(), 16);
    assert_eq!(consumer.len(&producer), 9);
    assert_eq!(consumer.capacity(&producer), 16);
    producer.reserve(64);
    producer.reserve(1024);
    assert_eq!(late.capacity(&producer), 1024);
    let mut out = [0usize; 4];
    assert_eq!(late.pop_many(&mut producer, &mut out), 4);
    assert_eq!(out, [1, 2, 3, 4]);
    assert_eq!(consumer.pop_many(&mut producer, &mut out), 4);
    assert_eq!(out, [5, 6, 7, 8]);
    assert_eq!(consumer.pop_many(&mut producer, &mut out), 1);
    assert_eq!(out, [9, 6, 7, 8]);
    assert_eq!(consumer.pop_many(&mut producer, &mut out), 0);
}

#[test]
fn unbounded_reserve_and_steal_account_for_every_value() {
    const TRIES: usize = 20;
    const HALF: usize = 1000;
    let mut sink: VecQueue<usize> = VecQueue::new();
    let (mut victim, mut consumer) = new_unbounded();
    let (mut thief, _) = new_unbounded();
    thief.reserve(512);
    assert_eq!(thief.capacity(), 512);
    let mut stolen = 0;
    let mut next = 0;
    let mut expected_stolen = 0;
    for _ in 0..TRIES {
        for _ in 0..HALF {
            victim.push(next, &mut sink);
            next += 1;
        }
        let n = consumer.steal_into(&mut victim, &mut thief);
        assert_eq!(n, 512.min((victim.len() + n) / 2));
        for _ in 0..n {
            assert_eq!(thief.pop(), Some(expected_stolen));
            expected_stolen += 1;
            stolen += 1;
        }
        assert_eq!(thief.pop(), None);
    }
    let mut drained = 0;
    while let Some(value) = victim.pop() {
        assert_eq!(value, expected_stolen + drained);
        drained += 1;
    }
    assert_eq!(drained + stolen, HALF * TRIES);
    assert!(sink.is_empty());
}

#[test]
fn unbounded_steal_is_limited_by_the_room_of_the_destination() {
    let (mut src, mut consumer) = new_unbounded::<usize>();
    let (mut dst, _) = new_unbounded::<usize>();
    let batch: Vec<usize> = (0..40).collect();
    src.maybe_push_many(&batch).unwrap();
    assert_eq!(dst.capacity(), 4);
    assert_eq!(consumer.steal_into(&mut src, &mut dst), 4);
    assert_eq!(dst.capacity(), 4);
    assert_eq!(dst.len(), 4);
    for i in 0..4 {
        assert_eq!(dst.pop(), Some(i));
    }
    dst.reserve(64);
    assert_eq!(consumer.steal_into(&mut src, &mut dst), 18);
    for i in 4..22 {
        assert_eq!(dst.pop(), Some(i));
    }
    assert_eq!(src.len(), 18);
    // Nine, four, two: then half of what is left is under four.
    assert_eq!(consumer.steal_into(&mut src, &mut dst), 9);
    while dst.pop().is_some() {}
    assert_eq!(consumer.steal_into(&mut src, &mut dst), 4);
    while dst.pop().is_some() {}
    assert_eq!(consumer.steal_into(&mut src, &mut dst), 0);
    consumer.set_always_steal(true);
    assert_eq!(consumer.steal_into(&mut src, &mut dst), 2);
    assert_eq!(dst.pop(), Some(35));
    assert_eq!(dst.pop(), Some(36));
    assert_eq!(src.len(), 3);
}

#[test]
fn version_and_tail_share_one_word() {
    assert_eq!(pack_version_and_tail(0, 0), 0);
    assert_eq!(pack_version_and_tail(0, 7), 7);
    assert_eq!(pack_version_and_tail(1, 0), 0x1_0000_0000);
    assert_eq!(pack_version_and_tail(3, 0xffff_ffff), 0x3_ffff_ffff);
    assert_eq!(pack_version_and_tail(u32::MAX, u32::MAX), u64::MAX);
    assert_eq!(unpack_version_and_tail(0x3_ffff_ffff), (3, 0xffff_ffff));
    assert_eq!(unpack_version_and_tail(u64::MAX), (u32::MAX, u32::MAX));
    for (version, tail) in [(0u32, 0u32), (1, 2), (31, 0x8000_0000), (0xdead_beef, 0x1234_5678)] {
        assert_eq!(unpack_version_and_tail(pack_version_and_tail(version, tail)), (version, tail));
    }
}

#[test]
fn unbounded_queue_and_what_is_remembered_of_its_version() {
    assert_eq!(SPMCUnboundedQueue::<u8>::len(0, 0), 0);
    assert_eq!(SPMCUnboundedQueue::<u8>::len(u32::MAX, 1), 2);
    assert_eq!(SPMCUnboundedQueue::<u8>::len(7, 3), 0xffff_fffc);

    let mut queue = SPMCUnboundedQueue::<u8>::with_capacity(2);
    let mut producer_version = queue.latest_version();
    let mut consumer_version = queue.latest_version();
    assert_eq!(producer_version.id(), 0);
    assert_eq!(producer_version.capacity(), 2);
    assert_eq!(queue.producer_capacity(&producer_version), 2);

    queue.push_unchecked(1, &producer_version);
    queue.producer_push(2, &mut producer_version);
    assert_eq!(producer_version.id(), 0);
    queue.producer_push(3, &mut producer_version);
    assert_eq!(producer_version.id(), 1);
    assert_eq!(producer_version.capacity(), 4);
    assert_eq!(queue.producer_len(), 3);

    // The consumer still remembers the first version, in which three
    // values have no room.
    assert_eq!(consumer_version.id(), 0);
    assert_eq!(queue.consumer_len(&mut consumer_version), 3);
    assert_eq!(consumer_version.id(), 1);

    queue.producer_reserve(16, &mut producer_version);
    assert_eq!(producer_version.id(), 2);
    // Three values have room in the version that the consumer remembers.
    assert_eq!(queue.consumer_len(&mut consumer_version), 3);
    assert_eq!(consumer_version.id(), 1);
    assert_eq!(consumer_version.capacity(), 4);
    assert_eq!(queue.consumer_capacity(&mut consumer_version), 16);
    assert_eq!(consumer_version.id(), 2);

    queue.producer_push_many(&[4, 5], &mut producer_version);
    queue.producer_push_many_unchecked(&[6], &[7, 8], &producer_version);
    let mut stale = SPMCUnboundedQueue::<u8>::with_capacity(2).latest_version();
    queue.update_version(&mut stale);
    assert_eq!(stale.id(), 2);
    let mut out = [0u8; 3];
    assert_eq!(queue.consumer_pop_many(&mut out, &mut consumer_version), 3);
    assert_eq!(out, [1, 2, 3]);
    assert_eq!(queue.producer_pop(&producer_version), Some(4));
    assert_eq!(queue.producer_pop_many(&mut out, &producer_version), 3);
    assert_eq!(out, [5, 6, 7]);

    let mut thief = SPMCUnboundedQueue::<u8>::new();
    let thief_version = thief.latest_version();
    assert_eq!(queue.steal_into(&mut thief, &mut consumer_version, &thief_version, true), 0);
    queue.producer_push(9, &mut producer_version);
    assert_eq!(queue.steal_into(&mut thief, &mut consumer_version, &thief_version, true), 1);
    assert_eq!(thief.producer_pop(&thief_version), Some(8));
    assert_eq!(thief.producer_pop(&thief_version), None);
    assert_eq!(queue.producer_pop(&producer_version), Some(9));
}

#[test]
fn capacities_of_a_growing_queue_are_the_powers_of_two_up_to_the_largest() {
    assert!(!is_valid_capacity(0));
    for capacity in 1..=4096usize {
        assert_eq!(is_valid_capacity(capacity), capacity.is_power_of_two());
    }
    assert!(is_valid_capacity(0x4000_0000));
    assert!(is_valid_capacity(0x8000_0000));
    assert!(!is_valid_capacity(0x8000_0001));
    assert!(!is_valid_capacity(0xffff_ffff));
    if usize::BITS > 32 {
        assert!(!is_valid_capacity(1 << 32));
        assert!(!is_valid_capacity(1 << 40));
    }
    assert_eq!(grow_capacity(4, 4), 8);
    assert_eq!(grow_capacity(4, 7), 8);
    assert_eq!(grow_capacity(4, 8), 16);
    assert_eq!(grow_capacity(1, 1), 2);
    assert_eq!(grow_capacity(1, 2), 4);
    assert_eq!(grow_capacity(256, 16000), 16384);
    assert_eq!(grow_capacity(0x4000_0000, 0x7fff_ffff), 0x8000_0000);
}
