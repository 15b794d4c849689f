//! Single-producer, multi-consumer work-stealing queues over ring buffers.
//!
//! A queue is the local queue of a worker: the producer pushes to its tail
//! and pops from its head, and consumers take batches from the head, for
//! themselves or into the queue of another worker. There are two queues:
//! one of a fixed capacity, which hands values to a receiver when a push
//! does not fit, and one that grows.
//!
//! The queues are plain values: a queue is owned by its producer, and a
//! consumer is given the producer for the length of one operation. What
//! every operation does is stated over the sequence of the values in the
//! queue, oldest first, and proved. To share a queue between threads, keep
//! the producer behind a lock.
pub mod ring;
pub mod spmc;
pub mod sync_batch_receiver;
pub mod vec_queue;
