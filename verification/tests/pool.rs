use workpool::item::WorkItem;
use workpool::pool::{PoolError, ThreadPool};
use workpool::worker::WorkerState;

/// Drives worker `w` until it consumes its terminate sentinel, running every
/// task it dequeues to completion on the way, exactly as the worker loop of a
/// running pool would.
fn drain_worker(pool: &mut ThreadPool, w: usize) {
    loop {
        match pool.worker_receive(w) {
            Some(WorkItem::Task(_)) => pool.worker_finish(w),
            Some(WorkItem::Terminate) => break,
            None => panic!("queue ran dry before worker {} saw its sentinel", w),
        }
    }
}

fn count_of(log: &[u64], id: u64) -> usize {
    let mut n: usize = 0;
    for x in log {
        if *x == id {
            n += 1;
        }
    }
    n
}

#[test]
fn fifo_delivery_single_worker() {
    // all workers serialized to one: observed delivery order must be exactly
    // the submission order
    let mut pool = ThreadPool::new(1);
    for id in 0..6u64 {
        pool.execute(id);
    }
    for _ in 0..6 {
        match pool.worker_receive(0) {
            Some(WorkItem::Task(_)) => pool.worker_finish(0),
            other => panic!("expected a task, got {:?}", other),
        }
    }
    assert_eq!(*pool.delivered_log(), vec![0, 1, 2, 3, 4, 5]);
    pool.close();
    assert_eq!(*pool.delivered_log(), vec![0, 1, 2, 3, 4, 5]);
}

#[test]
fn fifo_delivery_interleaved_workers() {
    // delivery order stays the submission order even when two workers take
    // turns dequeuing
    let mut pool = ThreadPool::new(2);
    for id in [10u64, 20, 30, 40] {
        pool.execute(id);
    }
    assert_eq!(pool.worker_receive(0), Some(WorkItem::Task(10)));
    assert_eq!(pool.worker_receive(1), Some(WorkItem::Task(20)));
    pool.worker_finish(1);
    assert_eq!(pool.worker_receive(1), Some(WorkItem::Task(30)));
    pool.worker_finish(0);
    assert_eq!(pool.worker_receive(0), Some(WorkItem::Task(40)));
    pool.worker_finish(0);
    pool.worker_finish(1);
    assert_eq!(*pool.delivered_log(), vec![10, 20, 30, 40]);
    pool.close();
}

#[test]
fn exactly_once_delivery() {
    // each submitted task is completed exactly once, never zero or twice
    let mut pool = ThreadPool::new(3);
    for id in 0..8u64 {
        pool.execute(id);
    }
    pool.close();
    let completed = pool.completed_log();
    assert_eq!(completed.len(), 8);
    for id in 0..8u64 {
        assert_eq!(count_of(completed, id), 1);
    }
}

#[test]
fn duplicate_ids_are_conserved() {
    // the same id submitted twice runs twice: conservation is per
    // submission, not per id
    let mut pool = ThreadPool::new(2);
    pool.execute(5);
    pool.execute(5);
    pool.execute(6);
    pool.close();
    let completed = pool.completed_log();
    assert_eq!(completed.len(), 3);
    assert_eq!(count_of(completed, 5), 2);
    assert_eq!(count_of(completed, 6), 1);
}

#[test]
fn concurrency_bound_two_workers() {
    // with a pool of size 2, at most 2 tasks are ever executing at once: a
    // third receive needs a third waiting worker, and there is none
    let mut pool = ThreadPool::new(2);
    for id in 0..4u64 {
        pool.execute(id);
    }
    assert_eq!(pool.worker_receive(0), Some(WorkItem::Task(0)));
    assert_eq!(pool.worker_receive(1), Some(WorkItem::Task(1)));
    let executing = (0..pool.worker_count())
        .filter(|&w| matches!(pool.worker_state(w), WorkerState::Executing(_)))
        .count();
    assert_eq!(executing, 2);
    assert!(executing <= pool.worker_count());
    pool.worker_finish(0);
    pool.worker_finish(1);
    pool.close();
}

#[test]
fn clean_shutdown_completes_everything() {
    // closing the pool returns only after all submitted tasks have run
    let mut pool = ThreadPool::new(3);
    for id in 0..7u64 {
        pool.execute(id);
    }
    pool.close();
    assert!(pool.is_shut_down());
    assert_eq!(pool.queued_len(), 0);
    assert_eq!(pool.completed_log().len(), 7);
    assert_eq!(pool.delivered_log().as_slice(), pool.submitted_log().as_slice());
    for w in 0..pool.worker_count() {
        assert_eq!(pool.worker_state(w), WorkerState::Terminated);
    }
}

#[test]
fn scenario_four_workers_ten_tasks() {
    // new(4); submit ten tasks carrying their index; close; the completed
    // list holds each index 0..9 exactly once, with no duplicates — its
    // order is not asserted
    let mut pool = ThreadPool::new(4);
    for id in 0..10u64 {
        pool.execute(id);
    }
    pool.close();
    let completed = pool.completed_log();
    assert_eq!(completed.len(), 10);
    for id in 0..10u64 {
        assert_eq!(count_of(completed, id), 1);
    }
}

#[test]
fn zero_workers_rejected() {
    // the zero-worker edge case: construction is rejected with a defined
    // error rather than left to hang
    match ThreadPool::try_new(0) {
        Err(e) => assert_eq!(e, PoolError::ZeroWorkers),
        Ok(_) => panic!("a zero-worker pool must be rejected"),
    }
}

#[test]
fn try_new_accepts_positive_counts() {
    let pool = ThreadPool::try_new(4).unwrap();
    assert_eq!(pool.worker_count(), 4);
    assert!(!pool.is_shut_down());
    let mut pool = pool;
    pool.close();
}

#[test]
fn close_with_no_tasks() {
    let mut pool = ThreadPool::new(2);
    pool.close();
    assert!(pool.completed_log().is_empty());
    assert!(pool.delivered_log().is_empty());
    assert_eq!(pool.queued_len(), 0);
    for w in 0..pool.worker_count() {
        assert_eq!(pool.worker_state(w), WorkerState::Terminated);
    }
}

#[test]
fn manual_teardown_with_sentinels() {
    // shutdown sends exactly one sentinel per worker, behind every queued
    // task; each worker's loop then drains in FIFO order
    let mut pool = ThreadPool::new(2);
    pool.execute(1);
    pool.execute(2);
    pool.shutdown();
    assert!(pool.is_shut_down());
    assert_eq!(pool.queued_len(), 4);
    drain_worker(&mut pool, 0);
    drain_worker(&mut pool, 1);
    assert_eq!(pool.queued_len(), 0);
    assert_eq!(pool.completed_log().len(), 2);
    assert_eq!(pool.worker_state(0), WorkerState::Terminated);
    assert_eq!(pool.worker_state(1), WorkerState::Terminated);
}

#[test]
fn receive_on_empty_queue_blocks() {
    // None is the model's stand-in for blocking: nothing changes
    let mut pool = ThreadPool::new(1);
    assert_eq!(pool.worker_receive(0), None);
    assert_eq!(pool.worker_state(0), WorkerState::Waiting);
    assert_eq!(pool.delivered_log().len(), 0);
    pool.close();
}
