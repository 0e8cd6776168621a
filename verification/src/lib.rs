//! A fixed-size worker pool, modelled and verified.
//!
//! The pool accepts units of deferred work from producers and hands them to a
//! bounded set of long-lived workers over an unbounded FIFO dispatch channel;
//! teardown sends one terminate sentinel per worker and waits until every
//! worker has drained its share of the queue and exited.
//!
//! This crate verifies the pool's lifecycle and dispatch protocol: the FIFO
//! channel, the per-worker state machine, and the pool-level bookkeeping that
//! ties submission, delivery and completion together. The work a task performs
//! is opaque to the pool, so a task is identified here by the id its submitter
//! chose; the caller keeps the mapping from ids to actual work, and the thread
//! and channel plumbing that cannot be verified drives this model from
//! outside.

pub mod channel;
pub mod item;
pub mod pool;
pub mod worker;

pub use item::WorkItem;
pub use pool::PoolError;
pub use pool::ThreadPool;
pub use worker::WorkerState;
