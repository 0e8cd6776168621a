use vstd::prelude::*;

verus! {

/// One unit of traffic on the dispatch channel: either a task, identified by
/// the id its submitter chose, or the terminate sentinel that tells whichever
/// worker dequeues it to exit its loop.
///
/// A task's body is opaque to the pool, so the channel carries only the id;
/// the code that drives the pool keeps the mapping from ids to actual work.
#[derive(Clone, Copy, Debug, PartialEq, Eq, Structural)]
pub enum WorkItem {
    Task(u64),
    Terminate,
}

} // verus!
