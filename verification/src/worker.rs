use crate::item::WorkItem;
use vstd::prelude::*;

verus! {

/// The state of one worker in the set: `Waiting` (blocked in receive),
/// `Executing` the task with the recorded id, or `Terminated` after consuming
/// a terminate sentinel.
///
/// `Terminated` is absorbing: no transition leaves it, so a worker never
/// re-enters the loop once it has seen its sentinel.
#[derive(Clone, Copy, Debug, PartialEq, Eq, Structural)]
pub enum WorkerState {
    Waiting,
    Executing(u64),
    Terminated,
}

impl WorkerState {
    /// The transition a waiting worker makes on the item it dequeued: a task
    /// moves it to `Executing`, the terminate sentinel to `Terminated`. These
    /// are the only transitions out of `Waiting`, and only a waiting worker
    /// receives.
    pub fn on_receive(self, item: WorkItem) -> (next: WorkerState)
        requires
            self is Waiting,
        ensures
            next == (match item {
                WorkItem::Task(t) => WorkerState::Executing(t),
                WorkItem::Terminate => WorkerState::Terminated,
            }),
    {
        match item {
            WorkItem::Task(t) => WorkerState::Executing(t),
            WorkItem::Terminate => WorkerState::Terminated,
        }
    }

    /// The transition a worker makes when its task's body returns: back to
    /// `Waiting`. This is the only transition out of `Executing`.
    pub fn on_finish(self) -> (next: WorkerState)
        requires
            self is Executing,
        ensures
            next == WorkerState::Waiting,
    {
        WorkerState::Waiting
    }
}

} // verus!
