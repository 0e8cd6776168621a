use workpool::item::WorkItem;
use workpool::worker::WorkerState;

#[test]
fn receiving_a_task_starts_executing() {
    let next = WorkerState::Waiting.on_receive(WorkItem::Task(42));
    assert_eq!(next, WorkerState::Executing(42));
}

#[test]
fn receiving_the_sentinel_terminates() {
    let next = WorkerState::Waiting.on_receive(WorkItem::Terminate);
    assert_eq!(next, WorkerState::Terminated);
}

#[test]
fn finishing_returns_to_waiting() {
    let next = WorkerState::Executing(42).on_finish();
    assert_eq!(next, WorkerState::Waiting);
}
