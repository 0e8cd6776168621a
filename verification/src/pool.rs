use crate::channel::Channel;
use crate::item::WorkItem;
use crate::worker::WorkerState;
use vstd::multiset::Multiset;
use vstd::prelude::*;

verus! {

broadcast use vstd::seq_lib::group_to_multiset_ensures, vstd::multiset::group_multiset_axioms;

/// The task ids carried by the items of `q`, in queue order; terminate
/// sentinels carry no task.
pub open spec fn task_ids(q: Seq<WorkItem>) -> Seq<u64>
    decreases q.len(),
{
    if q.len() == 0 {
        Seq::<u64>::empty()
    } else {
        match q[0] {
            WorkItem::Task(t) => seq![t] + task_ids(q.drop_first()),
            WorkItem::Terminate => task_ids(q.drop_first()),
        }
    }
}

/// How many terminate sentinels `q` holds.
pub open spec fn terminate_count(q: Seq<WorkItem>) -> nat
    decreases q.len(),
{
    if q.len() == 0 {
        0nat
    } else {
        (if q[0] is Terminate {
            1nat
        } else {
            0nat
        }) + terminate_count(q.drop_first())
    }
}

/// Every item behind a terminate sentinel is itself a terminate sentinel:
/// once the pool is closed no task is ever queued again, so the sentinels
/// form the queue's tail.
pub open spec fn tasks_precede_terminates(q: Seq<WorkItem>) -> bool {
    forall|i: int, j: int|
        0 <= i < j < q.len() && q[i] is Terminate ==> q[j] is Terminate
}

/// The ids of the tasks the workers of `ws` are executing right now, as a
/// multiset: two workers may well be running tasks submitted under the same
/// id.
pub open spec fn executing_ids(ws: Seq<WorkerState>) -> Multiset<u64>
    decreases ws.len(),
{
    if ws.len() == 0 {
        Multiset::<u64>::empty()
    } else {
        match ws[0] {
            WorkerState::Executing(t) => executing_ids(ws.drop_first()).insert(t),
            _ => executing_ids(ws.drop_first()),
        }
    }
}

/// How many workers of `ws` have terminated.
pub open spec fn terminated_count(ws: Seq<WorkerState>) -> nat
    decreases ws.len(),
{
    if ws.len() == 0 {
        0nat
    } else {
        (if ws[0] is Terminated {
            1nat
        } else {
            0nat
        }) + terminated_count(ws.drop_first())
    }
}

proof fn lemma_task_ids_push(q: Seq<WorkItem>, item: WorkItem)
    ensures
        task_ids(q.push(item)) == task_ids(q) + (match item {
            WorkItem::Task(t) => seq![t],
            WorkItem::Terminate => Seq::<u64>::empty(),
        }),
        terminate_count(q.push(item)) == terminate_count(q) + (if item is Terminate {
            1nat
        } else {
            0nat
        }),
    decreases q.len(),
{
    let tail = (match item {
        WorkItem::Task(t) => seq![t],
        WorkItem::Terminate => Seq::<u64>::empty(),
    });
    if q.len() == 0 {
        assert(q.push(item).drop_first() =~= q);
        assert(task_ids(q.push(item)) =~= task_ids(q) + tail);
    } else {
        lemma_task_ids_push(q.drop_first(), item);
        assert(q.push(item).drop_first() =~= q.drop_first().push(item));
        match q[0] {
            WorkItem::Task(t) => {
                assert(task_ids(q.push(item)) =~= task_ids(q) + tail);
            },
            WorkItem::Terminate => {
                assert(task_ids(q.push(item)) =~= task_ids(q) + tail);
            },
        }
    }
}

proof fn lemma_no_terminates(q: Seq<WorkItem>)
    requires
        terminate_count(q) == 0,
    ensures
        forall|i: int| 0 <= i < q.len() ==> !(q[i] is Terminate),
    decreases q.len(),
{
    if q.len() > 0 {
        lemma_no_terminates(q.drop_first());
        assert forall|i: int| 0 <= i < q.len() implies !(q[i] is Terminate) by {
            if i > 0 {
                assert(q[i] == q.drop_first()[i - 1]);
            }
        }
    }
}

proof fn lemma_task_ids_all_terminates(q: Seq<WorkItem>)
    requires
        forall|i: int| 0 <= i < q.len() ==> q[i] is Terminate,
    ensures
        task_ids(q) == Seq::<u64>::empty(),
    decreases q.len(),
{
    if q.len() > 0 {
        assert forall|i: int| 0 <= i < q.drop_first().len() implies q.drop_first()[i]
            is Terminate by {
            assert(q.drop_first()[i] == q[i + 1]);
        }
        lemma_task_ids_all_terminates(q.drop_first());
    }
}

proof fn lemma_queue_len(q: Seq<WorkItem>)
    ensures
        task_ids(q).len() + terminate_count(q) == q.len(),
    decreases q.len(),
{
    if q.len() > 0 {
        lemma_queue_len(q.drop_first());
    }
}

proof fn lemma_start_executing(ws: Seq<WorkerState>, i: int, t: u64)
    requires
        0 <= i < ws.len(),
        ws[i] is Waiting,
    ensures
        executing_ids(ws.update(i, WorkerState::Executing(t))) == executing_ids(ws).insert(t),
        terminated_count(ws.update(i, WorkerState::Executing(t))) == terminated_count(ws),
    decreases ws.len(),
{
    let ws2 = ws.update(i, WorkerState::Executing(t));
    if i == 0 {
        assert(ws2.drop_first() =~= ws.drop_first());
        assert(executing_ids(ws2) =~= executing_ids(ws).insert(t));
    } else {
        lemma_start_executing(ws.drop_first(), i - 1, t);
        assert(ws2.drop_first() =~= ws.drop_first().update(i - 1, WorkerState::Executing(t)));
        assert(executing_ids(ws2) =~= executing_ids(ws).insert(t));
    }
}

proof fn lemma_finish_executing(ws: Seq<WorkerState>, i: int, t: u64)
    requires
        0 <= i < ws.len(),
        ws[i] == WorkerState::Executing(t),
    ensures
        executing_ids(ws).count(t) >= 1,
        executing_ids(ws.update(i, WorkerState::Waiting)) == executing_ids(ws).remove(t),
        terminated_count(ws.update(i, WorkerState::Waiting)) == terminated_count(ws),
    decreases ws.len(),
{
    let ws2 = ws.update(i, WorkerState::Waiting);
    if i == 0 {
        assert(ws2.drop_first() =~= ws.drop_first());
        assert(executing_ids(ws2) =~= executing_ids(ws).remove(t));
    } else {
        lemma_finish_executing(ws.drop_first(), i - 1, t);
        assert(ws2.drop_first() =~= ws.drop_first().update(i - 1, WorkerState::Waiting));
        assert(executing_ids(ws2) =~= executing_ids(ws).remove(t));
    }
}

proof fn lemma_terminate_worker(ws: Seq<WorkerState>, i: int)
    requires
        0 <= i < ws.len(),
        ws[i] is Waiting,
    ensures
        executing_ids(ws.update(i, WorkerState::Terminated)) == executing_ids(ws),
        terminated_count(ws.update(i, WorkerState::Terminated)) == terminated_count(ws) + 1,
    decreases ws.len(),
{
    let ws2 = ws.update(i, WorkerState::Terminated);
    if i == 0 {
        assert(ws2.drop_first() =~= ws.drop_first());
        assert(executing_ids(ws2) =~= executing_ids(ws));
    } else {
        lemma_terminate_worker(ws.drop_first(), i - 1);
        assert(ws2.drop_first() =~= ws.drop_first().update(i - 1, WorkerState::Terminated));
        assert(executing_ids(ws2) =~= executing_ids(ws));
    }
}

proof fn lemma_worker_counts(ws: Seq<WorkerState>)
    ensures
        executing_ids(ws).len() + terminated_count(ws) <= ws.len(),
    decreases ws.len(),
{
    if ws.len() > 0 {
        lemma_worker_counts(ws.drop_first());
    }
}

proof fn lemma_all_waiting(ws: Seq<WorkerState>)
    requires
        forall|i: int| 0 <= i < ws.len() ==> ws[i] is Waiting,
    ensures
        executing_ids(ws) == Multiset::<u64>::empty(),
        terminated_count(ws) == 0,
    decreases ws.len(),
{
    if ws.len() > 0 {
        assert forall|i: int| 0 <= i < ws.drop_first().len() implies ws.drop_first()[i]
            is Waiting by {
            assert(ws.drop_first()[i] == ws[i + 1]);
        }
        lemma_all_waiting(ws.drop_first());
        assert(executing_ids(ws) =~= Multiset::<u64>::empty());
    }
}

proof fn lemma_no_terminated(ws: Seq<WorkerState>)
    requires
        terminated_count(ws) == 0,
    ensures
        forall|i: int| 0 <= i < ws.len() ==> !(ws[i] is Terminated),
    decreases ws.len(),
{
    if ws.len() > 0 {
        lemma_no_terminated(ws.drop_first());
        assert forall|i: int| 0 <= i < ws.len() implies !(ws[i] is Terminated) by {
            if i > 0 {
                assert(ws[i] == ws.drop_first()[i - 1]);
            }
        }
    }
}

proof fn lemma_all_terminated_count(ws: Seq<WorkerState>)
    requires
        forall|i: int| 0 <= i < ws.len() ==> ws[i] is Terminated,
    ensures
        terminated_count(ws) == ws.len(),
        executing_ids(ws) == Multiset::<u64>::empty(),
    decreases ws.len(),
{
    if ws.len() > 0 {
        assert forall|i: int| 0 <= i < ws.drop_first().len() implies ws.drop_first()[i]
            is Terminated by {
            assert(ws.drop_first()[i] == ws[i + 1]);
        }
        lemma_all_terminated_count(ws.drop_first());
        assert(executing_ids(ws) =~= Multiset::<u64>::empty());
    }
}

/// The error of the checked constructor: the pool rejects a worker count of
/// zero, since a pool with no workers could never run anything submitted to
/// it.
#[derive(Clone, Copy, Debug, PartialEq, Eq, Structural)]
pub enum PoolError {
    ZeroWorkers,
}

/// The pool: the dispatch channel, the states of its workers, and the
/// bookkeeping that ties the protocol's history together — which task ids
/// were submitted (in order), which were delivered to a worker (in order),
/// and which have run to completion (in completion order, which the protocol
/// leaves open).
///
/// The running system spawns one OS thread per worker and lets each drive
/// `worker_receive` / `worker_finish` for its own index; this model is the
/// sequential view of that protocol, one step at a time.
pub struct ThreadPool {
    channel: Channel,
    workers: Vec<WorkerState>,
    closed: bool,
    submitted_ids: Vec<u64>,
    delivered_ids: Vec<u64>,
    completed_ids: Vec<u64>,
}

impl ThreadPool {
    /// The queued work items, head first.
    pub closed spec fn queue(self) -> Seq<WorkItem> {
        self.channel@
    }

    /// The state of every worker, by worker index.
    pub closed spec fn worker_states(self) -> Seq<WorkerState> {
        self.workers@
    }

    /// The number of workers the pool was built with; never changes.
    pub open spec fn size(self) -> nat {
        self.worker_states().len()
    }

    /// Whether teardown has begun: the terminate sentinels have been sent and
    /// no further task may be submitted.
    pub closed spec fn is_closed(self) -> bool {
        self.closed
    }

    /// The ids of every task ever submitted, in submission order.
    pub closed spec fn submitted(self) -> Seq<u64> {
        self.submitted_ids@
    }

    /// The ids of every task handed to a worker so far, in delivery order.
    pub closed spec fn delivered(self) -> Seq<u64> {
        self.delivered_ids@
    }

    /// The ids of every task that has run to completion, in completion order.
    pub closed spec fn completed(self) -> Seq<u64> {
        self.completed_ids@
    }

    /// The ids of the tasks still queued, in queue order.
    pub open spec fn pending(self) -> Seq<u64> {
        task_ids(self.queue())
    }

    /// The ids of the tasks being executed right now.
    pub open spec fn executing(self) -> Multiset<u64> {
        executing_ids(self.worker_states())
    }

    /// Every worker has consumed its terminate sentinel and exited.
    pub open spec fn all_terminated(self) -> bool {
        forall|w: int| 0 <= w < self.size() ==> self.worker_states()[w] is Terminated
    }

    /// The pool's invariant. Every constructor establishes it and every
    /// operation preserves it:
    /// - there is at least one worker;
    /// - the submission history is exactly the delivery history followed by
    ///   what is still queued, so delivery is FIFO and nothing is lost,
    ///   duplicated or reordered on the way to a worker;
    /// - every delivered task is either completed or executing on exactly one
    ///   worker;
    /// - sentinels sit behind all queued tasks, appear only once the pool is
    ///   closed, and one per worker is accounted for — still queued or
    ///   already consumed by a terminated worker;
    /// - once any worker has terminated, no task is left in the queue.
    pub open spec fn wf(self) -> bool {
        &&& self.size() >= 1
        &&& self.submitted() == self.delivered() + self.pending()
        &&& self.delivered().to_multiset() == self.completed().to_multiset().add(self.executing())
        &&& tasks_precede_terminates(self.queue())
        &&& (!self.is_closed() ==> terminate_count(self.queue()) == 0 && terminated_count(
            self.worker_states(),
        ) == 0)
        &&& (self.is_closed() ==> terminate_count(self.queue()) + terminated_count(
            self.worker_states(),
        ) == self.size())
        &&& (terminated_count(self.worker_states()) > 0 ==> self.pending().len() == 0)
    }

    /// Builds the pool: an empty dispatch channel wired to `thread_num`
    /// waiting workers. A pool needs at least one worker; the checked
    /// constructor `try_new` turns a zero count into an error instead.
    pub fn new(thread_num: usize) -> (pool: ThreadPool)
        requires
            thread_num >= 1,
        ensures
            pool.wf(),
            pool.size() == thread_num,
            !pool.is_closed(),
            pool.submitted() == Seq::<u64>::empty(),
            pool.delivered() == Seq::<u64>::empty(),
            pool.completed() == Seq::<u64>::empty(),
            pool.queue() == Seq::<WorkItem>::empty(),
            forall|w: int| 0 <= w < thread_num ==> pool.worker_states()[w] is Waiting,
    {
        let mut workers: Vec<WorkerState> = Vec::new();
        let mut i: usize = 0;
        while i < thread_num
            invariant
                i <= thread_num,
                workers@.len() == i,
                forall|w: int| 0 <= w < i ==> workers@[w] is Waiting,
            decreases thread_num - i,
        {
            workers.push(WorkerState::Waiting);
            i += 1;
        }
        let pool = ThreadPool {
            channel: Channel::new(),
            workers,
            closed: false,
            submitted_ids: Vec::new(),
            delivered_ids: Vec::new(),
            completed_ids: Vec::new(),
        };
        proof {
            lemma_all_waiting(pool.worker_states());
            assert(pool.submitted() =~= pool.delivered() + pool.pending());
            assert(pool.delivered().to_multiset() =~= pool.completed().to_multiset().add(
                pool.executing(),
            ));
        }
        pool
    }

    /// The checked constructor: the zero-worker count is rejected with
    /// `PoolError::ZeroWorkers`; any positive count builds the pool exactly
    /// as `new` does.
    pub fn try_new(thread_num: usize) -> (r: Result<ThreadPool, PoolError>)
        ensures
            thread_num == 0 ==> r == Result::<ThreadPool, PoolError>::Err(PoolError::ZeroWorkers),
            thread_num >= 1 ==> (r matches Ok(pool) && pool.wf() && pool.size() == thread_num
                && !pool.is_closed() && pool.submitted() == Seq::<u64>::empty()
                && pool.delivered() == Seq::<u64>::empty() && pool.completed() == Seq::<
                u64,
            >::empty() && pool.queue() == Seq::<WorkItem>::empty()),
    {
        if thread_num == 0 {
            Err(PoolError::ZeroWorkers)
        } else {
            Ok(ThreadPool::new(thread_num))
        }
    }

    /// Submits the task with id `task`: wraps it as a work item and sends it
    /// on the channel. Returns immediately — the channel is unbounded, so
    /// submission never blocks — and guarantees only that the task will be
    /// delivered to exactly one worker, in FIFO order relative to other
    /// submissions; which worker runs it, and when, is left open. Only an
    /// open pool accepts work: teardown must come after every submission.
    pub fn execute(&mut self, task: u64)
        requires
            old(self).wf(),
            !old(self).is_closed(),
        ensures
            final(self).wf(),
            !final(self).is_closed(),
            final(self).size() == old(self).size(),
            final(self).queue() == old(self).queue().push(WorkItem::Task(task)),
            final(self).pending() == old(self).pending().push(task),
            final(self).submitted() == old(self).submitted().push(task),
            final(self).delivered() == old(self).delivered(),
            final(self).completed() == old(self).completed(),
            final(self).worker_states() == old(self).worker_states(),
    {
        self.channel.send(WorkItem::Task(task));
        self.submitted_ids.push(task);
        proof {
            let q0 = old(self).queue();
            lemma_task_ids_push(q0, WorkItem::Task(task));
            assert(task_ids(q0) + seq![task] =~= task_ids(q0).push(task));
            assert(final(self).submitted() =~= final(self).delivered() + final(self).pending());
            lemma_no_terminates(q0);
            assert forall|i: int, j: int|
                0 <= i < j < final(self).queue().len() && final(self).queue()[i]
                    is Terminate implies final(self).queue()[j] is Terminate by {
                assert(final(self).queue()[i] == q0[i]);
            }
        }
    }

    /// One receive step of worker `w`, which must be waiting: under the
    /// model's implicit mutual exclusion it removes the head item of the
    /// queue — FIFO, so delivery order is submission order — and takes the
    /// transition that item dictates. A task moves the worker to `Executing`
    /// and is recorded as delivered; the terminate sentinel moves it to
    /// `Terminated`. On an empty queue nothing changes and `None` comes
    /// back, where the real worker would block inside receive.
    pub fn worker_receive(&mut self, w: usize) -> (r: Option<WorkItem>)
        requires
            old(self).wf(),
            w < old(self).size(),
            old(self).worker_states()[w as int] is Waiting,
        ensures
            final(self).wf(),
            final(self).size() == old(self).size(),
            final(self).is_closed() == old(self).is_closed(),
            final(self).submitted() == old(self).submitted(),
            final(self).completed() == old(self).completed(),
            old(self).queue().len() == 0 ==> r is None && *final(self) == *old(self),
            old(self).queue().len() > 0 ==> {
                let item = old(self).queue()[0];
                &&& r == Some(item)
                &&& final(self).queue() == old(self).queue().drop_first()
                &&& (item matches WorkItem::Task(t) ==> {
                    &&& final(self).delivered() == old(self).delivered().push(t)
                    &&& final(self).worker_states() == old(self).worker_states().update(
                        w as int,
                        WorkerState::Executing(t),
                    )
                    &&& final(self).executing() == old(self).executing().insert(t)
                })
                &&& (item is Terminate ==> {
                    &&& final(self).delivered() == old(self).delivered()
                    &&& final(self).worker_states() == old(self).worker_states().update(
                        w as int,
                        WorkerState::Terminated,
                    )
                    &&& final(self).executing() == old(self).executing()
                })
            },
    {
        let got = self.channel.try_receive();
        match got {
            None => None,
            Some(item) => {
                let cur = self.workers[w];
                let next = cur.on_receive(item);
                self.workers.set(w, next);
                if let WorkItem::Task(t) = item {
                    self.delivered_ids.push(t);
                }
                proof {
                    let q0 = old(self).queue();
                    let ws0 = old(self).worker_states();
                    let q1 = self.queue();
                    let ws1 = self.worker_states();
                    assert(q1 =~= q0.drop_first());
                    // the queue's shape survives dropping the head
                    assert forall|i: int, j: int|
                        0 <= i < j < q1.len() && q1[i] is Terminate implies q1[j]
                        is Terminate by {
                        assert(q1[i] == q0[i + 1] && q1[j] == q0[j + 1]);
                    }
                    match item {
                        WorkItem::Task(t) => {
                            lemma_start_executing(ws0, w as int, t);
                            // submission history: [t] moves from pending to delivered
                            assert(task_ids(q0) == seq![t] + task_ids(q1));
                            let d1 = self.delivered();
                            let p1 = self.pending();
                            assert(d1 + p1 =~= old(self).delivered() + (seq![t] + task_ids(q1)));
                            // delivered tasks: t is now executing
                            assert(d1.to_multiset() =~= self.completed().to_multiset().add(
                                self.executing(),
                            ));
                            if terminated_count(ws1) > 0 {
                                // impossible: a task was queued after a worker terminated
                                assert(old(self).pending().len() == 0);
                                assert(old(self).pending() == seq![t] + task_ids(q1));
                            }
                        },
                        WorkItem::Terminate => {
                            lemma_terminate_worker(ws0, w as int);
                            if !old(self).is_closed() {
                                // impossible: sentinels exist only after closing
                                assert(terminate_count(q0) == 0);
                                lemma_no_terminates(q0);
                            }
                            // behind the consumed sentinel only sentinels remain
                            assert forall|i: int| 0 <= i < q1.len() implies q1[i]
                                is Terminate by {
                                assert(q1[i] == q0[i + 1]);
                            }
                            lemma_task_ids_all_terminates(q1);
                            assert(self.submitted() =~= self.delivered() + self.pending());
                        },
                    }
                }
                Some(item)
            },
        }
    }

    /// The task on worker `w`, which must be executing, has run its body to
    /// completion: the worker goes back to `Waiting` and the task's id is
    /// recorded as completed. Completion order across workers is whatever
    /// order these calls come in — the protocol fixes delivery order, not
    /// completion order.
    pub fn worker_finish(&mut self, w: usize)
        requires
            old(self).wf(),
            w < old(self).size(),
            old(self).worker_states()[w as int] is Executing,
        ensures
            final(self).wf(),
            final(self).size() == old(self).size(),
            final(self).is_closed() == old(self).is_closed(),
            final(self).queue() == old(self).queue(),
            final(self).submitted() == old(self).submitted(),
            final(self).delivered() == old(self).delivered(),
            final(self).worker_states() == old(self).worker_states().update(
                w as int,
                WorkerState::Waiting,
            ),
            ({
                let t = old(self).worker_states()[w as int]->Executing_0;
                &&& final(self).completed() == old(self).completed().push(t)
                &&& old(self).executing().count(t) >= 1
                &&& final(self).executing() == old(self).executing().remove(t)
            }),
    {
        let cur = self.workers[w];
        match cur {
            WorkerState::Executing(t) => {
                self.completed_ids.push(t);
                let next = cur.on_finish();
                self.workers.set(w, next);
                proof {
                    lemma_finish_executing(old(self).worker_states(), w as int, t);
                    assert(self.delivered().to_multiset() =~= self.completed().to_multiset().add(
                        self.executing(),
                    ));
                }
            },
            _ => {
                proof {
                    assert(false);
                }
            },
        }
    }

    /// Begins teardown: sends exactly one terminate sentinel per worker, so
    /// that each of the pool's workers eventually dequeues one — behind every
    /// task already queued, FIFO — and exits. After this the pool is closed
    /// and accepts no further work.
    pub fn shutdown(&mut self)
        requires
            old(self).wf(),
            !old(self).is_closed(),
        ensures
            final(self).wf(),
            final(self).is_closed(),
            final(self).size() == old(self).size(),
            final(self).submitted() == old(self).submitted(),
            final(self).delivered() == old(self).delivered(),
            final(self).completed() == old(self).completed(),
            final(self).worker_states() == old(self).worker_states(),
            final(self).pending() == old(self).pending(),
            final(self).queue().len() == old(self).queue().len() + old(self).size(),
            final(self).queue().subrange(0, old(self).queue().len() as int) == old(self).queue(),
            forall|i: int|
                old(self).queue().len() <= i < final(self).queue().len() ==> final(self).queue()[i]
                    is Terminate,
    {
        let count = self.workers.len();
        let mut i: usize = 0;
        while i < count
            invariant
                i <= count,
                self.workers == old(self).workers,
                self.closed == old(self).closed,
                self.submitted_ids == old(self).submitted_ids,
                self.delivered_ids == old(self).delivered_ids,
                self.completed_ids == old(self).completed_ids,
                self.queue().len() == old(self).queue().len() + i,
                self.queue().subrange(0, old(self).queue().len() as int) == old(self).queue(),
                forall|j: int|
                    old(self).queue().len() <= j < self.queue().len() ==> self.queue()[j]
                        is Terminate,
                task_ids(self.queue()) == task_ids(old(self).queue()),
                terminate_count(self.queue()) == i,
                tasks_precede_terminates(self.queue()),
            decreases count - i,
        {
            let ghost q_before = self.queue();
            self.channel.send(WorkItem::Terminate);
            i += 1;
            proof {
                lemma_task_ids_push(q_before, WorkItem::Terminate);
                assert(self.queue().subrange(0, old(self).queue().len() as int) =~= old(
                    self,
                ).queue());
                assert forall|a: int, b: int|
                    0 <= a < b < self.queue().len() && self.queue()[a] is Terminate implies
                    self.queue()[b] is Terminate by {
                    if b < q_before.len() {
                        assert(self.queue()[a] == q_before[a] && self.queue()[b] == q_before[b]);
                    }
                }
            }
        }
        self.closed = true;
        proof {
            assert(!old(self).is_closed() ==> terminated_count(old(self).worker_states()) == 0);
        }
    }

    /// The whole teardown, run to the end: every executing worker finishes
    /// its current task, one terminate sentinel per worker goes out, and each
    /// worker then drains its share of the queue — running every task it
    /// dequeues — until it consumes a sentinel and exits. The caller gets the
    /// pool back only once every worker has terminated, so every task ever
    /// submitted has run to completion: this is the blocking guarantee of
    /// dropping a real pool.
    pub fn close(&mut self)
        requires
            old(self).wf(),
            !old(self).is_closed(),
        ensures
            final(self).wf(),
            final(self).is_closed(),
            final(self).size() == old(self).size(),
            final(self).all_terminated(),
            final(self).submitted() == old(self).submitted(),
            final(self).delivered() == old(self).submitted(),
            final(self).completed().to_multiset() == old(self).submitted().to_multiset(),
            final(self).queue().len() == 0,
            final(self).executing() == Multiset::<u64>::empty(),
    {
        let k = self.workers.len();
        // let every worker that is mid-task finish it
        let mut w: usize = 0;
        while w < k
            invariant
                w <= k,
                self.wf(),
                !self.is_closed(),
                self.size() == k,
                self.submitted() == old(self).submitted(),
                forall|j: int| 0 <= j < w ==> !(self.worker_states()[j] is Executing),
            decreases k - w,
        {
            let st = self.workers[w];
            if let WorkerState::Executing(_) = st {
                self.worker_finish(w);
            }
            w += 1;
        }
        proof {
            lemma_no_terminated(self.worker_states());
            assert forall|j: int| 0 <= j < k implies self.worker_states()[j] is Waiting by {}
            lemma_all_waiting(self.worker_states());
        }
        // send one sentinel per worker
        self.shutdown();
        // each worker in turn drains the queue until it meets its sentinel
        let mut w: usize = 0;
        while w < k
            invariant
                w <= k,
                self.wf(),
                self.is_closed(),
                self.size() == k,
                self.submitted() == old(self).submitted(),
                forall|j: int|
                    0 <= j < k ==> (if j < w {
                        self.worker_states()[j] is Terminated
                    } else {
                        self.worker_states()[j] is Waiting
                    }),
                self.executing() == Multiset::<u64>::empty(),
                terminated_count(self.worker_states()) == w,
            decreases k - w,
        {
            loop
                invariant_except_break
                    self.wf(),
                    self.is_closed(),
                    self.size() == k,
                    self.submitted() == old(self).submitted(),
                    w < k,
                    forall|j: int|
                        0 <= j < k ==> (if j < w {
                            self.worker_states()[j] is Terminated
                        } else {
                            self.worker_states()[j] is Waiting
                        }),
                    self.executing() == Multiset::<u64>::empty(),
                    terminated_count(self.worker_states()) == w,
                ensures
                    self.wf(),
                    self.is_closed(),
                    self.size() == k,
                    self.submitted() == old(self).submitted(),
                    w < k,
                    forall|j: int|
                        0 <= j < k ==> (if j <= w {
                            self.worker_states()[j] is Terminated
                        } else {
                            self.worker_states()[j] is Waiting
                        }),
                    self.executing() == Multiset::<u64>::empty(),
                    terminated_count(self.worker_states()) == w + 1,
                decreases self.queue().len(),
            {
                proof {
                    // the queue still holds this worker's sentinel, so it is
                    // not empty
                    if self.queue().len() == 0 {
                        assert(terminate_count(self.queue()) == 0);
                    }
                }
                let ghost ws_before = self.worker_states();
                let got = self.worker_receive(w);
                match got {
                    Some(item) => match item {
                        WorkItem::Task(t) => {
                            proof {
                                lemma_start_executing(ws_before, w as int, t);
                            }
                            let ghost ws_mid = self.worker_states();
                            self.worker_finish(w);
                            proof {
                                lemma_finish_executing(ws_mid, w as int, t);
                                assert(self.executing() =~= Multiset::<u64>::empty());
                            }
                        },
                        WorkItem::Terminate => {
                            proof {
                                lemma_terminate_worker(ws_before, w as int);
                            }
                            break;
                        },
                    },
                    None => {
                        proof {
                            assert(false);
                        }
                    },
                }
            }
            w += 1;
        }
        proof {
            lemma_clean_shutdown(*self);
            lemma_queue_len(self.queue());
            assert(terminated_count(self.worker_states()) == k);
        }
    }

    /// How many workers the pool was built with.
    pub fn worker_count(&self) -> (n: usize)
        ensures
            n == self.size(),
    {
        self.workers.len()
    }

    /// Whether teardown has begun.
    pub fn is_shut_down(&self) -> (b: bool)
        ensures
            b == self.is_closed(),
    {
        self.closed
    }

    /// The current state of worker `w`.
    pub fn worker_state(&self, w: usize) -> (s: WorkerState)
        requires
            w < self.size(),
        ensures
            s == self.worker_states()[w as int],
    {
        self.workers[w]
    }

    /// How many work items — tasks and sentinels — are queued right now.
    pub fn queued_len(&self) -> (n: usize)
        ensures
            n == self.queue().len(),
    {
        self.channel.len()
    }

    /// The ids of every task ever submitted, in submission order.
    pub fn submitted_log(&self) -> (r: &Vec<u64>)
        ensures
            r@ == self.submitted(),
    {
        &self.submitted_ids
    }

    /// The ids of every task handed to a worker so far, in delivery order.
    pub fn delivered_log(&self) -> (r: &Vec<u64>)
        ensures
            r@ == self.delivered(),
    {
        &self.delivered_ids
    }

    /// The ids of every task that has run to completion, in completion
    /// order.
    pub fn completed_log(&self) -> (r: &Vec<u64>)
        ensures
            r@ == self.completed(),
    {
        &self.completed_ids
    }
}

/// FIFO delivery: whatever has reached a worker so far is exactly the prefix
/// of the submission history with the pending tasks still behind it — tasks
/// are handed out in the order `execute` sent them, with none skipped,
/// duplicated or reordered.
pub proof fn lemma_fifo_delivery(pool: ThreadPool)
    requires
        pool.wf(),
    ensures
        pool.delivered().len() <= pool.submitted().len(),
        pool.delivered() == pool.submitted().subrange(0, pool.delivered().len() as int),
        pool.submitted() == pool.delivered() + pool.pending(),
{
    assert(pool.delivered() =~= pool.submitted().subrange(0, pool.delivered().len() as int));
}

/// Exactly-once delivery: every task id is conserved — as often as it was
/// submitted, exactly that often it is completed, executing or still
/// pending, together. A task submitted once is in exactly one of the three
/// places, so no task runs twice and none is dropped.
pub proof fn lemma_exactly_once(pool: ThreadPool, t: u64)
    requires
        pool.wf(),
    ensures
        pool.completed().to_multiset().count(t) + pool.executing().count(t)
            + pool.pending().to_multiset().count(t) == pool.submitted().to_multiset().count(t),
{
    vstd::seq_lib::lemma_multiset_commutative(pool.delivered(), pool.pending());
    assert(pool.submitted().to_multiset() == pool.delivered().to_multiset().add(
        pool.pending().to_multiset(),
    ));
}

/// Concurrency bound: a pool of size K never has more than K tasks executing
/// at once — each running task occupies one distinct worker of the fixed set.
pub proof fn lemma_concurrency_bound(pool: ThreadPool)
    requires
        pool.wf(),
    ensures
        pool.executing().len() <= pool.size(),
{
    lemma_worker_counts(pool.worker_states());
}

/// Clean shutdown: once every worker has terminated, the queue holds no
/// task, delivery has caught up with submission in order, and the completed
/// tasks are exactly the submitted ones — teardown returns only after all
/// submitted work has run.
pub proof fn lemma_clean_shutdown(pool: ThreadPool)
    requires
        pool.wf(),
        pool.all_terminated(),
    ensures
        pool.pending().len() == 0,
        pool.delivered() == pool.submitted(),
        pool.completed().to_multiset() == pool.submitted().to_multiset(),
        pool.executing() == Multiset::<u64>::empty(),
{
    lemma_all_terminated_count(pool.worker_states());
    assert(terminated_count(pool.worker_states()) == pool.size() >= 1);
    assert(pool.delivered() =~= pool.submitted());
    assert(pool.completed().to_multiset() =~= pool.delivered().to_multiset());
}

} // verus!
