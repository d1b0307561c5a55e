//! The cooperative task executor: the table of live tasks and the queue of
//! tasks that are ready to be polled. Polling a task and waking it are done by
//! the caller; the executor decides which task runs next and forgets tasks
//! that completed.
use vstd::prelude::*;
use std::collections::BTreeSet;
use std::sync::Arc;
use crossbeam_queue::ArrayQueue;
use crate::queue::{queue_capacity, queue_is_empty, queue_new, queue_pop, queue_push};

verus! {

/// Number of task ids that the ready queue can hold.
pub const TASK_QUEUE_CAPACITY: usize = 100;

/// The identity of a task.
#[derive(Clone, Copy, Debug, PartialEq, Eq, PartialOrd, Ord, Hash, Structural)]
pub struct TaskId(pub u64);

/// The ready queue was full.
#[derive(Clone, Copy, Debug, PartialEq, Eq, Structural)]
pub struct QueueFull;

/// What the executor found in the ready queue.
#[derive(Clone, Copy, Debug, PartialEq, Eq, Structural)]
pub enum NextTask {
    /// The queue was empty.
    Empty,
    /// A task that completed earlier was woken; it is skipped.
    Stale(TaskId),
    /// A live task is ready to be polled.
    Run(TaskId),
}

/// The live tasks and the ready queue.
pub struct Executor {
    tasks: BTreeSet<u64>,
    task_queue: Arc<ArrayQueue<u64>>,
    next_id: u64,
}

impl Executor {
    /// The ids of the live tasks.
    pub closed spec fn live(&self) -> Set<u64> {
        self.tasks@
    }

    /// The id that the next spawned task gets.
    pub closed spec fn next_task_id(&self) -> u64 {
        self.next_id
    }

    /// The ready queue, which the wakers of the tasks share.
    pub closed spec fn ready_queue(&self) -> Arc<ArrayQueue<u64>> {
        self.task_queue
    }

    /// What the executor does with an id taken from the ready queue (`None`
    /// when the queue was empty): run the task if it is live, skip it otherwise.
    pub open spec fn classify_spec(&self, popped: Option<u64>) -> NextTask {
        match popped {
            None => NextTask::Empty,
            Some(raw) => if self.live().contains(raw) {
                NextTask::Run(TaskId(raw))
            } else {
                NextTask::Stale(TaskId(raw))
            },
        }
    }

    /// Every live task id is below the id of the next task, so the next id
    /// is fresh.
    pub open spec fn wf(&self) -> bool {
        forall|id: u64| #[trigger] self.live().contains(id) ==> id < self.next_task_id()
    }

    /// An executor without tasks, with a ready queue of `TASK_QUEUE_CAPACITY` ids.
    pub fn new() -> (r: Self)
        ensures
            r.wf(),
            r.live() == Set::<u64>::empty(),
            r.next_task_id() == 0,
            queue_capacity(*r.ready_queue()) == TASK_QUEUE_CAPACITY,
    {
        Executor {
            tasks: BTreeSet::new(),
            task_queue: Arc::new(queue_new(TASK_QUEUE_CAPACITY)),
            next_id: 0,
        }
    }

    /// The id that the next spawned task gets.
    pub fn next_id(&self) -> (r: u64)
        ensures
            r == self.next_task_id(),
    {
        self.next_id
    }

    /// Whether `id` is a live task.
    pub fn contains(&self, id: TaskId) -> (r: bool)
        ensures
            r == self.live().contains(id.0),
    {
        broadcast use vstd::std_specs::btree::axiom_set_contains_deref_key;

        self.tasks.contains(&id.0)
    }

    /// Registers a new task under the next id, which no live task has, and
    /// advances the id counter; returns the id. The counter must not be at
    /// its maximum.
    pub fn register_task(&mut self) -> (id: TaskId)
        requires
            old(self).wf(),
            old(self).next_task_id() < u64::MAX,
        ensures
            final(self).wf(),
            id.0 == old(self).next_task_id(),
            !old(self).live().contains(id.0),
            final(self).next_task_id() == old(self).next_task_id() + 1,
            final(self).live() == old(self).live().insert(id.0),
            final(self).ready_queue() == old(self).ready_queue(),
    {
        let id = TaskId(self.next_id);
        self.next_id = self.next_id + 1;
        self.tasks.insert(id.0);
        assert forall|x: u64| #[trigger] self.live().contains(x) implies x < self.next_task_id() by {
            if x != id.0 {
                assert(old(self).live().contains(x));
            }
        }
        id
    }

    /// Registers a new task under a fresh id (see `register_task`) and queues
    /// that id to be polled. The task is registered even when the queue is
    /// full, which is reported as `Err` together with the id.
    pub fn spawn(&mut self) -> (r: Result<TaskId, (TaskId, QueueFull)>)
        requires
            old(self).wf(),
            old(self).next_task_id() < u64::MAX,
        ensures
            final(self).wf(),
            !old(self).live().contains(old(self).next_task_id()),
            final(self).next_task_id() == old(self).next_task_id() + 1,
            final(self).live() == old(self).live().insert(old(self).next_task_id()),
            final(self).ready_queue() == old(self).ready_queue(),
            match r {
                Ok(id) => id.0 == old(self).next_task_id(),
                Err((id, _)) => id.0 == old(self).next_task_id(),
            },
    {
        let id = self.register_task();
        match queue_push(&self.task_queue, id.0) {
            Ok(()) => Ok(id),
            Err(_) => Err((id, QueueFull)),
        }
    }

    /// Takes the next id from the ready queue and tells whether it belongs to
    /// a live task.
    pub fn next_task(&mut self) -> (r: NextTask)
        requires
            old(self).wf(),
        ensures
            final(self).wf(),
            final(self).live() == old(self).live(),
            final(self).next_task_id() == old(self).next_task_id(),
            final(self).ready_queue() == old(self).ready_queue(),
            exists|popped: Option<u64>| r == old(self).classify_spec(popped),
    {
        let popped = queue_pop(&self.task_queue);
        self.classify(popped)
    }

    /// What to do with `popped`, an id taken from the ready queue (`None`
    /// when the queue was empty).
    pub fn classify(&self, popped: Option<u64>) -> (r: NextTask)
        ensures
            r == self.classify_spec(popped),
    {
        match popped {
            None => NextTask::Empty,
            Some(raw) => {
                let id = TaskId(raw);
                if self.contains(id) {
                    NextTask::Run(id)
                } else {
                    NextTask::Stale(id)
                }
            },
        }
    }

    /// Forgets a task that completed.
    pub fn task_finished(&mut self, id: TaskId)
        requires
            old(self).wf(),
        ensures
            final(self).wf(),
            final(self).live() == old(self).live().remove(id.0),
            final(self).next_task_id() == old(self).next_task_id(),
            final(self).ready_queue() == old(self).ready_queue(),
    {
        broadcast use vstd::std_specs::btree::axiom_set_deref_key_removed;

        self.tasks.remove(&id.0);
        assert forall|x: u64| #[trigger] self.live().contains(x) implies x < self.next_task_id() by {
            assert(old(self).live().contains(x));
        }
    }

    /// Whether the ready queue was empty when it was looked at.
    pub fn queue_is_empty(&self) -> bool {
        queue_is_empty(&self.task_queue)
    }

    /// The ready queue, for the wakers of the tasks.
    pub fn task_queue(&self) -> (r: &Arc<ArrayQueue<u64>>)
        ensures
            *r == self.ready_queue(),
    {
        &self.task_queue
    }
}

/// Queues the task `id` to be polled again.
pub fn wake_task(queue: &ArrayQueue<u64>, id: TaskId) -> (r: Result<(), QueueFull>) {
    match queue_push(queue, id.0) {
        Ok(()) => Ok(()),
        Err(_) => Err(QueueFull),
    }
}

} // verus!
