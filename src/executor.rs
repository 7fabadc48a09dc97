use std::collections::VecDeque;
use vstd::prelude::*;

use crate::task::{Outcome, Step, TaskState};

verus! {

/// The abstract state of an executor: the ready queue, front first, and the
/// state of every task, indexed by task id.
pub ghost struct Sched<T> {
    pub queue: Seq<usize>,
    pub tasks: Seq<TaskState<T>>,
}

impl<T> Sched<T> {
    /// An executor with no tasks.
    pub open spec fn empty() -> Self {
        Sched { queue: Seq::empty(), tasks: Seq::empty() }
    }

    /// Every task id fits in a `usize`; the queue holds each task at most
    /// once, holds exactly the tasks in state `Queued`, and only ids of
    /// existing tasks.
    pub open spec fn wf(self) -> bool {
        &&& self.tasks.len() <= usize::MAX
        &&& self.queue.no_duplicates()
        &&& forall|i: int|
            0 <= i < self.queue.len() ==> (self.queue[i] as int) < self.tasks.len()
                && self.tasks[self.queue[i] as int] is Queued
        &&& forall|id: int|
            0 <= id < self.tasks.len() && self.tasks[id] is Queued ==> self.queue.contains(
                id as usize,
            )
    }

    /// `id` names a task that was spawned.
    pub open spec fn has_task(self, id: usize) -> bool {
        (id as int) < self.tasks.len()
    }

    /// The task's poll is in progress.
    pub open spec fn is_polling(self, id: usize) -> bool {
        self.has_task(id) && (self.tasks[id as int] is Polling || self.tasks[id as int] is PollingWoken)
    }

    /// Every task has completed.
    pub open spec fn all_complete(self) -> bool {
        forall|id: int| 0 <= id < self.tasks.len() ==> self.tasks[id] is Complete
    }

    /// A new task, with the next free id, is queued at the back.
    pub open spec fn spawned(self) -> Self {
        Sched {
            queue: self.queue.push(self.tasks.len() as usize),
            tasks: self.tasks.push(TaskState::Queued),
        }
    }

    /// The task's waker fired: a pending task is queued at the back, a task
    /// being polled is marked to be queued again once its poll returns, and
    /// in every other case (already queued, complete, unknown) nothing changes.
    pub open spec fn woken(self, id: usize) -> Self {
        if self.has_task(id) {
            match self.tasks[id as int] {
                TaskState::Pending => Sched {
                    queue: self.queue.push(id),
                    tasks: self.tasks.update(id as int, TaskState::Queued),
                },
                TaskState::Polling => Sched {
                    queue: self.queue,
                    tasks: self.tasks.update(id as int, TaskState::PollingWoken),
                },
                _ => self,
            }
        } else {
            self
        }
    }

    /// The front of the queue is taken off and its poll begins.
    pub open spec fn popped(self) -> Self {
        Sched {
            queue: self.queue.drop_first(),
            tasks: self.tasks.update(self.queue[0] as int, TaskState::Polling),
        }
    }

    /// The poll of the task returned `outcome`: `Ready` completes the task
    /// with its value; `Pending` leaves it waiting for its waker, or queues
    /// it at the back if the waker fired during the poll.
    pub open spec fn finished(self, id: usize, outcome: Outcome<T>) -> Self {
        match outcome {
            Outcome::Ready(v) => Sched {
                queue: self.queue,
                tasks: self.tasks.update(id as int, TaskState::Complete(v)),
            },
            Outcome::Pending => if self.tasks[id as int] is PollingWoken {
                Sched {
                    queue: self.queue.push(id),
                    tasks: self.tasks.update(id as int, TaskState::Queued),
                }
            } else {
                Sched { queue: self.queue, tasks: self.tasks.update(id as int, TaskState::Pending) }
            },
        }
    }

    /// The next thing to do: poll the front of the queue; else wait for a
    /// waker while some task is unfinished; else stop.
    pub open spec fn step(self) -> Step {
        if self.queue.len() > 0 {
            Step::Poll(self.queue[0])
        } else if self.all_complete() {
            Step::Finished
        } else {
            Step::Wait
        }
    }

    /// The state after `step` was taken.
    pub open spec fn stepped(self) -> Self {
        if self.queue.len() > 0 {
            self.popped()
        } else {
            self
        }
    }

    /// Spawning keeps the queue well formed.
    pub proof fn lemma_spawn(self)
        requires
            self.wf(),
            self.tasks.len() < usize::MAX,
        ensures
            self.spawned().wf(),
    {
        let t = self.spawned();
        let id = self.tasks.len() as usize;
        assert forall|i: int| 0 <= i < t.queue.len() implies (t.queue[i] as int) < t.tasks.len()
            && t.tasks[t.queue[i] as int] is Queued by {
            if i < self.queue.len() {
                assert(t.queue[i] == self.queue[i]);
            }
        }
        assert forall|j: int| 0 <= j < t.tasks.len() && t.tasks[j] is Queued implies t.queue.contains(
            j as usize,
        ) by {
            if j < self.tasks.len() {
                assert(self.queue.contains(j as usize));
                let k = choose|k: int| 0 <= k < self.queue.len() && self.queue[k] == j as usize;
                assert(t.queue[k] == j as usize);
            } else {
                assert(t.queue[t.queue.len() - 1] == j as usize);
            }
        }
        assert forall|a: int, b: int| 0 <= a < t.queue.len() && 0 <= b < t.queue.len() && a != b
            implies t.queue[a] != t.queue[b] by {
            if a < self.queue.len() && b < self.queue.len() {
            } else if a < self.queue.len() {
                assert((t.queue[a] as int) < self.tasks.len());
            } else {
                assert((t.queue[b] as int) < self.tasks.len());
            }
        }
    }

    /// Delivering a wake keeps the queue well formed.
    pub proof fn lemma_wake(self, id: usize)
        requires
            self.wf(),
        ensures
            self.woken(id).wf(),
    {
        if self.has_task(id) {
            match self.tasks[id as int] {
                TaskState::Pending => self.lemma_enqueue(id),
                TaskState::Polling => self.lemma_retag(id, TaskState::PollingWoken),
                _ => {},
            }
        }
    }

    /// Queuing a task that was not queued keeps the queue well formed.
    pub proof fn lemma_enqueue(self, id: usize)
        requires
            self.wf(),
            self.has_task(id),
            !(self.tasks[id as int] is Queued),
        ensures
            (Sched {
                queue: self.queue.push(id),
                tasks: self.tasks.update(id as int, TaskState::Queued),
            }).wf(),
    {
        let t = Sched {
            queue: self.queue.push(id),
            tasks: self.tasks.update(id as int, TaskState::Queued),
        };
        assert(!self.queue.contains(id));
        assert forall|i: int| 0 <= i < t.queue.len() implies (t.queue[i] as int) < t.tasks.len()
            && t.tasks[t.queue[i] as int] is Queued by {
            if i < self.queue.len() {
                assert(t.queue[i] == self.queue[i]);
            }
        }
        assert forall|j: int| 0 <= j < t.tasks.len() && t.tasks[j] is Queued implies t.queue.contains(
            j as usize,
        ) by {
            if j != id as int {
                let k = choose|k: int| 0 <= k < self.queue.len() && self.queue[k] == j as usize;
                assert(t.queue[k] == j as usize);
            } else {
                assert(t.queue[t.queue.len() - 1] == j as usize);
            }
        }
        assert forall|a: int, b: int| 0 <= a < t.queue.len() && 0 <= b < t.queue.len() && a != b
            implies t.queue[a] != t.queue[b] by {
            if a < self.queue.len() && b < self.queue.len() {
            } else if a < self.queue.len() {
                assert(self.queue[a] != id);
            } else {
                assert(self.queue[b] != id);
            }
        }
    }

    /// Moving a task that is not queued to another state that is not queued
    /// keeps the queue well formed.
    pub proof fn lemma_retag(self, id: usize, st: TaskState<T>)
        requires
            self.wf(),
            self.has_task(id),
            !(self.tasks[id as int] is Queued),
            !(st is Queued),
        ensures
            (Sched { queue: self.queue, tasks: self.tasks.update(id as int, st) }).wf(),
    {
        let t = Sched { queue: self.queue, tasks: self.tasks.update(id as int, st) };
        assert forall|i: int| 0 <= i < t.queue.len() implies (t.queue[i] as int) < t.tasks.len()
            && t.tasks[t.queue[i] as int] is Queued by {
            assert(self.tasks[self.queue[i] as int] is Queued);
        }
    }

    /// Taking the front off a non-empty queue and starting its poll keeps the
    /// queue well formed.
    pub proof fn lemma_pop(self)
        requires
            self.wf(),
            self.queue.len() > 0,
        ensures
            self.popped().wf(),
            !self.popped().queue.contains(self.queue[0]),
    {
        let t = self.popped();
        let id = self.queue[0];
        assert forall|i: int| 0 <= i < t.queue.len() implies (t.queue[i] as int) < t.tasks.len()
            && t.tasks[t.queue[i] as int] is Queued by {
            assert(t.queue[i] == self.queue[i + 1]);
            assert(self.queue[i + 1] != self.queue[0]);
        }
        assert forall|j: int| 0 <= j < t.tasks.len() && t.tasks[j] is Queued implies t.queue.contains(
            j as usize,
        ) by {
            assert(j != id as int);
            assert(self.tasks[j] is Queued);
            assert(self.queue.contains(j as usize));
            let k = choose|k: int| 0 <= k < self.queue.len() && self.queue[k] == j as usize;
            assert(self.queue[k] as int == j);
            assert(k != 0);
            assert(t.queue[k - 1] == j as usize);
        }
        assert forall|a: int, b: int| 0 <= a < t.queue.len() && 0 <= b < t.queue.len() && a != b
            implies t.queue[a] != t.queue[b] by {
            assert(t.queue[a] == self.queue[a + 1]);
            assert(t.queue[b] == self.queue[b + 1]);
        }
        if t.queue.contains(id) {
            let k = choose|k: int| 0 <= k < t.queue.len() && t.queue[k] == id;
            assert(self.queue[k + 1] == self.queue[0]);
        }
    }
}

/// The scheduling core of an executor: the ready queue of task ids and the
/// lifecycle state of each task, whose computation yields a `T`.
pub struct MiniTokio<T> {
    todo: VecDeque<usize>,
    tasks: Vec<TaskState<T>>,
}

impl<T> View for MiniTokio<T> {
    type V = Sched<T>;

    closed spec fn view(&self) -> Sched<T> {
        Sched { queue: self.todo@, tasks: self.tasks@ }
    }
}

impl<T> MiniTokio<T> {
    /// The invariant that every method keeps.
    pub open spec fn wf(&self) -> bool {
        self@.wf()
    }

    /// An executor with no tasks and an empty ready queue.
    pub fn new() -> (r: Self)
        ensures
            r@ == Sched::<T>::empty(),
            r.wf(),
    {
        let r = MiniTokio { todo: VecDeque::new(), tasks: Vec::new() };
        assert(r@.queue =~= Seq::<usize>::empty());
        assert(r@.tasks =~= Seq::<TaskState<T>>::empty());
        r
    }

    /// Wraps a new computation in a task with the next free id and queues it
    /// at the back of the ready queue. Returns the task's id.
    pub fn spawn(&mut self) -> (id: usize)
        requires
            old(self).wf(),
            old(self)@.tasks.len() < usize::MAX,
        ensures
            id == old(self)@.tasks.len(),
            final(self)@ == old(self)@.spawned(),
            final(self).wf(),
    {
        let id = self.tasks.len();
        assert(id as int == old(self)@.tasks.len());
        self.tasks.push(TaskState::Queued);
        self.todo.push_back(id);
        proof {
            old(self)@.lemma_spawn();
        }
        assert(self@ =~= old(self)@.spawned());
        id
    }

    /// Delivers a waker invocation for task `id`. A pending task is queued
    /// at the back; a task being polled is queued again once its poll
    /// returns `Pending`; a queued or complete task, or an unknown id, is left
    /// as it is.
    pub fn wake(&mut self, id: usize)
        requires
            old(self).wf(),
        ensures
            final(self)@ == old(self)@.woken(id),
            final(self).wf(),
    {
        if id < self.tasks.len() {
            if matches!(self.tasks[id], TaskState::Pending) {
                proof {
                    self@.lemma_enqueue(id);
                }
                self.tasks.set(id, TaskState::Queued);
                self.todo.push_back(id);
                assert(self@ =~= old(self)@.woken(id));
            } else if matches!(self.tasks[id], TaskState::Polling) {
                proof {
                    self@.lemma_retag(id, TaskState::PollingWoken);
                }
                self.tasks.set(id, TaskState::PollingWoken);
                assert(self@ =~= old(self)@.woken(id));
            }
        }
    }

    /// Decides what the driver does next and, when that is a poll, takes the
    /// task off the front of the ready queue and marks its poll as begun.
    pub fn next_step(&mut self) -> (s: Step)
        requires
            old(self).wf(),
        ensures
            s == old(self)@.step(),
            final(self)@ == old(self)@.stepped(),
            final(self).wf(),
    {
        match self.todo.pop_front() {
            Some(id) => {
                proof {
                    old(self)@.lemma_pop();
                }
                self.tasks.set(id, TaskState::Polling);
                assert(self@ =~= old(self)@.popped());
                Step::Poll(id)
            },
            None => {
                let mut i: usize = 0;
                while i < self.tasks.len()
                    invariant
                        self@ == old(self)@,
                        old(self)@.queue.len() == 0,
                        old(self).wf(),
                        0 <= i <= self.tasks@.len(),
                        forall|j: int| 0 <= j < i ==> self.tasks@[j] is Complete,
                    decreases self.tasks@.len() - i,
                {
                    if !matches!(self.tasks[i], TaskState::Complete(_)) {
                        assert(!(self@.tasks[i as int] is Complete));
                        assert(!old(self)@.all_complete());
                        return Step::Wait;
                    }
                    i = i + 1;
                }
                Step::Finished
            },
        }
    }

    /// Records that the poll of task `id` returned `outcome`. Returns `false`,
    /// changing nothing, when no poll of that task is in progress.
    pub fn finish_poll(&mut self, id: usize, outcome: Outcome<T>) -> (accepted: bool)
        requires
            old(self).wf(),
        ensures
            accepted == old(self)@.is_polling(id),
            accepted ==> final(self)@ == old(self)@.finished(id, outcome),
            !accepted ==> final(self)@ == old(self)@,
            final(self).wf(),
    {
        if id >= self.tasks.len() {
            return false;
        }
        let woken_meanwhile = matches!(self.tasks[id], TaskState::PollingWoken);
        if !woken_meanwhile && !matches!(self.tasks[id], TaskState::Polling) {
            return false;
        }
        match outcome {
            Outcome::Ready(v) => {
                proof {
                    self@.lemma_retag(id, TaskState::Complete(v));
                }
                self.tasks.set(id, TaskState::Complete(v));
            },
            Outcome::Pending => {
                if woken_meanwhile {
                    proof {
                        self@.lemma_enqueue(id);
                    }
                    self.tasks.set(id, TaskState::Queued);
                    self.todo.push_back(id);
                } else {
                    proof {
                        self@.lemma_retag(id, TaskState::Pending);
                    }
                    self.tasks.set(id, TaskState::Pending);
                }
            },
        }
        assert(self@ =~= old(self)@.finished(id, outcome));
        true
    }

    /// The value that task `id` completed with, if it has completed.
    pub fn output(&self, id: usize) -> (r: Option<&T>)
        ensures
            r is Some <==> (self@.has_task(id) && self@.tasks[id as int] is Complete),
            r is Some ==> *r->0 == self@.tasks[id as int]->0,
    {
        if id < self.tasks.len() {
            match &self.tasks[id] {
                TaskState::Complete(v) => Some(v),
                _ => None,
            }
        } else {
            None
        }
    }
}

} // verus!
