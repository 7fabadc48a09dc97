use vstd::prelude::*;

verus! {

/// What one poll of a suspendable computation returned.
pub enum Outcome<T> {
    /// The computation finished with this value.
    Ready(T),
    /// The computation is not done yet and must be woken to progress.
    Pending,
}

/// The lifecycle state of one task.
pub enum TaskState<T> {
    /// Spawned or woken, and waiting in the ready queue for a poll.
    Queued,
    /// Its poll is in progress.
    Polling,
    /// Its poll is in progress and its waker fired meanwhile.
    PollingWoken,
    /// Polled, returned `Pending`, and its waker has not fired since.
    Pending,
    /// Its computation returned `Ready` with this value.
    Complete(T),
}

/// What the driver of the executor should do next.
#[derive(Clone, Copy, Debug, PartialEq, Eq, Structural)]
pub enum Step {
    /// The task with this id is to be polled.
    Poll(usize),
    /// Nothing is queued, but some task may still be woken: block until a
    /// waker fires.
    Wait,
    /// Every task has completed.
    Finished,
}

} // verus!
