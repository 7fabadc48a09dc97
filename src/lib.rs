//! A small cooperative task executor, reduced to its scheduling core.
//!
//! `MiniTokio` keeps the ready queue and the lifecycle state of every task.
//! It does not hold the suspendable computations themselves: whoever drives
//! the executor asks it which task to poll next, polls that task's
//! computation, hands the outcome back, and forwards every waker
//! invocation as a call of `wake`.
pub mod task;
pub mod executor;
pub mod laws;

pub use executor::{MiniTokio, Sched};
pub use task::{Outcome, Step, TaskState};
