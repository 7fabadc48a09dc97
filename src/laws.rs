use vstd::prelude::*;

use crate::executor::Sched;
use crate::task::{Outcome, Step, TaskState};

verus! {

/// A task whose poll is in progress is not in the ready queue, so the
/// executor never hands it out for a second, overlapping poll; it stays in
/// progress, and the queue stays well formed, whatever wakes (of any task,
/// itself included) and spawns arrive meanwhile.
pub proof fn lemma_at_most_one_poll<T>(s: Sched<T>, id: usize, other: usize)
    requires
        s.wf(),
        s.is_polling(id),
        s.tasks.len() < usize::MAX,
    ensures
        !s.queue.contains(id),
        s.step() != Step::Poll(id),
        s.woken(other).wf(),
        s.woken(other).is_polling(id),
        s.spawned().wf(),
        s.spawned().is_polling(id),
{
    if s.queue.contains(id) {
        let k = choose|k: int| 0 <= k < s.queue.len() && s.queue[k] == id;
        assert(s.tasks[s.queue[k] as int] is Queued);
    }
    if s.queue.len() > 0 {
        assert(s.queue.contains(s.queue[0]));
    }
    s.lemma_wake(other);
    s.lemma_spawn();
}

/// Waking a task twice before its next poll has the same effect as waking
/// it once: it is queued once, and polled once for that readiness.
pub proof fn lemma_wake_idempotent<T>(s: Sched<T>, id: usize)
    requires
        s.wf(),
    ensures
        s.woken(id).woken(id) == s.woken(id),
        s.woken(id).wf(),
{
    s.lemma_wake(id);
}

/// Waking a task that has completed changes nothing: it is never queued again.
pub proof fn lemma_wake_after_completion<T>(s: Sched<T>, id: usize)
    requires
        s.has_task(id),
        s.tasks[id as int] is Complete,
    ensures
        s.woken(id) == s,
{
}

/// Two tasks made ready, `a` first (by its waker, or already queued since
/// its spawn or an earlier wake) and then `b` by its waker, stand in the
/// ready queue with `a` ahead of `b`, so `a` is polled first.
pub proof fn lemma_fifo_wake<T>(s: Sched<T>, a: usize, b: usize)
    requires
        s.wf(),
        a != b,
        s.has_task(a),
        s.has_task(b),
        s.tasks[a as int] is Pending || s.tasks[a as int] is Queued,
        s.tasks[b as int] is Pending,
    ensures
        s.woken(a).woken(b).wf(),
        s.woken(a).woken(b).queue.contains(a),
        s.woken(a).woken(b).queue.contains(b),
        forall|i: int, j: int|
            0 <= i < s.woken(a).woken(b).queue.len() && 0 <= j < s.woken(a).woken(b).queue.len()
                && s.woken(a).woken(b).queue[i] == a && s.woken(a).woken(b).queue[j] == b ==> i < j,
{
    let s1 = s.woken(a);
    let t = s1.woken(b);
    s.lemma_wake(a);
    s1.lemma_wake(b);
    assert(s1.tasks[b as int] is Pending);
    assert(t.queue == s1.queue.push(b));
    assert(s1.tasks[a as int] is Queued);
    assert(s1.queue.contains(a));
    let k = choose|k: int| 0 <= k < s1.queue.len() && s1.queue[k] == a;
    assert(t.queue[k] == a);
    assert(t.queue[t.queue.len() - 1] == b);
    assert forall|i: int, j: int|
        0 <= i < t.queue.len() && 0 <= j < t.queue.len() && t.queue[i] == a && t.queue[j] == b
            implies i < j by {
        if j < s1.queue.len() {
            assert(s1.queue[j] == b);
            assert(s1.tasks[b as int] is Queued);
        }
        if i == t.queue.len() - 1 {
            assert(t.queue[i] == b);
        }
    }
}

/// A task spawned while task `a` waits in the ready queue (because it was
/// spawned or woken earlier) stands behind `a`, so `a` is polled first.
pub proof fn lemma_fifo_spawn<T>(s: Sched<T>, a: usize)
    requires
        s.wf(),
        s.tasks.len() < usize::MAX,
        s.queue.contains(a),
    ensures
        s.spawned().wf(),
        s.spawned().queue.contains(a),
        s.spawned().queue.contains(s.tasks.len() as usize),
        forall|i: int, j: int|
            0 <= i < s.spawned().queue.len() && 0 <= j < s.spawned().queue.len()
                && s.spawned().queue[i] == a && s.spawned().queue[j] == s.tasks.len() as usize
                ==> i < j,
{
    let t = s.spawned();
    let b = s.tasks.len() as usize;
    s.lemma_spawn();
    let k = choose|k: int| 0 <= k < s.queue.len() && s.queue[k] == a;
    assert(t.queue[k] == a);
    assert(t.queue[t.queue.len() - 1] == b);
    assert((a as int) < s.tasks.len());
    assert forall|i: int, j: int|
        0 <= i < t.queue.len() && 0 <= j < t.queue.len() && t.queue[i] == a && t.queue[j] == b
            implies i < j by {
        if j < s.queue.len() {
            assert(s.queue[j] == b);
        }
        if i == t.queue.len() - 1 {
            assert(t.queue[i] == b);
        }
    }
}

/// The state after `n` rounds in which the task at the front of the queue
/// is polled, returns `Pending`, and is then woken.
pub open spec fn pending_rounds<T>(s: Sched<T>, n: nat) -> Sched<T>
    decreases n,
{
    if n == 0 {
        s
    } else {
        let id = s.queue[0];
        pending_rounds(s.popped().finished(id, Outcome::Pending).woken(id), (n - 1) as nat)
    }
}

/// A computation spawned on an empty executor that returns `Pending` some
/// `n` times, each time with its waker fired during or after that poll, and
/// then `Ready(v)`: it is polled exactly `n + 1` times, the executor then
/// finishes, and the task holds `v` as its output.
pub proof fn lemma_completion<T>(n: nat, v: T)
    ensures
        ({
            let s0 = Sched::<T>::empty().spawned();
            let s = pending_rounds(s0, n);
            &&& s == s0
            &&& s.step() == Step::Poll(0)
            &&& s.popped().woken(0).finished(0, Outcome::Pending) == s.popped().finished(
                0,
                Outcome::Pending,
            ).woken(0)
            &&& s.popped().finished(0, Outcome::Ready(v)).step() == Step::Finished
            &&& s.popped().finished(0, Outcome::Ready(v)).tasks[0] == TaskState::Complete(v)
        }),
    decreases n,
{
    let s0 = Sched::<T>::empty().spawned();
    assert(s0.queue =~= seq![0usize]);
    assert(s0.tasks =~= seq![TaskState::<T>::Queued]);
    let id = s0.queue[0];
    let p = s0.popped();
    assert(p.queue =~= Seq::<usize>::empty());
    assert(p.tasks =~= seq![TaskState::<T>::Polling]);
    let q = p.finished(id, Outcome::Pending);
    assert(q.tasks =~= seq![TaskState::<T>::Pending]);
    let r = q.woken(id);
    assert(r.queue =~= s0.queue);
    assert(r.tasks =~= s0.tasks);
    assert(r == s0);
    let w = p.woken(0).finished(0, Outcome::Pending);
    assert(w.queue =~= r.queue);
    assert(w.tasks =~= r.tasks);
    if n > 0 {
        lemma_completion::<T>((n - 1) as nat, v);
    }
    let f = p.finished(0, Outcome::Ready(v));
    assert(f.tasks =~= seq![TaskState::Complete(v)]);
    assert(f.all_complete());
}

} // verus!
