use mini_tokio::{MiniTokio, Outcome, Step};

/// Drives `rt` until it finishes, answering each poll of a task with
/// `answer(rt, id, n)`, where `n` counts the polls of that task so far.
/// Returns the number of polls made. Panics if the executor has to wait.
fn drive<T, F>(rt: &mut MiniTokio<T>, mut answer: F) -> usize
where
    F: FnMut(&mut MiniTokio<T>, usize, usize) -> Outcome<T>,
{
    let mut counts: Vec<usize> = Vec::new();
    let mut polls: usize = 0;
    loop {
        match rt.next_step() {
            Step::Poll(id) => {
                while counts.len() <= id {
                    counts.push(0);
                }
                counts[id] += 1;
                polls += 1;
                let out = answer(rt, id, counts[id]);
                assert!(rt.finish_poll(id, out));
            }
            Step::Wait => panic!("no task can be woken"),
            Step::Finished => return polls,
        }
    }
}

#[test]
fn empty_executor_finishes() {
    let mut rt: MiniTokio<u32> = MiniTokio::new();
    assert_eq!(rt.next_step(), Step::Finished);
    assert_eq!(rt.output(0), None);
}

#[test]
fn immediate_completion() {
    let mut rt: MiniTokio<&'static str> = MiniTokio::new();
    let id = rt.spawn();
    assert_eq!(id, 0);
    let polls = drive(&mut rt, |_, _, _| Outcome::Ready("x"));
    assert_eq!(polls, 1);
    assert_eq!(rt.output(id), Some(&"x"));
}

#[test]
fn delayed_completion_via_self_wake() {
    let mut rt: MiniTokio<&'static str> = MiniTokio::new();
    let id = rt.spawn();
    let polls = drive(&mut rt, |rt, id, n| {
        if n == 1 {
            rt.wake(id);
            Outcome::Pending
        } else {
            Outcome::Ready("done")
        }
    });
    assert_eq!(polls, 2);
    assert_eq!(rt.output(id), Some(&"done"));
}

#[test]
fn wake_after_pending_requeues() {
    let mut rt: MiniTokio<u8> = MiniTokio::new();
    let id = rt.spawn();
    assert_eq!(rt.next_step(), Step::Poll(id));
    assert!(rt.finish_poll(id, Outcome::Pending));
    // The waker has not fired: the run loop must block, not stop.
    assert_eq!(rt.next_step(), Step::Wait);
    assert_eq!(rt.next_step(), Step::Wait);
    assert_eq!(rt.output(id), None);
    // A wake from elsewhere arrives.
    rt.wake(id);
    assert_eq!(rt.next_step(), Step::Poll(id));
    assert!(rt.finish_poll(id, Outcome::Ready(7)));
    assert_eq!(rt.next_step(), Step::Finished);
    assert_eq!(rt.output(id), Some(&7));
}

#[test]
fn repeated_wake_polls_once() {
    let mut rt: MiniTokio<u8> = MiniTokio::new();
    let id = rt.spawn();
    assert_eq!(rt.next_step(), Step::Poll(id));
    assert!(rt.finish_poll(id, Outcome::Pending));
    rt.wake(id);
    rt.wake(id);
    rt.wake(id);
    assert_eq!(rt.next_step(), Step::Poll(id));
    // Only one poll was triggered: nothing else is queued.
    assert_eq!(rt.next_step(), Step::Wait);
    assert!(rt.finish_poll(id, Outcome::Ready(1)));
    assert_eq!(rt.next_step(), Step::Finished);
}

#[test]
fn wake_while_queued_is_harmless() {
    let mut rt: MiniTokio<u8> = MiniTokio::new();
    let id = rt.spawn();
    rt.wake(id);
    rt.wake(id);
    assert_eq!(rt.next_step(), Step::Poll(id));
    assert_eq!(rt.next_step(), Step::Wait);
}

#[test]
fn wake_during_poll_never_overlaps() {
    let mut rt: MiniTokio<u8> = MiniTokio::new();
    let id = rt.spawn();
    assert_eq!(rt.next_step(), Step::Poll(id));
    rt.wake(id);
    rt.wake(id);
    // The task is being polled: it must not be handed out again yet.
    assert_eq!(rt.next_step(), Step::Wait);
    assert!(rt.finish_poll(id, Outcome::Pending));
    // The wake that came during the poll takes effect now, once.
    assert_eq!(rt.next_step(), Step::Poll(id));
    assert_eq!(rt.next_step(), Step::Wait);
    assert!(rt.finish_poll(id, Outcome::Ready(2)));
    assert_eq!(rt.next_step(), Step::Finished);
}

#[test]
fn spawn_order_is_poll_order() {
    let mut rt: MiniTokio<u8> = MiniTokio::new();
    let a = rt.spawn();
    let b = rt.spawn();
    assert_eq!((a, b), (0, 1));
    assert_eq!(rt.next_step(), Step::Poll(a));
    assert_eq!(rt.next_step(), Step::Poll(b));
}

#[test]
fn wake_order_is_poll_order() {
    let mut rt: MiniTokio<u8> = MiniTokio::new();
    let a = rt.spawn();
    let b = rt.spawn();
    assert_eq!(rt.next_step(), Step::Poll(a));
    assert!(rt.finish_poll(a, Outcome::Pending));
    assert_eq!(rt.next_step(), Step::Poll(b));
    assert!(rt.finish_poll(b, Outcome::Pending));
    rt.wake(b);
    rt.wake(a);
    assert_eq!(rt.next_step(), Step::Poll(b));
    assert_eq!(rt.next_step(), Step::Poll(a));
}

#[test]
fn wake_after_completion_is_noop() {
    let mut rt: MiniTokio<u8> = MiniTokio::new();
    let id = rt.spawn();
    assert_eq!(drive(&mut rt, |_, _, _| Outcome::Ready(5)), 1);
    rt.wake(id);
    rt.wake(id);
    assert_eq!(rt.next_step(), Step::Finished);
    assert_eq!(rt.output(id), Some(&5));
}

#[test]
fn wake_of_unknown_task_is_noop() {
    let mut rt: MiniTokio<u8> = MiniTokio::new();
    rt.wake(3);
    assert_eq!(rt.next_step(), Step::Finished);
    let id = rt.spawn();
    rt.wake(id + 1);
    assert_eq!(rt.next_step(), Step::Poll(id));
    assert_eq!(rt.next_step(), Step::Wait);
}

#[test]
fn finish_without_poll_is_refused() {
    let mut rt: MiniTokio<u8> = MiniTokio::new();
    assert!(!rt.finish_poll(0, Outcome::Ready(1)));
    let id = rt.spawn();
    // Queued, not being polled.
    assert!(!rt.finish_poll(id, Outcome::Ready(1)));
    assert_eq!(rt.output(id), None);
    assert_eq!(rt.next_step(), Step::Poll(id));
    assert!(rt.finish_poll(id, Outcome::Ready(1)));
    // Complete: a second outcome is refused and changes nothing.
    assert!(!rt.finish_poll(id, Outcome::Ready(9)));
    assert_eq!(rt.output(id), Some(&1));
}

#[test]
fn waits_while_any_task_is_unfinished() {
    let mut rt: MiniTokio<u8> = MiniTokio::new();
    let a = rt.spawn();
    let b = rt.spawn();
    assert_eq!(rt.next_step(), Step::Poll(a));
    assert!(rt.finish_poll(a, Outcome::Ready(1)));
    assert_eq!(rt.next_step(), Step::Poll(b));
    assert!(rt.finish_poll(b, Outcome::Pending));
    assert_eq!(rt.next_step(), Step::Wait);
    rt.wake(b);
    assert_eq!(rt.next_step(), Step::Poll(b));
    assert!(rt.finish_poll(b, Outcome::Ready(2)));
    assert_eq!(rt.next_step(), Step::Finished);
    assert_eq!(rt.output(a), Some(&1));
    assert_eq!(rt.output(b), Some(&2));
}

#[test]
fn many_pending_rounds_then_ready() {
    let mut rt: MiniTokio<u64> = MiniTokio::new();
    let id = rt.spawn();
    let polls = drive(&mut rt, |rt, id, n| {
        rt.wake(id);
        if n < 10 {
            Outcome::Pending
        } else {
            Outcome::Ready(n as u64)
        }
    });
    assert_eq!(polls, 10);
    assert_eq!(rt.output(id), Some(&10));
}
