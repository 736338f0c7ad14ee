use krnl::sched::Context;
use krnl::sched::Scheduler;

#[test]
fn three_runnables_interleave_in_order() {
    let mut s = Scheduler::default();
    s.spawn(Context(0xA0), 0);
    s.spawn(Context(0xB0), 1);
    s.spawn(Context(0xC0), 2);
    let mut yields = [0usize; 3];
    let mut order: Vec<(usize, usize)> = Vec::new();
    while let Some(c) = s.run() {
        // which runnable the context belongs to
        let t = match c.0 {
            0xA0 => 0,
            0xB0 => 1,
            _ => 2,
        };
        if yields[t] < 5 {
            order.push((t, yields[t]));
            yields[t] += 1;
            s.enter(false); // cooperative yield: back of the queue
        } else {
            s.enter(true); // the closure returned: done
        }
    }
    // fifteen yields, strictly round-robin
    assert_eq!(order.len(), 15);
    let mut expected = Vec::new();
    for round in 0..5 {
        for task in 0..3 {
            expected.push((task, round));
        }
    }
    assert_eq!(order, expected);
    // the scheduler loop exits cleanly once everything completed
    assert!(s.run().is_none());
}

#[test]
fn preempted_runnable_resumes_with_its_context() {
    let mut s = Scheduler::default();
    s.spawn(Context(0xB51), 0); // a busy loop
    s.spawn(Context(0xC52), 1);
    // the busy runnable is switched in...
    assert_eq!(s.run(), Some(Context(0xB51)));
    // ...the timer interrupt yields on its behalf...
    s.enter(false);
    // ...another ready runnable runs and completes...
    assert_eq!(s.run(), Some(Context(0xC52)));
    s.enter(true);
    // ...and the busy runnable resumes exactly where it was suspended
    assert_eq!(s.run(), Some(Context(0xB51)));
}

#[test]
fn completion_drops_the_runnable_and_advances() {
    let mut s = Scheduler::default();
    s.spawn(Context(1), 7);
    s.spawn(Context(2), 8);
    assert_eq!(s.run(), Some(Context(1)));
    // first entry takes the one-shot task; a second take finds nothing
    assert_eq!(s.current_task(), Some(7));
    assert_eq!(s.take_task(), Some(7));
    assert_eq!(s.take_task(), None);
    // the task returned: its schedulable is dropped, not requeued
    s.enter(true);
    assert_eq!(s.current_task(), None);
    // the scheduler advances to the next runnable without disturbance
    assert_eq!(s.run(), Some(Context(2)));
    s.enter(true);
    assert!(s.run().is_none());
}

#[test]
fn queue_is_first_in_first_out() {
    let mut s = Scheduler::default();
    for i in 0..4 {
        s.spawn(Context(100 + i), i as usize);
    }
    for i in 0..4 {
        assert_eq!(s.run(), Some(Context(100 + i)));
        s.enter(true);
    }
    assert!(s.run().is_none());
}

#[test]
fn a_yielded_runnable_goes_behind_new_spawns() {
    let mut s = Scheduler::default();
    s.spawn(Context(1), 0);
    assert_eq!(s.run(), Some(Context(1)));
    // the running task spawns a sibling, then yields
    s.spawn(Context(2), 1);
    s.enter(false);
    // the sibling was already queued, so it runs first
    assert_eq!(s.run(), Some(Context(2)));
    s.enter(true);
    assert_eq!(s.run(), Some(Context(1)));
}

#[test]
fn yield_with_nothing_running_is_a_no_op() {
    let mut s = Scheduler::default();
    s.spawn(Context(5), 0);
    // a stray timer tick with no current runnable changes nothing
    assert_eq!(s.enter(false), Context(0));
    assert_eq!(s.run(), Some(Context(5)));
    s.enter(true);
    assert!(s.run().is_none());
}

#[test]
fn zeroed_context_is_null() {
    assert_eq!(Context::zeroed(), Context(0));
}
