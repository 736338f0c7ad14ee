//! Cooperative scheduler: a first-in-first-out run queue of schedulables,
//! each a saved stack context plus a one-shot task, and the decisions that
//! drive them — pick the front, requeue on a yield, drop on completion.
//! Swapping stacks is the machine's part; these functions decide which
//! context runs next and account for the queue.

use std::collections::VecDeque;
use vstd::prelude::*;

verus! {

/// A saved stack pointer, opaque to the scheduler: where a suspended
/// schedulable (or the scheduler loop itself) resumes.
#[derive(Clone, Copy, Debug, PartialEq, Eq, Structural)]
pub struct Context(pub usize);

impl Context {
    /// The null context: discards whatever was running when loaded over.
    pub fn zeroed() -> (r: Context)
        ensures
            r.0 == 0,
    {
        Context(0)
    }

    /// The words a fresh context writes at the top of its stack, lowest
    /// address first: one zeroed slot for each of the four callee-saved
    /// registers, then the entry point, which the first return pops.  The
    /// saved stack pointer starts at the lowest slot.
    pub fn bootstrap_frame(entry_point: usize) -> (r: Vec<usize>)
        ensures
            r@ == seq![0usize, 0, 0, 0, entry_point],
    {
        let mut r: Vec<usize> = Vec::new();
        r.push(0);
        r.push(0);
        r.push(0);
        r.push(0);
        r.push(entry_point);
        proof {
            assert(r@ =~= seq![0usize, 0, 0, 0, entry_point]);
        }
        r
    }

    /// As `bootstrap_frame`, with the six callee-saved registers of the
    /// four-level architecture.
    pub fn bootstrap_frame_long(entry_point: u64) -> (r: Vec<u64>)
        ensures
            r@ == seq![0u64, 0, 0, 0, 0, 0, entry_point],
    {
        let mut r: Vec<u64> = Vec::new();
        let mut i: usize = 0;
        while i < 6
            invariant
                i == r@.len() <= 6,
                forall|k: int| 0 <= k < i ==> r@[k] == 0u64,
            decreases 6 - i,
        {
            r.push(0);
            i = i + 1;
        }
        r.push(entry_point);
        proof {
            assert(r@ =~= seq![0u64, 0, 0, 0, 0, 0, entry_point]);
        }
        r
    }
}

/// One schedulable unit of work: its saved context and, until its first
/// entry, the one-shot task it will run.
pub struct Schedulable {
    pub context: Context,
    pub task: Option<usize>,
}

impl Schedulable {
    /// A schedulable that will enter its task when first switched to.
    pub fn new(context: Context, task: usize) -> (r: Schedulable)
        ensures
            r.context == context,
            r.task == Some(task),
    {
        Schedulable { context, task: Some(task) }
    }
}

/// One scheduler per processor: the scheduler loop's own context, the
/// first-in-first-out run queue, and the schedulable now running.
pub struct Scheduler {
    context: Context,
    work_queue: VecDeque<Schedulable>,
    work: Option<Schedulable>,
}

impl Scheduler {
    /// The run queue, front first.
    pub closed spec fn spec_queue(&self) -> Seq<Schedulable> {
        self.work_queue@
    }

    /// The schedulable now running, if any.
    pub closed spec fn spec_work(&self) -> Option<Schedulable> {
        self.work
    }

    /// The scheduler loop's saved context.
    pub closed spec fn spec_context(&self) -> Context {
        self.context
    }

    /// Pushes a ready schedulable on the back of the run queue.
    pub fn queue(&mut self, work: Schedulable)
        ensures
            final(self).spec_queue() == old(self).spec_queue().push(work),
            final(self).spec_work() == old(self).spec_work(),
            final(self).spec_context() == old(self).spec_context(),
    {
        self.work_queue.push_back(work);
    }

    /// Builds a schedulable around a fresh context and task and queues it.
    pub fn spawn(&mut self, context: Context, task: usize)
        ensures
            final(self).spec_queue() == old(self).spec_queue().push(
                (Schedulable { context, task: Some(task) }),
            ),
            final(self).spec_work() == old(self).spec_work(),
            final(self).spec_context() == old(self).spec_context(),
    {
        self.work_queue.push_back(Schedulable::new(context, task));
    }

    /// One turn of the scheduler loop: takes the front of the queue as the
    /// running schedulable and hands its context out to be switched to, or
    /// reports the queue empty.
    pub fn run(&mut self) -> (r: Option<Context>)
        requires
            old(self).spec_work() is None,
        ensures
            final(self).spec_context() == old(self).spec_context(),
            match r {
                Some(c) => {
                    &&& old(self).spec_queue().len() > 0
                    &&& c == old(self).spec_queue()[0].context
                    &&& final(self).spec_work() == Some(old(self).spec_queue()[0])
                    &&& final(self).spec_queue() == old(self).spec_queue().subrange(
                        1, old(self).spec_queue().len() as int)
                },
                None => {
                    &&& old(self).spec_queue().len() == 0
                    &&& final(self).spec_queue() == old(self).spec_queue()
                    &&& final(self).spec_work() is None
                },
            },
    {
        match self.work_queue.pop_front() {
            Some(next) => {
                let c = next.context;
                self.work = Some(next);
                Some(c)
            },
            None => None,
        }
    }

    /// The task of the running schedulable, if it has not run yet.
    pub fn current_task(&self) -> (r: Option<usize>)
        ensures
            r == (match self.spec_work() {
                Some(w) => w.task,
                None => None::<usize>,
            }),
    {
        match &self.work {
            Some(w) => w.task,
            None => None,
        }
    }

    /// Takes the running schedulable's one-shot task out, as when it is
    /// entered for the first time and the task is about to be run.
    pub fn take_task(&mut self) -> (r: Option<usize>)
        requires
            old(self).spec_work() is Some,
        ensures
            r == old(self).spec_work().unwrap().task,
            final(self).spec_work() == Some(
                (Schedulable { task: None, ..old(self).spec_work().unwrap() }),
            ),
            final(self).spec_queue() == old(self).spec_queue(),
            final(self).spec_context() == old(self).spec_context(),
    {
        match &mut self.work {
            Some(w) => {
                let t = w.task.take();
                t
            },
            None => None,
        }
    }

    /// Hands control back to the scheduler loop, whose context is returned
    /// to be loaded.  On a yield the running schedulable goes to the back
    /// of the queue, behind every other ready schedulable; on completion
    /// (`startup` entry returned) it is dropped and its stack goes with it.
    /// With nothing running there is nothing to requeue or drop: the queue
    /// stays as it is, and control is already the scheduler loop's.
    pub fn enter(&mut self, startup: bool) -> (r: Context)
        ensures
            r == old(self).spec_context(),
            final(self).spec_context() == old(self).spec_context(),
            final(self).spec_work() is None,
            old(self).spec_work() is None
                ==> final(self).spec_queue() == old(self).spec_queue(),
            old(self).spec_work() is Some && startup
                ==> final(self).spec_queue() == old(self).spec_queue(),
            old(self).spec_work() is Some && !startup
                ==> final(self).spec_queue() == old(self).spec_queue().push(
                    old(self).spec_work().unwrap(),
                ),
    {
        let mut w: Option<Schedulable> = None;
        core::mem::swap(&mut w, &mut self.work);
        if !startup {
            match w {
                Some(s) => self.work_queue.push_back(s),
                None => {},
            }
        }
        self.context
    }
}

impl Default for Scheduler {
    /// A scheduler with nothing queued, nothing running, and the null
    /// context to return to.
    fn default() -> (r: Scheduler)
        ensures
            r.spec_queue().len() == 0,
            r.spec_work() is None,
            r.spec_context().0 == 0,
    {
        Scheduler { context: Context::zeroed(), work_queue: VecDeque::new(), work: None }
    }
}

} // verus!
