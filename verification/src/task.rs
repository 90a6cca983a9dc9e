//! Running a task and waking it.
//!
//! A task is known by its key in the set of active tasks. The job that runs the
//! task once and the waker that has it scheduled again carry that key.

use crate::futures::{wake, WakeLog};
use crate::runnable::{handle_of, run_once, Handle, Job, Ran};
use core::task::Waker;
use vstd::prelude::*;

verus! {

impl Job {
    /// Runs the task: polls its future once, or drops the future if the task
    /// was cancelled.
    pub fn run(self) -> (ran: Ran)
        ensures
            ran.job() == self,
    {
        run_once(self)
    }
}

/// A handle that has a task scheduled again.
pub struct TaskWaker {
    key: usize,
    handle: Handle,
}

impl TaskWaker {
    /// The key of the task.
    pub closed spec fn key(self) -> usize {
        self.key
    }

    /// A job of the task.
    pub closed spec fn job(self) -> Job {
        self.handle.job()
    }

    /// The waker that wakes the task.
    pub closed spec fn waker(self) -> Waker {
        self.handle.waker()
    }

    /// The waker of the task of this job.
    pub(crate) fn new(job: &Job) -> (waker: TaskWaker)
        ensures
            waker.key() == job.key(),
            waker.job() == *job,
    {
        TaskWaker { key: job.task_key(), handle: handle_of(job) }
    }

    /// Returns the key of the task.
    pub fn task_key(&self) -> (key: usize)
        ensures
            key == self.key(),
    {
        self.key
    }

    /// Wakes the task, once.
    pub fn wake(&self, log: &mut WakeLog)
        ensures
            final(log)@ == old(log)@.push(self.waker()),
    {
        wake(self.handle.lend(), log);
    }
}

/// The wakers that wake the tasks, one for each.
pub open spec fn wakers_of(wakers: Seq<TaskWaker>) -> Seq<Waker> {
    wakers.map_values(|waker: TaskWaker| waker.waker())
}

/// Wakes the task of each waker, once, in their order.
pub fn wake_all(wakers: &Vec<TaskWaker>, log: &mut WakeLog)
    ensures
        final(log)@ == old(log)@ + wakers_of(wakers@),
{
    let mut i: usize = 0;
    while i < wakers.len()
        invariant
            i <= wakers.len(),
            log@ == old(log)@ + wakers_of(wakers@.take(i as int)),
        decreases wakers.len() - i,
    {
        wakers[i].wake(log);
        assert(wakers_of(wakers@.take(i + 1)) =~= wakers_of(wakers@.take(i as int)).push(
            wakers[i as int].waker(),
        ));
        i = i + 1;
    }
    assert(wakers@.take(i as int) =~= wakers@);
}

} // verus!
