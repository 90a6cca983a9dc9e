//! The executor's own state: which tasks are active, and which of them are
//! scheduled to be run.
//!
//! Running a task calls the task's future, which may schedule tasks and finish
//! its own in the middle of the call. So the executor never runs a task while
//! it is borrowed: it hands out the job, and is told afterwards, through
//! [`Executor::schedule`] and [`Executor::finish`], what became of the tasks.

use crate::active;
use crate::active::{in_key_order, stored, vacant_key};
use crate::queue;
use crate::queue::{queued, takes_all};
use crate::runnable::{make_task, new_task, Job};
use crate::task::TaskWaker;
use async_task::Task;
use concurrent_queue::ConcurrentQueue;
use slab::Slab;
use vstd::prelude::*;

verus! {

/// The state of an executor, as a mathematical value.
#[verifier::ext_equal]
pub struct ExecutorView {
    /// The wakers of the tasks that have not finished, by the keys of the tasks.
    pub active: Map<usize, TaskWaker>,
    /// The key of the next spawned task.
    pub vacant: usize,
    /// The jobs of the scheduled tasks, in the order in which they will run.
    pub queue: Seq<Job>,
}

impl ExecutorView {
    /// No task is active and none is scheduled.
    pub open spec fn initial() -> ExecutorView {
        ExecutorView { active: Map::empty(), vacant: 0, queue: Seq::empty() }
    }

    /// Whether each active task's waker carries the key of the task, and belongs
    /// to the task that was spawned under that key.
    pub open spec fn labelled(self) -> bool {
        forall|key: usize| #[trigger]
            self.active.contains_key(key) ==> {
                &&& self.active[key].key() == key
                &&& self.active[key].job().key() == key
            }
    }

    /// This job was scheduled.
    pub open spec fn scheduled(self, job: Job) -> ExecutorView {
        ExecutorView { queue: self.queue.push(job), ..self }
    }

    /// A task was spawned, which led to `after`: it got the vacant key, it became
    /// active and its job was scheduled.
    pub open spec fn spawned(self, after: ExecutorView) -> bool {
        let (key, job, waker) = (self.vacant, after.queue.last(), after.active[self.vacant]);
        &&& !self.active.contains_key(key)
        &&& after.active == self.active.insert(key, waker)
        &&& after.queue == self.queue.push(job)
        &&& waker.key() == key
        &&& waker.job() == job
        &&& job.key() == key
    }

    /// The task with this key finished.
    pub open spec fn finished(self, key: usize) -> ExecutorView {
        if self.active.contains_key(key) {
            ExecutorView { active: self.active.remove(key), vacant: key, ..self }
        } else {
            self
        }
    }

    /// The job that a tick takes out of the queue: the one in front, if there
    /// is one.
    pub open spec fn tick(self) -> Option<Job> {
        if self.queue.len() > 0 {
            Some(self.queue.first())
        } else {
            None
        }
    }

    /// A tick took its job out of the queue.
    pub open spec fn ticked(self) -> ExecutorView {
        if self.queue.len() > 0 {
            ExecutorView { queue: self.queue.drop_first(), ..self }
        } else {
            self
        }
    }

    /// No task is active any more.
    pub open spec fn closed(self) -> ExecutorView {
        ExecutorView { active: Map::empty(), vacant: 0, ..self }
    }

    /// No task is scheduled any more.
    pub open spec fn discarded(self) -> ExecutorView {
        ExecutorView { queue: Seq::empty(), ..self }
    }
}

/// An executor: the set of its active tasks and the queue of those of them that
/// are scheduled.
pub struct Executor {
    /// The scheduled tasks.
    queue: ConcurrentQueue<Job>,
    /// The wakers of the tasks that have not finished.
    active: Slab<TaskWaker>,
}

impl View for Executor {
    type V = ExecutorView;

    closed spec fn view(&self) -> ExecutorView {
        ExecutorView {
            active: stored(self.active),
            vacant: vacant_key(self.active),
            queue: queued(self.queue),
        }
    }
}

impl Executor {
    /// Whether the queue takes every job.
    pub closed spec fn takes_jobs(&self) -> bool {
        takes_all(self.queue)
    }

    /// The queue takes every job, there are finitely many active tasks, and the
    /// waker of each is labelled.
    pub open spec fn wf(&self) -> bool {
        &&& self.takes_jobs()
        &&& self@.active.dom().finite()
        &&& self@.labelled()
    }

    /// Creates an executor without tasks.
    pub fn new() -> (ex: Executor)
        ensures
            ex.wf(),
            ex@ == ExecutorView::initial(),
    {
        let ex = Executor { queue: queue::unbounded(), active: active::empty() };
        assert(ex@.active =~= Map::empty());
        ex
    }

    /// Returns `true` if there are no unfinished tasks.
    pub fn is_empty(&self) -> (empty: bool)
        ensures
            empty <==> self@.active.dom() == Set::<usize>::empty(),
    {
        active::is_empty(&self.active)
    }

    /// Returns the number of unfinished tasks.
    pub fn active_len(&self) -> (len: usize)
        ensures
            len == self@.active.dom().len(),
    {
        active::len(&self.active)
    }

    /// Returns the number of scheduled tasks.
    pub fn queue_len(&self) -> (len: usize)
        ensures
            len == self@.queue.len(),
    {
        queue::len(&self.queue)
    }

    /// Returns the key that the next spawned task gets.
    pub fn next_key(&self) -> (key: usize)
        ensures
            key == self@.vacant,
            !self@.active.contains_key(key),
    {
        active::next_key(&self.active)
    }

    /// Spawns a task that runs `future`: it gets the next key, it becomes active,
    /// and it is scheduled behind the tasks that are scheduled already. Returns
    /// the handle through which its output is awaited.
    ///
    /// Each time when the task is woken, `schedule` gets its job.
    pub fn spawn<T, F, S>(&mut self, future: F, schedule: S) -> (task: Task<T>) where
        T: Send + 'static,
        F: core::future::Future<Output = T> + Send + 'static,
        S: Fn(Job) + Send + Sync + 'static,

        requires
            old(self).wf(),
            forall|job: Job|
                job.key() == old(self)@.vacant ==> #[trigger] call_requires(schedule, (job,)),
        ensures
            final(self).wf(),
            old(self)@.spawned(final(self)@),
            call_ensures(
                new_task::<T, F, S>,
                (old(self)@.vacant, future, schedule),
                (final(self)@.queue.last(), task),
            ),
    {
        let key: usize = active::next_key(&self.active);
        let (job, task) = make_task(new_task, key, future, schedule);
        let waker = TaskWaker::new(&job);
        let ghost made = (job, waker);
        active::insert(&mut self.active, waker);
        queue::push(&mut self.queue, job);
        assert(self@.active == old(self)@.active.insert(key, made.1));
        assert(self@.queue.last() == made.0);
        task
    }

    /// Schedules the task of this job, behind those that are scheduled already.
    pub fn schedule(&mut self, job: Job)
        requires
            old(self).wf(),
        ensures
            final(self).wf(),
            final(self)@ == old(self)@.scheduled(job),
    {
        queue::push(&mut self.queue, job);
        assert(self@ == old(self)@.scheduled(job));
    }

    /// Removes the task with this key from the active ones, and returns its
    /// waker if it was one of them.
    pub fn finish(&mut self, key: usize) -> (waker: Option<TaskWaker>)
        requires
            old(self).wf(),
        ensures
            final(self).wf(),
            final(self)@ == old(self)@.finished(key),
            waker == if old(self)@.active.contains_key(key) {
                Some(old(self)@.active[key])
            } else {
                None
            },
    {
        let waker = active::try_remove(&mut self.active, key);
        assert(self@ =~= old(self)@.finished(key));
        waker
    }

    /// Attempts to find a task to run.
    ///
    /// Takes the task that was scheduled first out of the queue. The tick is
    /// over when its job has been run; there is none if no task is scheduled.
    pub fn try_tick(&mut self) -> (job: Option<Job>)
        requires
            old(self).wf(),
        ensures
            final(self).wf(),
            final(self)@ == old(self)@.ticked(),
            job == old(self)@.tick(),
    {
        let job = queue::pop(&mut self.queue);
        assert(self@ == old(self)@.ticked());
        job
    }

    /// Makes every task inactive, and returns the wakers of those that were
    /// active, in the order of their keys.
    pub fn close(&mut self) -> (wakers: Vec<TaskWaker>)
        requires
            old(self).wf(),
        ensures
            final(self).wf(),
            final(self)@ == old(self)@.closed(),
            in_key_order(old(self)@.active, wakers@),
    {
        let wakers = active::drain(&mut self.active);
        assert(self@.active =~= Map::empty());
        wakers
    }

    /// Takes every scheduled task out of the queue, and returns their jobs in
    /// the order in which they would have run.
    pub fn discard(&mut self) -> (jobs: Vec<Job>)
        requires
            old(self).wf(),
        ensures
            final(self).wf(),
            final(self)@ == old(self)@.discarded(),
            jobs@ == old(self)@.queue,
    {
        let mut jobs: Vec<Job> = Vec::new();
        loop
            invariant
                self.wf(),
                self@.active == old(self)@.active,
                self@.vacant == old(self)@.vacant,
                jobs@ + self@.queue == old(self)@.queue,
            decreases self@.queue.len(),
        {
            match self.try_tick() {
                Some(job) => {
                    jobs.push(job);
                },
                None => {
                    return jobs;
                },
            }
        }
    }
}

impl Default for Executor {
    fn default() -> (ex: Executor)
        ensures
            ex.wf(),
            ex@ == ExecutorView::initial(),
    {
        Executor::new()
    }
}

} // verus!
