//! What a task is run and woken by.
//!
//! The values of these types come from the calls that make them alone: a job
//! from making or waking a task, what came of a job from running it, and a
//! handle from asking a job for its waker.

use async_task::{Builder, Runnable, Task};
use core::task::Waker;
use vstd::prelude::*;

verus! {

/// Declares [`async_task::Runnable`], the opaque right to run a task once.
#[verifier::external_type_specification]
#[verifier::external_body]
#[verifier::reject_recursive_types(M)]
pub struct ExRunnable<M>(async_task::Runnable<M>);

/// Declares [`async_task::Task`], through which the output of a task is awaited.
#[verifier::external_type_specification]
#[verifier::external_body]
#[verifier::reject_recursive_types(T)]
#[verifier::reject_recursive_types(M)]
pub struct ExTask<T, M>(async_task::Task<T, M>);

/// A scheduled task, to be run once. If its future panics, then whoever awaits
/// the task panics, and not whoever runs it.
pub struct Job {
    key: usize,
    runnable: Runnable,
}

/// What came of running a job.
pub struct Ran {
    woken: bool,
    job: Ghost<Job>,
}

/// The waker of a task.
pub struct Handle {
    waker: Waker,
    job: Ghost<Job>,
}

impl Job {
    /// The key of the task.
    pub closed spec fn key(self) -> usize {
        self.key
    }

    /// Returns the key of the task.
    pub fn task_key(&self) -> (key: usize)
        ensures
            key == self.key(),
    {
        self.key
    }
}

impl Ran {
    /// The job that was run.
    pub closed spec fn job(self) -> Job {
        self.job@
    }

    /// Whether the task was woken while it ran.
    pub closed spec fn woken(self) -> bool {
        self.woken
    }

    /// Returns whether the task was woken while it ran, and so is already
    /// scheduled again.
    pub fn was_woken(&self) -> (woken: bool)
        ensures
            woken == self.woken(),
    {
        self.woken
    }
}

impl Handle {
    /// A job of the task.
    pub closed spec fn job(self) -> Job {
        self.job@
    }

    /// The waker that wakes the task.
    pub closed spec fn waker(self) -> Waker {
        self.waker
    }

    /// Lends out the waker that wakes the task.
    pub fn lend(&self) -> (waker: &Waker)
        ensures
            *waker == self.waker(),
    {
        &self.waker
    }
}

/// Hands the job of a task that was woken to the function that schedules it.
fn hand_over<S: Fn(Job)>(schedule: &S, key: usize, runnable: Runnable)
    requires
        forall|job: Job| job.key() == key ==> #[trigger] call_requires(*schedule, (job,)),
    ensures
        call_ensures(*schedule, (Job { key, runnable },), ()),
{
    schedule(Job { key, runnable })
}

/// Calls [`Builder::spawn`], on a builder that was told by
/// [`Builder::propagate_panic`] to pass a panic of the future on to whoever
/// awaits the task. The contract claims that the job has the key of the task.
/// The jobs that `schedule` gets each time when the task is woken have that key
/// too, so no more is asked of `schedule` than to take those.
///
/// What the job and the task do with `future` and `schedule` shows when they are
/// used, and not in their values. So callers say of a job and a task that they
/// are what this function makes of that future and that function.
#[verifier::external_body]
pub fn new_task<T, F, S>(key: usize, future: F, schedule: S) -> (made: (Job, Task<T>)) where
    T: Send + 'static,
    F: core::future::Future<Output = T> + Send + 'static,
    S: Fn(Job) + Send + Sync + 'static,

    requires
        forall|job: Job| job.key() == key ==> #[trigger] call_requires(schedule, (job,)),
    ensures
        made.0.key() == key,
{
    let (runnable, task) = Builder::new().propagate_panic(true).spawn(
        |()| future,
        move |runnable| hand_over(&schedule, key, runnable),
    );
    (Job { key, runnable }, task)
}

/// Has `make` make a task with this key, of this future and this function.
pub(crate) fn make_task<T, F, S, G: FnOnce(usize, F, S) -> (Job, Task<T>)>(
    make: G,
    key: usize,
    future: F,
    schedule: S,
) -> (made: (Job, Task<T>))
    requires
        call_requires(make, (key, future, schedule)),
    ensures
        call_ensures(make, (key, future, schedule), made),
{
    make(key, future, schedule)
}

/// Calls [`Runnable::run`], which polls the future of the task once, or drops it
/// if the task was cancelled. The contract claims that this is the job that was
/// run. Whether the task was woken meanwhile depends on its future, and is left
/// open.
#[verifier::external_body]
pub(crate) fn run_once(job: Job) -> (ran: Ran)
    ensures
        ran.job() == job,
{
    Ran { job: Ghost(job), woken: job.runnable.run() }
}

/// Calls [`Runnable::waker`]. The contract claims that the waker belongs to the
/// task of this job.
#[verifier::external_body]
pub(crate) fn handle_of(job: &Job) -> (handle: Handle)
    ensures
        handle.job() == *job,
{
    Handle { waker: job.runnable.waker(), job: Ghost(*job) }
}

} // verus!
