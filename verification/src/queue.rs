//! The queue of scheduled jobs.

use crate::runnable::Job;
use concurrent_queue::ConcurrentQueue;
use vstd::prelude::*;

verus! {

/// Declares [`concurrent_queue::ConcurrentQueue`].
#[verifier::external_type_specification]
#[verifier::external_body]
#[verifier::reject_recursive_types(T)]
pub struct ExConcurrentQueue<T>(concurrent_queue::ConcurrentQueue<T>);

/// The jobs in a queue, in the order in which they leave it.
pub uninterp spec fn queued(queue: ConcurrentQueue<Job>) -> Seq<Job>;

/// Whether a queue takes every job: it was made without a limit on its length
/// and it has not been closed.
pub uninterp spec fn takes_all(queue: ConcurrentQueue<Job>) -> bool;

/// Calls [`ConcurrentQueue::unbounded`]. The contract claims that the queue is
/// empty, and that it takes every job.
#[verifier::external_body]
pub(crate) fn unbounded() -> (queue: ConcurrentQueue<Job>)
    ensures
        queued(queue) == Seq::<Job>::empty(),
        takes_all(queue),
{
    ConcurrentQueue::unbounded()
}

/// Calls [`ConcurrentQueue::push`], and tells whether it succeeded. The
/// contract claims that a queue that takes every job takes this one, behind
/// those that it holds, and remains such a queue.
///
/// The queue is borrowed mutably, so that no other thread uses it meanwhile.
#[verifier::external_body]
pub(crate) fn push(queue: &mut ConcurrentQueue<Job>, job: Job) -> (pushed: bool)
    requires
        takes_all(*old(queue)),
    ensures
        pushed,
        queued(*final(queue)) == queued(*old(queue)).push(job),
        takes_all(*final(queue)),
{
    queue.push(job).is_ok()
}

/// Calls [`ConcurrentQueue::pop`], with no job in place of its error. The
/// contract claims that the job in front leaves the queue, and that there is
/// none only where the queue is empty, which then remains so.
///
/// The queue is borrowed mutably, so that no other thread uses it meanwhile.
#[verifier::external_body]
pub(crate) fn pop(queue: &mut ConcurrentQueue<Job>) -> (job: Option<Job>)
    ensures
        job is Some <==> queued(*old(queue)).len() > 0,
        job matches Some(front) ==> front == queued(*old(queue)).first(),
        job is Some ==> queued(*final(queue)) == queued(*old(queue)).drop_first(),
        job is None ==> queued(*final(queue)) == queued(*old(queue)),
        takes_all(*final(queue)) == takes_all(*old(queue)),
{
    queue.pop().ok()
}

/// Calls [`ConcurrentQueue::len`]. The contract claims that it counts the jobs
/// in the queue.
#[verifier::external_body]
pub(crate) fn len(queue: &ConcurrentQueue<Job>) -> (len: usize)
    ensures
        len == queued(*queue).len(),
{
    queue.len()
}

} // verus!
