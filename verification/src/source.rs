//! Where jobs come from.

use crate::runnable::Job;
use vstd::prelude::*;

verus! {

/// Where jobs come from, one by one.
pub trait JobSource: Send {
    /// Whether the next job can be asked for.
    spec fn can_ask(&self) -> bool;

    /// Whether the next job can be this.
    spec fn can_give(&self, job: Option<Job>) -> bool;

    /// What was given so far, each time when the next job was asked for.
    spec fn given(&self) -> Seq<Option<Job>>;

    /// Takes the next job, if there is one.
    fn next_job(&mut self) -> (job: Option<Job>)
        requires
            old(self).can_ask(),
        ensures
            old(self).can_give(job),
            final(self).given() == old(self).given().push(job),
            final(self).can_ask(),
            forall|next: Option<Job>| #[trigger]
                final(self).can_give(next) <==> old(self).can_give(next),
    ;
}

/// A function that takes the next job out of an executor.
pub struct FnSource<N> {
    next_job: N,
    given: Ghost<Seq<Option<Job>>>,
}

impl<N: Fn() -> Option<Job> + Send> FnSource<N> {
    /// The source that calls `next_job` for each job.
    pub fn new(next_job: N) -> (source: FnSource<N>)
        ensures
            source.can_ask() <==> call_requires(next_job, ()),
            source.given() == Seq::<Option<Job>>::empty(),
            forall|job: Option<Job>| #[trigger]
                source.can_give(job) <==> call_ensures(next_job, (), job),
    {
        FnSource { next_job, given: Ghost(Seq::empty()) }
    }
}

impl<N: Fn() -> Option<Job> + Send> JobSource for FnSource<N> {
    closed spec fn can_ask(&self) -> bool {
        call_requires(self.next_job, ())
    }

    closed spec fn can_give(&self, job: Option<Job>) -> bool {
        call_ensures(self.next_job, (), job)
    }

    closed spec fn given(&self) -> Seq<Option<Job>> {
        self.given@
    }

    fn next_job(&mut self) -> (job: Option<Job>) {
        let job = (self.next_job)();
        self.given = Ghost(self.given@.push(job));
        job
    }
}

} // verus!
