//! Running the tasks of an executor.
//!
//! The executor may be shared with its tasks, so it is not borrowed here: a
//! function takes the next job out of it, and gives it back before the job is
//! run.

use crate::executor::Executor;
use crate::futures::{Context, ContextView, Future, FutureExt, Or, Poll};
use crate::laws::{after_ticks, lemma_one_more_tick, ticks};
use crate::run_log::RunLog;
use crate::runnable::{Job, Ran};
use crate::source::{FnSource, JobSource};
use vstd::prelude::*;

verus! {

/// How many tasks are run in a row before the executor yields.
pub const TICKS_PER_YIELD: u64 = 200;

/// Runs jobs, one in each tick.
pub struct Ticker<'a> {
    source: Box<dyn JobSource + 'a>,
    log: RunLog,
}

/// The job that a tick found, if it ran one.
pub open spec fn job_of(result: Option<Ran>) -> Option<Job> {
    match result {
        Some(ran) => Some(ran.job()),
        None => None,
    }
}

/// The jobs that ticks found, if they ran one.
pub open spec fn jobs_of(results: Seq<Option<Ran>>) -> Seq<Option<Job>> {
    results.map_values(|result: Option<Ran>| job_of(result))
}

/// Whether these are the results of ticks in a row: each but the last ran a
/// job, and there are `limit` of them unless the last one found none.
pub open spec fn in_a_row(results: Seq<Option<Ran>>, limit: nat) -> bool {
    &&& results.len() <= limit
    &&& forall|i: int| 0 <= i < results.len() - 1 ==> #[trigger] results[i] is Some
    &&& results.len() < limit ==> found_none(results)
}

/// Whether the last of these ticks found no job.
pub open spec fn found_none(results: Seq<Option<Ran>>) -> bool {
    results.len() > 0 && results.last() is None
}

impl<'a> Ticker<'a> {
    /// Whether the next job can be asked for.
    pub closed spec fn wf(self) -> bool {
        self.source.can_ask()
    }

    /// What came of the ticks so far: of each that found a job, what came of
    /// running it.
    pub closed spec fn made(self) -> Seq<Option<Ran>> {
        self.log@
    }

    /// What the ticks so far were given when they asked for the next job.
    pub closed spec fn given(self) -> Seq<Option<Job>> {
        self.source.given()
    }

    /// Whether a tick can find this.
    pub closed spec fn can_find(self, job: Option<Job>) -> bool {
        self.source.can_give(job)
    }

    /// What came of the ticks that led from this ticker to `after`.
    pub open spec fn results(self, after: Self) -> Seq<Option<Ran>> {
        after.made().skip(self.made().len() as int)
    }

    /// Whether ticks can lead from this ticker to `after`: each asks for one
    /// job, and runs the job that it is given, if it is given one.
    pub open spec fn ticked(self, after: Self) -> bool {
        &&& after.wf() == self.wf()
        &&& after.made() == self.made() + self.results(after)
        &&& after.given() == self.given() + jobs_of(self.results(after))
        &&& forall|i: int|
            0 <= i < self.results(after).len() ==> self.can_find(
                job_of(#[trigger] self.results(after)[i]),
            )
        &&& forall|job: Option<Job>| #[trigger] after.can_find(job) <==> self.can_find(job)
    }

    /// A ticker that calls `next_job` to take the next job out of an executor.
    pub fn new<N: Fn() -> Option<Job> + Send + 'a>(next_job: N) -> (ticker: Ticker<'a>)
        requires
            call_requires(next_job, ()),
        ensures
            ticker.wf(),
            ticker.made() == Seq::<Option<Ran>>::empty(),
            ticker.given() == Seq::<Option<Job>>::empty(),
            forall|job: Option<Job>| #[trigger]
                ticker.can_find(job) <==> call_ensures(next_job, (), job),
    {
        Ticker { source: Box::new(FnSource::new(next_job)), log: RunLog::new() }
    }

    /// Attempts to run a task if at least one is scheduled.
    ///
    /// Running a scheduled task means simply polling its future once. Returns
    /// whether there was one.
    pub fn try_tick(&mut self) -> (ran: bool)
        requires
            old(self).wf(),
        ensures
            old(self).ticked(*final(self)),
            old(self).results(*final(self)).len() == 1,
            ran <==> old(self).results(*final(self))[0] is Some,
    {
        let result = match self.source.next_job() {
            Some(job) => Some(job.run()),
            None => None,
        };
        let ran = result.is_some();
        self.log.record(result);
        assert(old(self).results(*self) =~= seq![result]);
        assert(self.made() =~= old(self).made() + old(self).results(*self));
        assert(jobs_of(seq![result]) =~= seq![job_of(result)]);
        assert(self.given() =~= old(self).given() + jobs_of(old(self).results(*self)));
        ran
    }

    /// Runs tasks until none is scheduled, or until `limit` ticks have been
    /// made. Returns whether none was scheduled in the end.
    pub fn tick_up_to(&mut self, limit: u64) -> (idle: bool)
        requires
            old(self).wf(),
        ensures
            old(self).ticked(*final(self)),
            in_a_row(old(self).results(*final(self)), limit as nat),
            idle <==> found_none(old(self).results(*final(self))),
    {
        let mut ticks: u64 = 0;
        while ticks < limit
            invariant
                ticks <= limit,
                old(self).wf(),
                old(self).ticked(*self),
                old(self).results(*self).len() == ticks,
                forall|i: int|
                    0 <= i < ticks ==> #[trigger] old(self).results(*self)[i] is Some,
            decreases limit - ticks,
        {
            let ghost before = *self;
            let ran = self.try_tick();
            assert(old(self).results(*self) =~= old(self).results(before) + before.results(*self));
            assert(self.made() =~= old(self).made() + old(self).results(*self));
            assert(self.given() =~= old(self).given() + jobs_of(old(self).results(*self)));
            if !ran {
                return true;
            }
            ticks = ticks + 1;
        }
        false
    }
}

/// A future that runs tasks forever.
#[must_use]
pub struct RunForever<'a, T> {
    /// What runs the tasks.
    pub ticker: Ticker<'a>,
    /// No output of this type ever comes.
    pub never: core::marker::PhantomData<T>,
}

impl<'a, T> Future for RunForever<'a, T> {
    type Output = T;

    open spec fn pollable(self) -> bool {
        self.ticker.wf()
    }

    /// Tasks are run until none is scheduled or enough of them have been run in
    /// a row, and then the current task is woken, for this to go on.
    open spec fn polled(pre: Self, post: Self, wakes: nat, out: Poll<T>) -> bool {
        &&& pre.ticker.ticked(post.ticker)
        &&& in_a_row(pre.ticker.results(post.ticker), TICKS_PER_YIELD as nat)
        &&& wakes == 1
        &&& out is Pending
    }

    /// It is the task of the context that is woken.
    open spec fn polled_in(
        pre: Self,
        post: Self,
        before: ContextView,
        after: ContextView,
        out: Poll<T>,
    ) -> bool {
        &&& after == before.woken()
        &&& Self::polled(pre, post, (after.wakes() - before.wakes()) as nat, out)
    }

    fn poll(&mut self, cx: &mut Context<'_>) -> (out: Poll<T>) {
        self.ticker.tick_up_to(TICKS_PER_YIELD);
        cx.wake_by_ref();
        Poll::Pending
    }
}

impl Executor {
    /// Runs tasks of an executor that is not shared, until none is scheduled or
    /// until `limit` ticks have been made, and records what came of each tick.
    /// Returns whether none was scheduled in the end.
    pub fn tick_up_to(&mut self, limit: u64, log: &mut RunLog) -> (idle: bool)
        requires
            old(self).wf(),
        ensures
            final(self).wf(),
            exists|results: Seq<Option<Ran>>| #[trigger]
                in_a_row(results, limit as nat) && {
                    &&& final(log)@ == old(log)@ + results
                    &&& jobs_of(results) == ticks(old(self)@, results.len())
                    &&& final(self)@ == after_ticks(old(self)@, results.len())
                    &&& idle <==> found_none(results)
                },
    {
        let ghost mut results: Seq<Option<Ran>> = Seq::empty();
        let mut made: u64 = 0;
        while made < limit
            invariant
                made <= limit,
                self.wf(),
                results.len() == made,
                forall|i: int| 0 <= i < made ==> #[trigger] results[i] is Some,
                log@ == old(log)@ + results,
                jobs_of(results) == ticks(old(self)@, made as nat),
                self@ == after_ticks(old(self)@, made as nat),
            decreases limit - made,
        {
            proof {
                lemma_one_more_tick(old(self)@, made as nat);
            }
            let result = match self.try_tick() {
                Some(job) => Some(job.run()),
                None => None,
            };
            let ran = result.is_some();
            log.record(result);
            proof {
                assert(jobs_of(results.push(result)) =~= jobs_of(results).push(job_of(result)));
                results = results.push(result);
            }
            if !ran {
                assert(in_a_row(results, limit as nat));
                return true;
            }
            made = made + 1;
        }
        assert(in_a_row(results, limit as nat));
        false
    }

    /// Runs the executor until the given future completes.
    ///
    /// The future is polled first, and then tasks are run, until the future is
    /// polled again.
    pub fn run<'a, F: Future>(
        future: F,
        ticker: Ticker<'a>,
    ) -> (run: Or<F, RunForever<'a, F::Output>>)
        requires
            ticker.wf(),
        ensures
            run.future1 == future,
            run.future2.ticker == ticker,
            run.pollable() <==> future.pollable(),
    {
        future.or(RunForever { ticker, never: core::marker::PhantomData })
    }

    /// Runs tasks until none is scheduled, or until `turns` ticks have been
    /// made. Returns whether none was scheduled in the end.
    pub fn exec(ticker: &mut Ticker<'_>, turns: u64) -> (idle: bool)
        requires
            old(ticker).wf(),
        ensures
            old(ticker).ticked(*final(ticker)),
            in_a_row(old(ticker).results(*final(ticker)), turns as nat),
            idle <==> found_none(old(ticker).results(*final(ticker))),
    {
        ticker.tick_up_to(turns)
    }
}

} // verus!
