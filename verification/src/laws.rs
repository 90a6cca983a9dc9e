//! What holds of an executor over several calls.

use crate::active::{in_key_order, strictly_increasing, waker_keys};
use crate::executor::ExecutorView;
use crate::futures::laws::law_or_is_ready_within;
use crate::futures::{completes, pends_as, ready_within, Future, Or, Poll};
use crate::run::{found_none, in_a_row, job_of, jobs_of, RunForever, Ticker, TICKS_PER_YIELD};
use crate::runnable::{Job, Ran};
use crate::task::{wakers_of, TaskWaker};
use vstd::prelude::*;

verus! {

/// A new executor has no unfinished task, and none to run.
pub proof fn law_new_is_empty()
    ensures
        ExecutorView::initial().active.dom() == Set::<usize>::empty(),
        ExecutorView::initial().tick() is None,
        ExecutorView::initial().vacant == 0,
        ExecutorView::initial().queue.len() == 0,
{
}

/// Spawning takes no job out of the queue and leaves those that are there in
/// their order: the job of the new task comes behind all of them. The task gets
/// the vacant key, and nothing else becomes active or stops being so.
pub proof fn law_spawning_keeps_the_queue(before: ExecutorView, after: ExecutorView)
    requires
        before.spawned(after),
    ensures
        after.queue.len() == before.queue.len() + 1,
        after.queue.drop_last() == before.queue,
        after.queue.last().key() == before.vacant,
        forall|n: nat| n <= before.queue.len() ==> #[trigger] ticks(after, n) == ticks(before, n),
        ticks(after, after.queue.len()).last() == Some(after.queue.last()),
        !before.active.contains_key(before.vacant),
        after.active.dom() == before.active.dom().insert(before.vacant),
        forall|key: usize| #[trigger]
            before.active.contains_key(key) ==> after.active[key] == before.active[key],
        after.active[before.vacant].key() == before.vacant,
        after.active[before.vacant].job() == after.queue.last(),
{
    assert(after.queue.drop_last() =~= before.queue);
    assert(after.active.dom() =~= before.active.dom().insert(before.vacant));
    assert forall|n: nat| n <= before.queue.len() implies #[trigger] ticks(after, n) == ticks(
        before,
        n,
    ) by {
        law_ticks_follow_the_queue(after, n);
        law_ticks_follow_the_queue(before, n);
        assert forall|i: int| 0 <= i < n implies ticks(after, n)[i] == ticks(before, n)[i] by {
            assert(after.queue[i] == before.queue[i]);
        }
        assert(ticks(after, n) =~= ticks(before, n));
    }
    law_ticks_follow_the_queue(after, after.queue.len());
}

/// Scheduling a job puts it behind all jobs of the queue, and changes nothing
/// else.
pub proof fn law_scheduling_keeps_the_queue(view: ExecutorView, job: Job)
    ensures
        view.scheduled(job).queue.len() == view.queue.len() + 1,
        view.scheduled(job).queue.last() == job,
        view.scheduled(job).queue.drop_last() == view.queue,
        view.scheduled(job).active == view.active,
        view.scheduled(job).vacant == view.vacant,
{
    assert(view.scheduled(job).queue.drop_last() =~= view.queue);
}

/// A tick finds a job exactly if the queue holds one, and then it is the one in
/// front, which alone leaves the queue; nothing else changes.
pub proof fn law_ticking(view: ExecutorView)
    ensures
        view.queue.len() == 0 ==> view.tick() is None && view.ticked() == view,
        view.queue.len() > 0 ==> view.tick() == Some(view.queue[0]),
        view.queue.len() > 0 ==> seq![view.queue[0]] + view.ticked().queue == view.queue,
        view.ticked().active == view.active,
        view.ticked().vacant == view.vacant,
{
    if view.queue.len() > 0 {
        assert(seq![view.queue[0]] + view.ticked().queue =~= view.queue);
    }
}

/// Closing makes every task inactive and starts again from the first key, but
/// leaves the queue; emptying the queue leaves the active tasks.
pub proof fn law_closing_and_discarding(view: ExecutorView, key: usize)
    ensures
        !view.closed().active.contains_key(key),
        view.closed().vacant == 0,
        view.closed().queue == view.queue,
        view.discarded().queue.len() == 0,
        view.discarded().active == view.active,
        view.discarded().vacant == view.vacant,
{
}

/// After a task was spawned, the executor is not empty and a job is found to
/// run; it is that of the spawned task if no other was scheduled before.
pub proof fn law_spawned_task_is_found(before: ExecutorView, after: ExecutorView)
    requires
        before.spawned(after),
    ensures
        after.active.dom() != Set::<usize>::empty(),
        after.tick() is Some,
        before.tick() is None ==> after.tick()->0.key() == before.vacant,
        before.tick() is Some ==> after.tick() == before.tick(),
{
    assert(after.active.dom().contains(before.vacant));
}

/// A task keeps its key to itself until it has finished: another task that is
/// spawned meanwhile gets another key.
pub proof fn law_keys_are_distinct(before: ExecutorView, key: usize, after: ExecutorView)
    requires
        before.active.contains_key(key),
        before.spawned(after),
    ensures
        before.vacant != key,
        after.active.contains_key(key),
        after.active[key] == before.active[key],
        after.active.contains_key(before.vacant),
{
}

/// Finishing a task undoes what spawning it did to the active tasks.
pub proof fn law_finishing_undoes_spawning(before: ExecutorView, after: ExecutorView)
    requires
        before.spawned(after),
    ensures
        after.finished(before.vacant).active == before.active,
        after.finished(before.vacant).vacant == before.vacant,
{
    assert(after.finished(before.vacant).active =~= before.active);
}

/// An executor that had nothing scheduled is as it was once it has spawned a
/// task, run it, and the task has finished.
pub proof fn law_life_of_a_task(before: ExecutorView, after: ExecutorView)
    requires
        before.queue.len() == 0,
        before.spawned(after),
    ensures
        after.tick() is Some,
        after.tick()->0.key() == before.vacant,
        after.ticked().finished(before.vacant) == before,
{
    law_finishing_undoes_spawning(before, after);
    assert(after.ticked().queue =~= before.queue);
}

/// A finished task is not active, and finishing it again changes nothing. No
/// other task is affected.
pub proof fn law_finishing(view: ExecutorView, key: usize, other: usize)
    ensures
        !view.finished(key).active.contains_key(key),
        view.finished(key).finished(key) == view.finished(key),
        other != key ==> (view.finished(key).active.contains_key(other)
            <==> view.active.contains_key(other)),
        other != key && view.active.contains_key(other) ==> view.finished(key).active[other]
            == view.active[other],
        view.finished(key).vacant == if view.active.contains_key(key) { key } else { view.vacant },
        view.finished(key).queue == view.queue,
{
}

/// Scheduling a task and taking it out of the queue leave the active tasks
/// alone.
pub proof fn law_active_tasks_stay(view: ExecutorView, job: Job)
    ensures
        view.scheduled(job).active == view.active,
        view.scheduled(job).vacant == view.vacant,
        view.ticked().active == view.active,
        view.ticked().vacant == view.vacant,
        view.discarded().active == view.active,
        view.discarded().vacant == view.vacant,
{
}

/// Whether a task with this key is scheduled.
pub open spec fn is_queued(view: ExecutorView, key: usize) -> bool {
    exists|i: int| 0 <= i < view.queue.len() && #[trigger] view.queue[i].key() == key
}

/// Whether no task is scheduled twice, and only active tasks are scheduled.
pub open spec fn orderly(view: ExecutorView) -> bool {
    &&& forall|i: int, j: int|
        0 <= i < j < view.queue.len() ==> #[trigger] view.queue[i].key()
            != #[trigger] view.queue[j].key()
    &&& forall|i: int|
        0 <= i < view.queue.len() ==> view.active.contains_key(#[trigger] view.queue[i].key())
}

/// An orderly executor remains so, if only active tasks that are not scheduled
/// yet are scheduled, and no task finishes while it is scheduled.
pub proof fn law_stays_orderly(view: ExecutorView, key: usize, after: ExecutorView, job: Job)
    requires
        orderly(view),
    ensures
        view.spawned(after) ==> orderly(after),
        view.active.contains_key(job.key()) && !is_queued(view, job.key()) ==> orderly(
            view.scheduled(job),
        ),
        !is_queued(view, key) ==> orderly(view.finished(key)),
        orderly(view.ticked()),
        orderly(view.discarded()),
        orderly(ExecutorView::initial()),
{
    if view.queue.len() > 0 {
        let rest = view.ticked().queue;
        assert forall|i: int| 0 <= i < rest.len() implies rest[i] == view.queue[i + 1] by {}
    }
    if view.spawned(after) {
        assert forall|i: int| 0 <= i < view.queue.len() implies #[trigger] view.queue[i].key()
            != view.vacant by {
            assert(view.active.contains_key(view.queue[i].key()));
        }
    }
}

/// The executor after several jobs were scheduled one by one.
pub open spec fn scheduled_all(view: ExecutorView, jobs: Seq<Job>) -> ExecutorView
    decreases jobs.len(),
{
    if jobs.len() == 0 {
        view
    } else {
        scheduled_all(view.scheduled(jobs.first()), jobs.drop_first())
    }
}

/// The jobs that `n` ticks in a row find.
pub open spec fn ticks(view: ExecutorView, n: nat) -> Seq<Option<Job>>
    decreases n,
{
    if n == 0 {
        Seq::empty()
    } else {
        seq![view.tick()] + ticks(view.ticked(), (n - 1) as nat)
    }
}

/// Jobs that are scheduled one by one stand in the queue in that order, behind
/// those that were there.
pub proof fn law_scheduled_behind(view: ExecutorView, jobs: Seq<Job>)
    ensures
        scheduled_all(view, jobs).queue == view.queue + jobs,
        scheduled_all(view, jobs).active == view.active,
    decreases jobs.len(),
{
    if jobs.len() == 0 {
        assert(view.queue + jobs =~= view.queue);
    } else {
        law_scheduled_behind(view.scheduled(jobs.first()), jobs.drop_first());
        assert(view.queue.push(jobs.first()) + jobs.drop_first() =~= view.queue + jobs);
    }
}

/// Ticks find the scheduled jobs in the order of the queue, and nothing once
/// each of them was found.
pub proof fn law_ticks_follow_the_queue(view: ExecutorView, n: nat)
    ensures
        ticks(view, n).len() == n,
        forall|i: int|
            0 <= i < n ==> #[trigger] ticks(view, n)[i] == if i < view.queue.len() {
                Some(view.queue[i])
            } else {
                None
            },
    decreases n,
{
    if n > 0 {
        law_ticks_follow_the_queue(view.ticked(), (n - 1) as nat);
    }
}

/// First come, first served: jobs are found in the order in which they were
/// scheduled.
pub proof fn law_first_come_first_served(view: ExecutorView, jobs: Seq<Job>, i: int)
    requires
        view.queue.len() == 0,
        0 <= i < jobs.len(),
    ensures
        ticks(scheduled_all(view, jobs), jobs.len())[i] == Some(jobs[i]),
{
    law_scheduled_behind(view, jobs);
    law_ticks_follow_the_queue(scheduled_all(view, jobs), jobs.len());
}

/// It makes no difference whether a task is scheduled before or after a tick
/// that finds another one.
pub proof fn law_scheduling_during_a_tick(view: ExecutorView, job: Job)
    requires
        view.queue.len() > 0,
    ensures
        view.scheduled(job).tick() == view.tick(),
        view.scheduled(job).ticked() == view.ticked().scheduled(job),
{
    assert(view.scheduled(job).ticked().queue =~= view.ticked().scheduled(job).queue);
}

/// Closing an executor hands out the waker of each active task: their keys come
/// in increasing order, and each wakes the task that it was active for.
pub proof fn law_closing_hands_out_every_waker(view: ExecutorView, wakers: Seq<TaskWaker>)
    requires
        view.labelled(),
        in_key_order(view.active, wakers),
    ensures
        strictly_increasing(waker_keys(wakers)),
        waker_keys(wakers).to_set() == view.active.dom(),
        forall|i: int|
            0 <= i < wakers.len() ==> wakers_of(wakers)[i] == view.active[(#[trigger]
            wakers[i]).key()].waker(),
{
    let keys = choose|keys: Seq<usize>|
        {
            &&& #[trigger] strictly_increasing(keys)
            &&& keys.to_set() == view.active.dom()
            &&& wakers == keys.map_values(|key: usize| view.active[key])
        };
    assert forall|i: int| 0 <= i < keys.len() implies view.active.contains_key(keys[i]) by {
        assert(keys.to_set().contains(keys[i]));
    }
    assert(waker_keys(wakers) =~= keys);
}

/// Waking all of several wakers wakes through each of them once, in their order.
pub proof fn law_waking_all(wakers: Seq<TaskWaker>)
    ensures
        wakers_of(wakers).len() == wakers.len(),
        forall|i: int|
            0 <= i < wakers.len() ==> #[trigger] wakers_of(wakers)[i] == wakers[i].waker(),
{
}

/// An executor that was closed and whose queue was emptied is like a new one.
pub proof fn law_closed_and_discarded(view: ExecutorView)
    ensures
        view.closed().discarded() == ExecutorView::initial(),
        view.discarded().closed() == ExecutorView::initial(),
{
}

/// The executor after `n` ticks in a row.
pub open spec fn after_ticks(view: ExecutorView, n: nat) -> ExecutorView
    decreases n,
{
    if n == 0 {
        view
    } else {
        after_ticks(view.ticked(), (n - 1) as nat)
    }
}

/// Ticks take the jobs that they find out of the queue, and no others.
pub proof fn law_ticks_empty_the_queue(view: ExecutorView, n: nat)
    ensures
        after_ticks(view, n).queue == if n < view.queue.len() {
            view.queue.skip(n as int)
        } else {
            Seq::empty()
        },
        after_ticks(view, n).active == view.active,
        after_ticks(view, n).vacant == view.vacant,
    decreases n,
{
    if n == 0 {
        assert(view.queue.len() > 0 ==> view.queue.skip(0) =~= view.queue);
    } else {
        law_ticks_empty_the_queue(view.ticked(), (n - 1) as nat);
        assert(n < view.queue.len() ==> view.queue.drop_first().skip(n - 1) =~= view.queue.skip(
            n as int,
        ));
    }
}

/// The last of several ticks in a row.
pub proof fn lemma_one_more_tick(view: ExecutorView, n: nat)
    ensures
        ticks(view, n + 1) == ticks(view, n).push(after_ticks(view, n).tick()),
        after_ticks(view, n + 1) == after_ticks(view, n).ticked(),
    decreases n,
{
    if n == 0 {
        assert(ticks(view.ticked(), 0) =~= Seq::<Option<Job>>::empty());
        assert(ticks(view, 1) =~= seq![view.tick()]);
        assert(ticks(view, 0).push(view.tick()) =~= seq![view.tick()]);
        assert(after_ticks(view, 1) == after_ticks(view.ticked(), 0));
    } else {
        lemma_one_more_tick(view.ticked(), (n - 1) as nat);
        assert(ticks(view, n + 1) =~= ticks(view, n).push(after_ticks(view, n).tick()));
    }
}

/// Each tick of a ticker asks for one job, and runs the job that it is given:
/// what the ticker was given is, one for one, what it ran, none left out.
pub proof fn law_ticks_run_what_they_are_given(before: Ticker<'_>, after: Ticker<'_>)
    requires
        before.ticked(after),
    ensures
        after.made().len() >= before.made().len(),
        after.made().take(before.made().len() as int) == before.made(),
        after.given().len() - before.given().len() == after.made().len() - before.made().len(),
        after.given().take(before.given().len() as int) == before.given(),
        forall|i: int|
            before.made().len() <= i < after.made().len() ==> ({
                let given = after.given()[before.given().len() + i - before.made().len()];
                match #[trigger] after.made()[i] {
                    Some(ran) => given == Some(ran.job()),
                    None => given is None,
                }
            }),
{
    let results = before.results(after);
    assert(after.made().take(before.made().len() as int) =~= before.made());
    assert(after.given().take(before.given().len() as int) =~= before.given());
    assert forall|i: int| before.made().len() <= i < after.made().len() implies ({
        let given = after.given()[before.given().len() + i - before.made().len()];
        match #[trigger] after.made()[i] {
            Some(ran) => given == Some(ran.job()),
            None => given is None,
        }
    }) by {
        let j = i - before.made().len();
        assert(results[j] == after.made()[i]);
        assert(jobs_of(results)[j] == job_of(results[j]));
    }
}

/// Ticks in a row on an executor that nothing else is done to run exactly the
/// jobs of the queue, in its order, as many as the limit allows, and leave the
/// others: for `n` scheduled tasks and a larger limit all `n` are run.
pub proof fn law_ticks_run_the_queue(
    view: ExecutorView,
    results: Seq<Option<Ran>>,
    limit: nat,
)
    requires
        in_a_row(results, limit),
        jobs_of(results) == ticks(view, results.len()),
    ensures
        results.len() == if view.queue.len() < limit { view.queue.len() + 1 } else { limit },
        found_none(results) <==> view.queue.len() < limit,
        forall|i: int|
            0 <= i < results.len() && i < view.queue.len() ==> (#[trigger] results[i] matches Some(
                ran,
            ) && ran.job() == view.queue[i]),
        view.queue.len() < limit ==> results.last() is None,
        after_ticks(view, results.len()).queue == if view.queue.len() < limit {
            Seq::empty()
        } else {
            view.queue.skip(limit as int)
        },
        after_ticks(view, results.len()).active == view.active,
{
    law_ticks_follow_the_queue(view, results.len());
    law_ticks_empty_the_queue(view, results.len());
    assert forall|i: int| 0 <= i < results.len() implies job_of(#[trigger] results[i]) == ticks(
        view,
        results.len(),
    )[i] by {
        assert(jobs_of(results)[i] == job_of(results[i]));
    }
    if results.len() > view.queue.len() + 1 {
        assert(results[view.queue.len() as int] is Some);
    }
    if results.len() == view.queue.len() {
        assert(view.queue.skip(results.len() as int) =~= Seq::empty());
    }
}

/// Ticks in a row run the tasks that are scheduled, in the order of the queue
/// and no more of them than the limit allows, and leave the others in the
/// queue, if what the ticker was given is what ticks take out of an executor to
/// which nothing else is done meanwhile.
pub proof fn law_ticks_in_a_row(
    view: ExecutorView,
    before: Ticker<'_>,
    after: Ticker<'_>,
    asked: nat,
    limit: nat,
)
    requires
        before.ticked(after),
        in_a_row(before.results(after), limit),
        after.given() == before.given() + ticks(view, asked),
    ensures
        asked == if view.queue.len() < limit { view.queue.len() + 1 } else { limit },
        before.results(after).len() == asked,
        found_none(before.results(after)) <==> view.queue.len() < limit,
        forall|i: int|
            0 <= i < asked && i < view.queue.len() ==> job_of(#[trigger] before.results(after)[i])
                == Some(view.queue[i]),
        after_ticks(view, asked).queue == if view.queue.len() < limit {
            Seq::empty()
        } else {
            view.queue.skip(limit as int)
        },
{
    let results = before.results(after);
    law_ticks_follow_the_queue(view, asked);
    law_ticks_empty_the_queue(view, asked);
    assert(jobs_of(results) =~= ticks(view, asked)) by {
        assert(after.given().skip(before.given().len() as int) =~= jobs_of(results));
        assert(after.given().skip(before.given().len() as int) =~= ticks(view, asked));
    }
    assert forall|i: int| 0 <= i < results.len() implies job_of(#[trigger] results[i]) == ticks(
        view,
        asked,
    )[i] by {
        assert(jobs_of(results)[i] == job_of(results[i]));
    }
    if results.len() > view.queue.len() + 1 {
        assert(results[view.queue.len() as int] is Some);
    }
    if asked == view.queue.len() {
        assert(view.queue.skip(asked as int) =~= Seq::empty());
    }
}

/// Running an executor until a future completes returns the output of the
/// future. In each turn the future is polled once, and the current task is
/// woken once more than the future wakes it.
pub proof fn law_run_returns_the_output<'a, F: Future>(
    run: Or<F, RunForever<'a, F::Output>>,
    n: nat,
    wakes: nat,
    output: F::Output,
)
    requires
        completes(run, n, wakes, output),
    ensures
        wakes >= n,
        completes(run.future1, n, (wakes - n) as nat, output),
    decreases n,
{
    if n == 0 {
        let post = choose|post: Or<F, RunForever<'a, F::Output>>| #[trigger]
            Or::polled(run, post, wakes, Poll::Ready(output));
        assert(F::polled(run.future1, post.future1, wakes, Poll::Ready(output)));
    } else {
        let (post, first) = choose|post: Or<F, RunForever<'a, F::Output>>, first: nat|
            {
                &&& #[trigger] Or::polled(run, post, first, Poll::Pending)
                &&& first <= wakes
                &&& completes(post, (n - 1) as nat, (wakes - first) as nat, output)
            };
        law_run_returns_the_output(post, (n - 1) as nat, (wakes - first) as nat, output);
        assert(F::polled(run.future1, post.future1, (first - 1) as nat, Poll::Pending));
    }
}

/// Running an executor until a future completes is certain to end after as many
/// turns as the future is certain to need.
pub proof fn law_run_is_ready_within<'a, F: Future>(
    run: Or<F, RunForever<'a, F::Output>>,
    n: nat,
)
    requires
        ready_within(run.future1, n),
    ensures
        ready_within(run, n),
{
    law_or_is_ready_within(run, n);
}

/// A turn in which the future is pending runs the tasks that are scheduled,
/// whatever the output of the future is: ticks are made until two hundred of
/// them have run a task, or until one finds none.
pub proof fn law_turn_runs_the_tasks<'a, F: Future>(
    run: Or<F, RunForever<'a, F::Output>>,
    post: Or<F, RunForever<'a, F::Output>>,
    wakes: nat,
)
    requires
        pends_as(run, post, 1, wakes),
    ensures
        ({
            let (before, after) = (run.future2.ticker.made(), post.future2.ticker.made());
            &&& before.len() < after.len() <= before.len() + 200
            &&& after.take(before.len() as int) == before
            &&& forall|i: int|
                before.len() <= i < after.len() - 1 ==> #[trigger] after[i] is Some
            &&& after.last() is None || after.len() == before.len() + 200
        }),
        run.future2.ticker.ticked(post.future2.ticker),
{
    let (next, first) = choose|next: Or<F, RunForever<'a, F::Output>>, first: nat|
        {
            &&& #[trigger] Or::polled(run, next, first, Poll::Pending)
            &&& first <= wakes
            &&& pends_as(next, post, 0, (wakes - first) as nat)
        };
    let (before, after) = (run.future2.ticker, post.future2.ticker);
    let results = before.results(after);
    law_ticks_run_what_they_are_given(before, after);
    assert forall|i: int|
        before.made().len() <= i < after.made().len() - 1 implies #[trigger] after.made()[i]
        is Some by {
        assert(results[i - before.made().len()] == after.made()[i]);
    }
    assert(results.len() > 0);
    assert(results.last() == after.made().last());
}

/// As long as the future is pending, the turns of the future and those of the
/// tasks alternate: after `n` turns the future has been polled `n` times, the
/// tasks have been run by ticks, and there were no more of these in each turn
/// than the limit allows.
pub proof fn law_run_takes_turns<'a, F: Future>(
    run: Or<F, RunForever<'a, F::Output>>,
    post: Or<F, RunForever<'a, F::Output>>,
    n: nat,
    wakes: nat,
)
    requires
        pends_as(run, post, n, wakes),
    ensures
        wakes >= n,
        pends_as(run.future1, post.future1, n, (wakes - n) as nat),
        run.future2.ticker.ticked(post.future2.ticker),
        n <= run.future2.ticker.results(post.future2.ticker).len() <= n * TICKS_PER_YIELD,
    decreases n,
{
    let (before, after) = (run.future2.ticker, post.future2.ticker);
    if n == 0 {
        assert(before.results(after) =~= Seq::empty());
        assert(after.made() =~= before.made() + before.results(after));
        assert(after.given() =~= before.given() + jobs_of(before.results(after)));
    } else {
        let (next, first) = choose|next: Or<F, RunForever<'a, F::Output>>, first: nat|
            {
                &&& #[trigger] Or::polled(run, next, first, Poll::Pending)
                &&& first <= wakes
                &&& pends_as(next, post, (n - 1) as nat, (wakes - first) as nat)
            };
        law_run_takes_turns(next, post, (n - 1) as nat, (wakes - first) as nat);
        assert(F::polled(run.future1, next.future1, (first - 1) as nat, Poll::Pending));
        let middle = next.future2.ticker;
        assert(before.results(after) =~= before.results(middle) + middle.results(after));
        assert(after.made() =~= before.made() + before.results(after));
        assert(after.given() =~= before.given() + jobs_of(before.results(after)));
    }
}

/// What can happen to an executor.
pub enum Event {
    /// A task was spawned and got this key.
    Spawned(usize),
    /// This job was scheduled.
    Scheduled(Job),
    /// A tick took a job out of the queue, if there was one.
    Ticked,
    /// The task with this key finished.
    Finished(usize),
    /// Every task was made inactive.
    Closed,
    /// The queue was emptied.
    Discarded,
}

impl Event {
    /// Whether this can lead from one state of an executor to the other.
    pub open spec fn leads(self, before: ExecutorView, after: ExecutorView) -> bool {
        match self {
            Event::Spawned(key) => key == before.vacant && before.spawned(after),
            Event::Scheduled(job) => after == before.scheduled(job),
            Event::Ticked => after == before.ticked(),
            Event::Finished(key) => after == before.finished(key),
            Event::Closed => after == before.closed(),
            Event::Discarded => after == before.discarded(),
        }
    }

    /// Whether no task with this key is active after this.
    pub open spec fn ends(self, key: usize) -> bool {
        self == Event::Finished(key) || self is Closed
    }
}

/// Whether a new executor can have gone through these states, from one to the
/// next by these events.
pub open spec fn history(states: Seq<ExecutorView>, events: Seq<Event>) -> bool {
    &&& states.len() == events.len() + 1
    &&& states[0] == ExecutorView::initial()
    &&& forall|i: int|
        0 <= i < events.len() ==> (#[trigger] events[i]).leads(states[i], states[i + 1])
}

/// Whether the event with this number spawned a task with this key that has not
/// ended since.
pub open spec fn unfinished(events: Seq<Event>, i: int, key: usize) -> bool {
    &&& 0 <= i < events.len()
    &&& events[i] == Event::Spawned(key)
    &&& forall|j: int| i < j < events.len() ==> !(#[trigger] events[j]).ends(key)
}

/// Whatever happens to an executor, a task is active exactly from when it is
/// spawned until it finishes or the executor is closed.
pub proof fn law_active_until_finished(
    states: Seq<ExecutorView>,
    events: Seq<Event>,
    key: usize,
)
    requires
        history(states, events),
    ensures
        states.last().active.contains_key(key) <==> exists|i: int| #[trigger]
            unfinished(events, i, key),
    decreases events.len(),
{
    if events.len() > 0 {
        let (fewer, event) = (events.drop_last(), events.last());
        let before = states.drop_last();
        let last = events.len() - 1;
        assert forall|i: int| 0 <= i < fewer.len() implies (#[trigger] fewer[i]).leads(
            before[i],
            before[i + 1],
        ) by {
            assert(fewer[i] == events[i]);
        }
        law_active_until_finished(before, fewer, key);
        assert(events[last].leads(before.last(), states.last()));
        if event == Event::Spawned(key) {
            assert(unfinished(events, last, key));
        }
        assert forall|i: int| 0 <= i < last && !event.ends(key) implies (#[trigger] unfinished(
            events,
            i,
            key,
        ) <==> unfinished(fewer, i, key)) by {
            assert forall|j: int| i < j < events.len() && unfinished(fewer, i, key) implies !(
            #[trigger] events[j]).ends(key) by {
                assert(j < last ==> fewer[j] == events[j]);
            }
            assert forall|j: int| i < j < fewer.len() && unfinished(events, i, key) implies !(
            #[trigger] fewer[j]).ends(key) by {
                assert(fewer[j] == events[j]);
            }
        }
        if !event.ends(key) && exists|i: int| #[trigger] unfinished(fewer, i, key) {
            let i = choose|i: int| #[trigger] unfinished(fewer, i, key);
            assert(unfinished(events, i, key));
        }
        if exists|i: int| #[trigger] unfinished(events, i, key) {
            let i = choose|i: int| #[trigger] unfinished(events, i, key);
            assert(i < last ==> !events[last].ends(key));
        }
    }
}

/// Whatever happens to an executor, it is empty exactly if each task that was
/// spawned has finished since, or the executor was closed since.
pub proof fn law_empty_when_all_have_finished(states: Seq<ExecutorView>, events: Seq<Event>)
    requires
        history(states, events),
    ensures
        states.last().active.dom() == Set::<usize>::empty() <==> forall|i: int, key: usize|
            !#[trigger] unfinished(events, i, key),
{
    let active = states.last().active;
    if active.dom() == Set::<usize>::empty() {
        assert forall|i: int, key: usize| !#[trigger] unfinished(events, i, key) by {
            law_active_until_finished(states, events, key);
            assert(!active.dom().contains(key));
        }
    }
    if forall|i: int, key: usize| !#[trigger] unfinished(events, i, key) {
        assert forall|key: usize| !active.dom().contains(key) by {
            law_active_until_finished(states, events, key);
        }
        assert(active.dom() =~= Set::<usize>::empty());
    }
}

} // verus!
