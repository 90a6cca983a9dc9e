//! Blocking on a future.

use crate::futures::context::{Context, ContextView, Poll};
use crate::futures::future::{
    completes, finite, law_pending_then_completing, law_pending_twice, lemma_pends_once, pends_as,
    ready_within, Future,
};
use crate::futures::parker::{Parked, Parker, Sleeper};
use vstd::prelude::*;

verus! {

/// Whether `n` turns can lead from a future to `post`, and from the context
/// `before` to `after`. In each turn the future is polled once, which leaves it
/// pending, and then the thread is put to sleep once.
pub open spec fn turns_taken<F: Future>(
    future: F,
    post: F,
    before: ContextView,
    after: ContextView,
    n: nat,
) -> bool
    decreases n,
{
    if n == 0 {
        post == future && after == before
    } else {
        exists|last: F, start: ContextView, between: ContextView|
            {
                &&& #[trigger] F::polled_in(last, post, start, between, Poll::Pending)
                &&& turns_taken(future, last, before, start, (n - 1) as nat)
                &&& after == #[trigger] between.slept()
            }
    }
}

/// Whether `n` turns, and then a poll that completes the future with `output`,
/// can lead from a future to `post`, and from the context `before` to `after`.
pub open spec fn blocked<F: Future>(
    future: F,
    post: F,
    before: ContextView,
    after: ContextView,
    n: nat,
    output: F::Output,
) -> bool {
    exists|last: F, start: ContextView|
        {
            &&& #[trigger] F::polled_in(last, post, start, after, Poll::Ready(output))
            &&& turns_taken(future, last, before, start, n)
        }
}

/// Blocks the current thread on a future, for at most `turns` polls, by a given
/// sleeper.
///
/// Returns the output of the future, or `None` if it is still pending after
/// that many polls. The thread is put to sleep after each poll that leaves the
/// future pending.
pub fn block_with_for<F: Future, S: Sleeper>(
    future: &mut F,
    cx: &mut Context<'_>,
    sleeper: &mut S,
    turns: u64,
) -> (output: Option<F::Output>)
    requires
        old(future).pollable(),
        old(sleeper).can_sleep(),
    ensures
        final(cx).lent() == old(cx).lent(),
        final(cx).wakes() >= old(cx).wakes(),
        final(cx).sleeps() >= old(cx).sleeps(),
        final(sleeper).how() == old(sleeper).how(),
        final(sleeper).can_sleep(),
        final(sleeper).count() - old(sleeper).count() == final(cx).sleeps() - old(cx).sleeps(),
        final(sleeper).count() > old(sleeper).count() ==> S::rested(final(sleeper).how()),
        match output {
            Some(value) => {
                let n = (final(cx).sleeps() - old(cx).sleeps()) as nat;
                &&& n < turns
                &&& blocked(*old(future), *final(future), old(cx)@, final(cx)@, n, value)
                &&& completes(
                    *old(future),
                    n,
                    (final(cx).wakes() - old(cx).wakes()) as nat,
                    value,
                )
            },
            None => {
                &&& final(cx).sleeps() == old(cx).sleeps() + turns
                &&& final(future).pollable()
                &&& turns_taken(
                    *old(future),
                    *final(future),
                    old(cx)@,
                    final(cx)@,
                    turns as nat,
                )
                &&& pends_as(
                    *old(future),
                    *final(future),
                    turns as nat,
                    (final(cx).wakes() - old(cx).wakes()) as nat,
                )
            },
        },
{
    let mut turn: u64 = 0;
    while turn < turns
        invariant
            turn <= turns,
            future.pollable(),
            sleeper.can_sleep(),
            sleeper.how() == old(sleeper).how(),
            sleeper.count() - old(sleeper).count() == cx.sleeps() - old(cx).sleeps(),
            turn > 0 ==> S::rested(sleeper.how()),
            cx.lent() == old(cx).lent(),
            cx.wakes() >= old(cx).wakes(),
            cx.sleeps() == old(cx).sleeps() + turn,
            turns_taken(*old(future), *future, old(cx)@, cx@, turn as nat),
            pends_as(
                *old(future),
                *future,
                turn as nat,
                (cx.wakes() - old(cx).wakes()) as nat,
            ),
        decreases turns - turn,
    {
        let ghost (before, start) = (*future, cx@);
        let ghost spent = (cx.wakes() - old(cx).wakes()) as nat;
        let out = future.poll(cx);
        let ghost woken = (cx.wakes() - old(cx).wakes() - spent) as nat;
        match out {
            Poll::Ready(value) => {
                proof {
                    assert(F::polled_in(before, *future, start, cx@, Poll::Ready(value)));
                    assert(completes(before, 0, woken, value));
                    law_pending_then_completing(
                        *old(future),
                        before,
                        turn as nat,
                        spent,
                        0,
                        woken,
                        value,
                    );
                }
                return Some(value);
            },
            Poll::Pending => {
                proof {
                    assert(F::polled_in(before, *future, start, cx@, Poll::Pending));
                    lemma_pends_once(before, *future, woken);
                    law_pending_twice(*old(future), before, *future, turn as nat, spent, 1, woken);
                }
                cx.sleep(sleeper);
            },
        }
        turn = turn + 1;
    }
    None
}

/// Blocks the current thread on a future, for at most `turns` polls.
///
/// Returns the output of the future, or `None` if it is still pending after
/// that many polls. The thread is put to sleep after each poll that leaves the
/// future pending.
pub fn block_on_for<F: Future, P: Fn()>(
    future: &mut F,
    cx: &mut Context<'_>,
    parker: &Parker<P>,
    turns: u64,
) -> (output: Option<F::Output>)
    requires
        old(future).pollable(),
        parker.wf(),
    ensures
        final(cx).lent() == old(cx).lent(),
        final(cx).wakes() >= old(cx).wakes(),
        final(cx).sleeps() >= old(cx).sleeps(),
        final(cx).sleeps() > old(cx).sleeps() ==> parker.slept(),
        match output {
            Some(value) => {
                let n = (final(cx).sleeps() - old(cx).sleeps()) as nat;
                &&& n < turns
                &&& blocked(*old(future), *final(future), old(cx)@, final(cx)@, n, value)
                &&& completes(
                    *old(future),
                    n,
                    (final(cx).wakes() - old(cx).wakes()) as nat,
                    value,
                )
            },
            None => {
                &&& final(cx).sleeps() == old(cx).sleeps() + turns
                &&& final(future).pollable()
                &&& turns_taken(
                    *old(future),
                    *final(future),
                    old(cx)@,
                    final(cx)@,
                    turns as nat,
                )
                &&& pends_as(
                    *old(future),
                    *final(future),
                    turns as nat,
                    (final(cx).wakes() - old(cx).wakes()) as nat,
                )
            },
        },
{
    let mut parked = Parked::new(parker);
    block_with_for(future, cx, &mut parked, turns)
}

/// Blocks the current thread on a future, by a given sleeper.
///
/// The future is polled until it is ready, and the thread is put to sleep after
/// each poll that leaves it pending. This returns only if the future completes;
/// for one that is not certain to, there is [`block_with_for()`].
pub fn block_with<F: Future, S: Sleeper>(
    future: F,
    cx: &mut Context<'_>,
    sleeper: &mut S,
) -> (output: F::Output)
    requires
        future.pollable(),
        finite(future),
        old(sleeper).can_sleep(),
    ensures
        final(cx).lent() == old(cx).lent(),
        final(cx).wakes() >= old(cx).wakes(),
        final(cx).sleeps() >= old(cx).sleeps(),
        final(sleeper).how() == old(sleeper).how(),
        final(sleeper).can_sleep(),
        final(sleeper).count() - old(sleeper).count() == final(cx).sleeps() - old(cx).sleeps(),
        final(sleeper).count() > old(sleeper).count() ==> S::rested(final(sleeper).how()),
        exists|post: F| #[trigger]
            blocked(
                future,
                post,
                old(cx)@,
                final(cx)@,
                (final(cx).sleeps() - old(cx).sleeps()) as nat,
                output,
            ),
        completes(
            future,
            (final(cx).sleeps() - old(cx).sleeps()) as nat,
            (final(cx).wakes() - old(cx).wakes()) as nat,
            output,
        ),
{
    let mut polled = future;
    let ghost mut left: nat = choose|n: nat| #[trigger] ready_within(future, n);
    loop
        invariant
            polled.pollable(),
            ready_within(polled, left),
            sleeper.can_sleep(),
            sleeper.how() == old(sleeper).how(),
            sleeper.count() - old(sleeper).count() == cx.sleeps() - old(cx).sleeps(),
            cx.lent() == old(cx).lent(),
            cx.wakes() >= old(cx).wakes(),
            cx.sleeps() >= old(cx).sleeps(),
            cx.sleeps() > old(cx).sleeps() ==> S::rested(sleeper.how()),
            turns_taken(
                future,
                polled,
                old(cx)@,
                cx@,
                (cx.sleeps() - old(cx).sleeps()) as nat,
            ),
            pends_as(
                future,
                polled,
                (cx.sleeps() - old(cx).sleeps()) as nat,
                (cx.wakes() - old(cx).wakes()) as nat,
            ),
        decreases left,
    {
        let ghost (before, start) = (polled, cx@);
        let ghost turns = (cx.sleeps() - old(cx).sleeps()) as nat;
        let ghost spent = (cx.wakes() - old(cx).wakes()) as nat;
        let out = polled.poll(cx);
        let ghost woken = (cx.wakes() - old(cx).wakes() - spent) as nat;
        match out {
            Poll::Ready(output) => {
                proof {
                    assert(F::polled_in(before, polled, start, cx@, Poll::Ready(output)));
                    assert(blocked(future, polled, old(cx)@, cx@, turns, output));
                    assert(completes(before, 0, woken, output));
                    law_pending_then_completing(future, before, turns, spent, 0, woken, output);
                }
                return output;
            },
            Poll::Pending => {
                proof {
                    assert(F::polled_in(before, polled, start, cx@, Poll::Pending));
                    lemma_pends_once(before, polled, woken);
                    law_pending_twice(future, before, polled, turns, spent, 1, woken);
                    left = (left - 1) as nat;
                }
                cx.sleep(sleeper);
            },
        }
    }
}

/// Blocks the current thread on a future.
///
/// The future is polled until it is ready, and the thread is put to sleep after
/// each poll that leaves it pending. This returns only if the future completes;
/// for one that is not certain to, there is [`block_on_for()`].
pub fn block_on<F: Future, P: Fn()>(
    future: F,
    cx: &mut Context<'_>,
    parker: &Parker<P>,
) -> (output: F::Output)
    requires
        future.pollable(),
        finite(future),
        parker.wf(),
    ensures
        final(cx).lent() == old(cx).lent(),
        final(cx).wakes() >= old(cx).wakes(),
        final(cx).sleeps() >= old(cx).sleeps(),
        final(cx).sleeps() > old(cx).sleeps() ==> parker.slept(),
        exists|post: F| #[trigger]
            blocked(
                future,
                post,
                old(cx)@,
                final(cx)@,
                (final(cx).sleeps() - old(cx).sleeps()) as nat,
                output,
            ),
        completes(
            future,
            (final(cx).sleeps() - old(cx).sleeps()) as nat,
            (final(cx).wakes() - old(cx).wakes()) as nat,
            output,
        ),
{
    let mut parked = Parked::new(parker);
    block_with(future, cx, &mut parked)
}

} // verus!
