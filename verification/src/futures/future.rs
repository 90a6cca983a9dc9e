//! What a future is, and what can be said of polling one repeatedly.

use crate::futures::context::{Context, ContextView, Poll};
use crate::futures::laws::law_pending;
use vstd::prelude::*;

verus! {

/// A computation that is driven by polling.
///
/// What polling does is a relation, for a future may depend on more than its
/// own state.
pub trait Future: Sized {
    /// What the future completes with.
    type Output;

    /// Whether the future may be polled. A future that has completed may refuse
    /// it; one that says nothing never does.
    open spec fn pollable(self) -> bool {
        true
    }

    /// Whether a poll of the future `pre` may leave it as `post`, wake the task
    /// `wakes` times and return `out`. A future that says nothing may do
    /// anything.
    open spec fn polled(pre: Self, post: Self, wakes: nat, out: Poll<Self::Output>) -> bool {
        true
    }

    /// Whether a poll of the future `pre` that is handed the context `before`
    /// may leave the future as `post` and the context as `after`, and return
    /// `out`. This tells in which order a future polls those that it is made
    /// of; one that says nothing does what [`Future::polled()`] says.
    open spec fn polled_in(
        pre: Self,
        post: Self,
        before: ContextView,
        after: ContextView,
        out: Poll<Self::Output>,
    ) -> bool {
        Self::polled(pre, post, (after.wakes() - before.wakes()) as nat, out)
    }

    /// Attempts to complete the future.
    fn poll(&mut self, cx: &mut Context<'_>) -> (out: Poll<Self::Output>)
        requires
            old(self).pollable(),
        ensures
            final(cx).lent() == old(cx).lent(),
            final(cx).sleeps() == old(cx).sleeps(),
            final(cx).wakes() >= old(cx).wakes(),
            Self::polled(
                *old(self),
                *final(self),
                (final(cx).wakes() - old(cx).wakes()) as nat,
                out,
            ),
            Self::polled_in(*old(self), *final(self), old(cx)@, final(cx)@, out),
            out is Pending ==> final(self).pollable(),
    ;
}

/// Whether polling a future again and again can make these numbers of wakes and
/// return these results.
pub open spec fn behaves<F: Future>(future: F, trace: Seq<(nat, Poll<F::Output>)>) -> bool
    decreases trace.len(),
{
    trace.len() > 0 ==> exists|post: F|
        {
            &&& #[trigger] F::polled(future, post, trace[0].0, trace[0].1)
            &&& behaves(post, trace.drop_first())
        }
}

/// Whether polling a future again and again can lead from these contexts to
/// those beside them and return these results.
pub open spec fn behaves_in<F: Future>(
    future: F,
    trace: Seq<(ContextView, ContextView, Poll<F::Output>)>,
) -> bool
    decreases trace.len(),
{
    trace.len() > 0 ==> exists|post: F|
        {
            &&& #[trigger] F::polled_in(future, post, trace[0].0, trace[0].1, trace[0].2)
            &&& behaves_in(post, trace.drop_first())
        }
}

/// A future can do what one poll does, followed by what it can do after that
/// poll.
pub proof fn lemma_behaves<F: Future>(
    future: F,
    post: F,
    before: ContextView,
    after: ContextView,
    out: Poll<F::Output>,
)
    requires
        F::polled(future, post, (after.wakes() - before.wakes()) as nat, out),
        F::polled_in(future, post, before, after, out),
    ensures
        forall|rest: Seq<(nat, Poll<F::Output>)>| #[trigger]
            behaves(post, rest) ==> behaves(
                future,
                seq![((after.wakes() - before.wakes()) as nat, out)] + rest,
            ),
        forall|rest: Seq<(ContextView, ContextView, Poll<F::Output>)>| #[trigger]
            behaves_in(post, rest) ==> behaves_in(future, seq![(before, after, out)] + rest),
{
    let wakes = (after.wakes() - before.wakes()) as nat;
    assert forall|rest: Seq<(nat, Poll<F::Output>)>| #[trigger]
        behaves(post, rest) implies behaves(future, seq![(wakes, out)] + rest) by {
        let trace = seq![(wakes, out)] + rest;
        assert(trace.drop_first() =~= rest);
        assert(F::polled(future, post, trace[0].0, trace[0].1));
    }
    assert forall|rest: Seq<(ContextView, ContextView, Poll<F::Output>)>| #[trigger]
        behaves_in(post, rest) implies behaves_in(future, seq![(before, after, out)] + rest) by {
        let trace = seq![(before, after, out)] + rest;
        assert(trace.drop_first() =~= rest);
        assert(F::polled_in(future, post, trace[0].0, trace[0].1, trace[0].2));
    }
}

/// Whether a future can be pending for `n` polls, which wake the task `wakes`
/// times, and complete with `value` in the next one, these wakes included.
pub open spec fn completes<F: Future>(
    future: F,
    n: nat,
    wakes: nat,
    value: F::Output,
) -> bool
    decreases n,
{
    if n == 0 {
        exists|post: F| #[trigger] F::polled(future, post, wakes, Poll::Ready(value))
    } else {
        exists|post: F, first: nat|
            {
                &&& #[trigger] F::polled(future, post, first, Poll::Pending)
                &&& first <= wakes
                &&& completes(post, (n - 1) as nat, (wakes - first) as nat, value)
            }
    }
}

/// Whether `n` polls can leave a future pending, as `post`, and wake the task
/// `wakes` times.
pub open spec fn pends_as<F: Future>(future: F, post: F, n: nat, wakes: nat) -> bool
    decreases n,
{
    if n == 0 {
        post == future && wakes == 0
    } else {
        exists|next: F, first: nat|
            {
                &&& #[trigger] F::polled(future, next, first, Poll::Pending)
                &&& first <= wakes
                &&& pends_as(next, post, (n - 1) as nat, (wakes - first) as nat)
            }
    }
}

/// Whether `n` polls can leave a future pending and wake the task `wakes` times.
pub open spec fn pends<F: Future>(future: F, n: nat, wakes: nat) -> bool {
    exists|post: F| #[trigger] pends_as(future, post, n, wakes)
}

/// Whether a future is certain to complete after at most `n` polls that leave
/// it pending.
pub open spec fn ready_within<F: Future>(future: F, n: nat) -> bool
    decreases n,
{
    forall|post: F, wakes: nat, out: Poll<F::Output>| #[trigger]
        F::polled(future, post, wakes, out) ==> {
            ||| out is Ready
            ||| n > 0 && ready_within(post, (n - 1) as nat)
        }
}

/// Whether a future is certain to complete if it is polled often enough.
pub open spec fn finite<F: Future>(future: F) -> bool {
    exists|n: nat| #[trigger] ready_within(future, n)
}

/// One poll that leaves a future pending.
pub proof fn lemma_pends_once<F: Future>(future: F, post: F, wakes: nat)
    requires
        F::polled(future, post, wakes, Poll::Pending),
    ensures
        pends_as(future, post, 1, wakes),
{
    assert(pends_as(post, post, 0, 0));
}

/// Polls that leave a future pending, followed by further polls that leave it
/// pending, are as many polls in a row that leave it pending.
pub proof fn law_pending_twice<F: Future>(
    future: F,
    middle: F,
    post: F,
    n: nat,
    wakes: nat,
    m: nat,
    more: nat,
)
    requires
        pends_as(future, middle, n, wakes),
        pends_as(middle, post, m, more),
    ensures
        pends_as(future, post, n + m, wakes + more),
    decreases n,
{
    if n > 0 {
        let (next, first) = choose|next: F, first: nat|
            {
                &&& #[trigger] F::polled(future, next, first, Poll::Pending)
                &&& first <= wakes
                &&& pends_as(next, middle, (n - 1) as nat, (wakes - first) as nat)
            };
        law_pending_twice(next, middle, post, (n - 1) as nat, (wakes - first) as nat, m, more);
    }
}

/// A future that is left pending by some polls and completed by others after
/// them is completed by all of them in a row.
pub proof fn law_pending_then_completing<F: Future>(
    future: F,
    middle: F,
    n: nat,
    wakes: nat,
    m: nat,
    more: nat,
    value: F::Output,
)
    requires
        pends_as(future, middle, n, wakes),
        completes(middle, m, more, value),
    ensures
        completes(future, n + m, wakes + more, value),
    decreases n,
{
    if n > 0 {
        let (next, first) = choose|next: F, first: nat|
            {
                &&& #[trigger] F::polled(future, next, first, Poll::Pending)
                &&& first <= wakes
                &&& pends_as(next, middle, (n - 1) as nat, (wakes - first) as nat)
            };
        law_pending_then_completing(
            next,
            middle,
            (n - 1) as nat,
            (wakes - first) as nat,
            m,
            more,
            value,
        );
    }
}

/// Future for the [`ready()`] function.
#[must_use]
pub struct Ready<T> {
    /// The value, until a poll has returned it.
    pub value: Option<T>,
}

/// Creates a future that completes at once with `value`.
pub fn ready<T>(value: T) -> (future: Ready<T>)
    ensures
        future.value == Some(value),
        future.pollable(),
{
    Ready { value: Some(value) }
}

impl<T> Future for Ready<T> {
    type Output = T;

    open spec fn pollable(self) -> bool {
        self.value is Some
    }

    open spec fn polled(pre: Self, post: Self, wakes: nat, out: Poll<T>) -> bool {
        &&& wakes == 0
        &&& post.value is None
        &&& pre.value matches Some(value) && out == Poll::Ready(value)
    }

    fn poll(&mut self, cx: &mut Context<'_>) -> (out: Poll<T>) {
        Poll::Ready(self.value.take().unwrap())
    }
}

/// Future for the [`pending()`] function.
#[must_use]
pub struct Pending<T> {
    /// No output of this type ever comes.
    pub never: core::marker::PhantomData<T>,
}

/// Creates a future that never completes.
pub fn pending<T>() -> (future: Pending<T>)
    ensures
        future == (Pending::<T> { never: core::marker::PhantomData }),
        future.pollable(),
        forall|n: nat, wakes: nat, output: T| !#[trigger] completes(future, n, wakes, output),
{
    let future = Pending { never: core::marker::PhantomData };
    assert forall|n: nat, wakes: nat, output: T| !#[trigger]
        completes(future, n, wakes, output) by {
        law_pending(future, n, wakes, output);
    }
    future
}

impl<T> Future for Pending<T> {
    type Output = T;

    open spec fn pollable(self) -> bool {
        true
    }

    open spec fn polled(pre: Self, post: Self, wakes: nat, out: Poll<T>) -> bool {
        wakes == 0 && post == pre && out is Pending
    }

    fn poll(&mut self, cx: &mut Context<'_>) -> (out: Poll<T>) {
        Poll::Pending
    }
}

} // verus!
