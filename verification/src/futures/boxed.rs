//! Futures whose type is not known.

use crate::futures::context::{Context, ContextView, Poll};
use crate::futures::future::{behaves, behaves_in, lemma_behaves, Future};
use vstd::prelude::*;

verus! {

/// A future that is known by its behaviour alone.
pub trait AnyFuture<T> {
    /// Whether the future may be polled.
    spec fn any_pollable(&self) -> bool;

    /// Whether polling the future again and again can make these numbers of
    /// wakes and return these results.
    spec fn any_behaves(&self, trace: Seq<(nat, Poll<T>)>) -> bool;

    /// Whether polling the future again and again can lead from these contexts
    /// to those beside them and return these results.
    spec fn any_behaves_in(&self, trace: Seq<(ContextView, ContextView, Poll<T>)>) -> bool;

    /// Attempts to complete the future.
    fn poll_any(&mut self, cx: &mut Context<'_>) -> (out: Poll<T>)
        requires
            old(self).any_pollable(),
        ensures
            final(cx).lent() == old(cx).lent(),
            final(cx).sleeps() == old(cx).sleeps(),
            final(cx).wakes() >= old(cx).wakes(),
            final(self).any_behaves(seq![]),
            final(self).any_behaves_in(seq![]),
            forall|rest: Seq<(nat, Poll<T>)>| #[trigger]
                final(self).any_behaves(rest) ==> old(self).any_behaves(
                    seq![((final(cx).wakes() - old(cx).wakes()) as nat, out)] + rest,
                ),
            forall|rest: Seq<(ContextView, ContextView, Poll<T>)>| #[trigger]
                final(self).any_behaves_in(rest) ==> old(self).any_behaves_in(
                    seq![(old(cx)@, final(cx)@, out)] + rest,
                ),
            out is Pending ==> final(self).any_pollable(),
    ;
}

impl<F: Future> AnyFuture<F::Output> for F {
    open spec fn any_pollable(&self) -> bool {
        self.pollable()
    }

    open spec fn any_behaves(&self, trace: Seq<(nat, Poll<F::Output>)>) -> bool {
        behaves(*self, trace)
    }

    open spec fn any_behaves_in(
        &self,
        trace: Seq<(ContextView, ContextView, Poll<F::Output>)>,
    ) -> bool {
        behaves_in(*self, trace)
    }

    fn poll_any(&mut self, cx: &mut Context<'_>) -> (out: Poll<F::Output>) {
        let out = self.poll(cx);
        proof {
            lemma_behaves(*old(self), *self, old(cx)@, cx@, out);
        }
        out
    }
}

/// A future whose type is not known, from [`FutureExt::boxed_local()`].
///
/// [`FutureExt::boxed_local()`]: crate::futures::FutureExt::boxed_local
#[must_use]
#[verifier::reject_recursive_types(T)]
pub struct BoxedLocal<'a, T> {
    future: Box<dyn AnyFuture<T> + 'a>,
}

impl<'a, T> BoxedLocal<'a, T> {
    /// Whether polling the boxed future again and again can make these numbers
    /// of wakes and return these results.
    pub closed spec fn can(self, trace: Seq<(nat, Poll<T>)>) -> bool {
        self.future.any_behaves(trace)
    }

    /// Whether polling the boxed future again and again can lead from these
    /// contexts to those beside them and return these results.
    pub closed spec fn can_in(self, trace: Seq<(ContextView, ContextView, Poll<T>)>) -> bool {
        self.future.any_behaves_in(trace)
    }

    /// Boxes a future.
    pub fn new<F: Future<Output = T> + 'a>(future: F) -> (boxed: BoxedLocal<'a, T>)
        ensures
            boxed.pollable() <==> future.pollable(),
            forall|trace: Seq<(nat, Poll<T>)>| #[trigger]
                boxed.can(trace) <==> behaves(future, trace),
            forall|trace: Seq<(ContextView, ContextView, Poll<T>)>| #[trigger]
                boxed.can_in(trace) <==> behaves_in(future, trace),
    {
        BoxedLocal { future: Box::new(future) }
    }
}

impl<'a, T> Future for BoxedLocal<'a, T> {
    type Output = T;

    closed spec fn pollable(self) -> bool {
        self.future.any_pollable()
    }

    open spec fn polled(pre: Self, post: Self, wakes: nat, out: Poll<T>) -> bool {
        &&& post.can(seq![])
        &&& forall|rest: Seq<(nat, Poll<T>)>| #[trigger]
            post.can(rest) ==> pre.can(seq![(wakes, out)] + rest)
    }

    open spec fn polled_in(
        pre: Self,
        post: Self,
        before: ContextView,
        after: ContextView,
        out: Poll<T>,
    ) -> bool {
        &&& post.can_in(seq![])
        &&& forall|rest: Seq<(ContextView, ContextView, Poll<T>)>| #[trigger]
            post.can_in(rest) ==> pre.can_in(seq![(before, after, out)] + rest)
    }

    fn poll(&mut self, cx: &mut Context<'_>) -> (out: Poll<T>) {
        self.future.poll_any(cx)
    }
}

/// A future that is known by its behaviour alone, and that another thread may
/// poll.
pub trait AnySendFuture<T>: Send {
    /// Whether the future may be polled.
    spec fn any_send_pollable(&self) -> bool;

    /// Whether polling the future again and again can make these numbers of
    /// wakes and return these results.
    spec fn any_send_behaves(&self, trace: Seq<(nat, Poll<T>)>) -> bool;

    /// Whether polling the future again and again can lead from these contexts
    /// to those beside them and return these results.
    spec fn any_send_behaves_in(&self, trace: Seq<(ContextView, ContextView, Poll<T>)>) -> bool;

    /// Attempts to complete the future.
    fn poll_any_send(&mut self, cx: &mut Context<'_>) -> (out: Poll<T>)
        requires
            old(self).any_send_pollable(),
        ensures
            final(cx).lent() == old(cx).lent(),
            final(cx).sleeps() == old(cx).sleeps(),
            final(cx).wakes() >= old(cx).wakes(),
            final(self).any_send_behaves(seq![]),
            final(self).any_send_behaves_in(seq![]),
            forall|rest: Seq<(nat, Poll<T>)>| #[trigger]
                final(self).any_send_behaves(rest) ==> old(self).any_send_behaves(
                    seq![((final(cx).wakes() - old(cx).wakes()) as nat, out)] + rest,
                ),
            forall|rest: Seq<(ContextView, ContextView, Poll<T>)>| #[trigger]
                final(self).any_send_behaves_in(rest) ==> old(self).any_send_behaves_in(
                    seq![(old(cx)@, final(cx)@, out)] + rest,
                ),
            out is Pending ==> final(self).any_send_pollable(),
    ;
}

impl<F: Future + Send> AnySendFuture<F::Output> for F {
    open spec fn any_send_pollable(&self) -> bool {
        self.pollable()
    }

    open spec fn any_send_behaves(&self, trace: Seq<(nat, Poll<F::Output>)>) -> bool {
        behaves(*self, trace)
    }

    open spec fn any_send_behaves_in(
        &self,
        trace: Seq<(ContextView, ContextView, Poll<F::Output>)>,
    ) -> bool {
        behaves_in(*self, trace)
    }

    fn poll_any_send(&mut self, cx: &mut Context<'_>) -> (out: Poll<F::Output>) {
        let out = self.poll(cx);
        proof {
            lemma_behaves(*old(self), *self, old(cx)@, cx@, out);
        }
        out
    }
}

/// A future whose type is not known and that another thread may poll, from
/// [`FutureExt::boxed()`].
///
/// [`FutureExt::boxed()`]: crate::futures::FutureExt::boxed
#[must_use]
#[verifier::reject_recursive_types(T)]
pub struct Boxed<'a, T> {
    future: Box<dyn AnySendFuture<T> + 'a>,
}

impl<'a, T> Boxed<'a, T> {
    /// Whether polling the boxed future again and again can make these numbers
    /// of wakes and return these results.
    pub closed spec fn can(self, trace: Seq<(nat, Poll<T>)>) -> bool {
        self.future.any_send_behaves(trace)
    }

    /// Whether polling the boxed future again and again can lead from these
    /// contexts to those beside them and return these results.
    pub closed spec fn can_in(self, trace: Seq<(ContextView, ContextView, Poll<T>)>) -> bool {
        self.future.any_send_behaves_in(trace)
    }

    /// Boxes a future.
    pub fn new<F: Future<Output = T> + Send + 'a>(future: F) -> (boxed: Boxed<'a, T>)
        ensures
            boxed.pollable() <==> future.pollable(),
            forall|trace: Seq<(nat, Poll<T>)>| #[trigger]
                boxed.can(trace) <==> behaves(future, trace),
            forall|trace: Seq<(ContextView, ContextView, Poll<T>)>| #[trigger]
                boxed.can_in(trace) <==> behaves_in(future, trace),
    {
        Boxed { future: Box::new(future) }
    }
}

impl<'a, T> Future for Boxed<'a, T> {
    type Output = T;

    closed spec fn pollable(self) -> bool {
        self.future.any_send_pollable()
    }

    open spec fn polled(pre: Self, post: Self, wakes: nat, out: Poll<T>) -> bool {
        &&& post.can(seq![])
        &&& forall|rest: Seq<(nat, Poll<T>)>| #[trigger]
            post.can(rest) ==> pre.can(seq![(wakes, out)] + rest)
    }

    open spec fn polled_in(
        pre: Self,
        post: Self,
        before: ContextView,
        after: ContextView,
        out: Poll<T>,
    ) -> bool {
        &&& post.can_in(seq![])
        &&& forall|rest: Seq<(ContextView, ContextView, Poll<T>)>| #[trigger]
            post.can_in(rest) ==> pre.can_in(seq![(before, after, out)] + rest)
    }

    fn poll(&mut self, cx: &mut Context<'_>) -> (out: Poll<T>) {
        self.future.poll_any_send(cx)
    }
}

} // verus!
