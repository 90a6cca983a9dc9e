//! Polling a future just once.

use crate::futures::context::{Context, ContextView, Poll};
use crate::futures::future::Future;
use vstd::prelude::*;

verus! {

/// Future for the [`poll_once()`] function.
#[must_use]
pub struct PollOnce<F> {
    /// The polled future.
    pub f: F,
}

/// Polls a future just once and returns an [`Option`] with the result.
pub fn poll_once<F: Future>(f: F) -> (future: PollOnce<F>)
    ensures
        future.f == f,
        future.pollable() == f.pollable(),
{
    PollOnce { f }
}

impl<F: Future> Future for PollOnce<F> {
    type Output = Option<F::Output>;

    open spec fn pollable(self) -> bool {
        self.f.pollable()
    }

    /// The future is polled, and this is done whatever came of it.
    open spec fn polled(
        pre: Self,
        post: Self,
        wakes: nat,
        out: Poll<Option<F::Output>>,
    ) -> bool {
        match out {
            Poll::Ready(Some(value)) => F::polled(pre.f, post.f, wakes, Poll::Ready(value)),
            Poll::Ready(None) => F::polled(pre.f, post.f, wakes, Poll::Pending),
            Poll::Pending => false,
        }
    }

    open spec fn polled_in(
        pre: Self,
        post: Self,
        before: ContextView,
        after: ContextView,
        out: Poll<Option<F::Output>>,
    ) -> bool {
        match out {
            Poll::Ready(Some(value)) => {
                F::polled_in(pre.f, post.f, before, after, Poll::Ready(value))
            },
            Poll::Ready(None) => F::polled_in(pre.f, post.f, before, after, Poll::Pending),
            Poll::Pending => false,
        }
    }

    fn poll(&mut self, cx: &mut Context<'_>) -> (out: Poll<Option<F::Output>>) {
        match self.f.poll(cx) {
            Poll::Ready(value) => Poll::Ready(Some(value)),
            Poll::Pending => Poll::Ready(None),
        }
    }
}

} // verus!
