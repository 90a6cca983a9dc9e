//! Waiting for the first of two futures.

use crate::futures::context::{Context, ContextView, Poll};
use crate::futures::future::Future;
use vstd::prelude::*;

verus! {

/// Future for the [`or()`] function.
#[derive(Debug)]
#[must_use]
pub struct Or<F1, F2> {
    /// The preferred future.
    pub future1: F1,
    /// The other future.
    pub future2: F2,
}

/// Returns the result of the future that completes first, preferring `future1`
/// if both are ready.
pub fn or<T, F1, F2>(future1: F1, future2: F2) -> (future: Or<F1, F2>) where
    F1: Future<Output = T>,
    F2: Future<Output = T>,

    ensures
        future == (Or { future1, future2 }),
        future.pollable() <==> future1.pollable() && future2.pollable(),
{
    Or { future1, future2 }
}

impl<T, F1, F2> Future for Or<F1, F2> where F1: Future<Output = T>, F2: Future<Output = T> {
    type Output = T;

    open spec fn pollable(self) -> bool {
        self.future1.pollable() && self.future2.pollable()
    }

    /// The first future is polled, and the second only if the first is pending.
    open spec fn polled(pre: Self, post: Self, wakes: nat, out: Poll<T>) -> bool {
        ||| {
            &&& out is Ready
            &&& F1::polled(pre.future1, post.future1, wakes, out)
            &&& post.future2 == pre.future2
        }
        ||| exists|wakes1: nat, wakes2: nat|
            {
                &&& #[trigger] F1::polled(pre.future1, post.future1, wakes1, Poll::Pending)
                &&& #[trigger] F2::polled(pre.future2, post.future2, wakes2, out)
                &&& wakes == wakes1 + wakes2
            }
    }

    /// The first future is polled with the context as it comes, and the second
    /// with the context as the first leaves it.
    open spec fn polled_in(
        pre: Self,
        post: Self,
        before: ContextView,
        after: ContextView,
        out: Poll<T>,
    ) -> bool {
        ||| {
            &&& out is Ready
            &&& F1::polled_in(pre.future1, post.future1, before, after, out)
            &&& post.future2 == pre.future2
        }
        ||| exists|middle: ContextView|
            {
                &&& #[trigger] F1::polled_in(
                    pre.future1,
                    post.future1,
                    before,
                    middle,
                    Poll::Pending,
                )
                &&& F2::polled_in(pre.future2, post.future2, middle, after, out)
            }
    }

    fn poll(&mut self, cx: &mut Context<'_>) -> (out: Poll<T>) {
        let ghost start = cx.wakes();
        if let Poll::Ready(t) = self.future1.poll(cx) {
            return Poll::Ready(t);
        }
        let ghost middle = cx.wakes();
        let ghost between = cx@;
        let out = self.future2.poll(cx);
        proof {
            let wakes1 = (middle - start) as nat;
            let wakes2 = (cx.wakes() - middle) as nat;
            assert(F1::polled(old(self).future1, self.future1, wakes1, Poll::Pending));
            assert(F2::polled(old(self).future2, self.future2, wakes2, out));
            assert(cx.wakes() - start == wakes1 + wakes2);
            assert(F1::polled_in(
                old(self).future1,
                self.future1,
                old(cx)@,
                between,
                Poll::Pending,
            ));
        }
        out
    }
}

} // verus!
