//! Waiting for two futures.

use crate::futures::context::{Context, ContextView, Poll};
use crate::futures::future::Future;
use vstd::prelude::*;

verus! {

/// Future for the [`zip()`] function.
#[derive(Debug)]
#[must_use]
pub struct Zip<F1: Future, F2: Future> {
    /// The first future.
    pub future1: F1,
    /// The output of the first future, once it has completed.
    pub output1: Option<F1::Output>,
    /// The second future.
    pub future2: F2,
    /// The output of the second future, once it has completed.
    pub output2: Option<F2::Output>,
}

/// Joins two futures, waiting for both to complete.
pub fn zip<F1: Future, F2: Future>(future1: F1, future2: F2) -> (future: Zip<F1, F2>)
    ensures
        future == (Zip { future1, output1: None, future2, output2: None }),
        future.pollable() <==> future1.pollable() && future2.pollable(),
{
    Zip { future1, future2, output1: None, output2: None }
}

/// What a poll returned if it left `output` behind.
pub open spec fn poll_of<T>(output: Option<T>) -> Poll<T> {
    match output {
        Some(value) => Poll::Ready(value),
        None => Poll::Pending,
    }
}

/// A future whose output is not known yet is polled; one that has completed is
/// left alone.
pub open spec fn half_polled<F: Future>(
    pre: F,
    output: Option<F::Output>,
    post: F,
    new_output: Option<F::Output>,
    wakes: nat,
) -> bool {
    if output is Some {
        post == pre && new_output == output && wakes == 0
    } else {
        F::polled(pre, post, wakes, poll_of(new_output))
    }
}

/// As [`half_polled()`], with the context that the future is handed and how it
/// leaves the context.
pub open spec fn half_polled_in<F: Future>(
    pre: F,
    output: Option<F::Output>,
    post: F,
    new_output: Option<F::Output>,
    before: ContextView,
    after: ContextView,
) -> bool {
    if output is Some {
        post == pre && new_output == output && after == before
    } else {
        F::polled_in(pre, post, before, after, poll_of(new_output))
    }
}

/// The values of two options, if both hold one.
pub open spec fn both<T1, T2>(o1: Option<T1>, o2: Option<T2>) -> Poll<(T1, T2)> {
    match (o1, o2) {
        (Some(t1), Some(t2)) => Poll::Ready((t1, t2)),
        _ => Poll::Pending,
    }
}

/// Extracts the contents of two options and zips them, or leaves both options
/// as they are if one of them is `None`.
pub fn take_zip_from_parts<T1, T2>(
    o1: &mut Option<T1>,
    o2: &mut Option<T2>,
) -> (out: Poll<(T1, T2)>)
    ensures
        out == both(*old(o1), *old(o2)),
        *final(o1) == if out is Ready { None } else { *old(o1) },
        *final(o2) == if out is Ready { None } else { *old(o2) },
{
    match (o1.take(), o2.take()) {
        (Some(t1), Some(t2)) => Poll::Ready((t1, t2)),
        (o1x, o2x) => {
            *o1 = o1x;
            *o2 = o2x;
            Poll::Pending
        },
    }
}

impl<F1: Future, F2: Future> Future for Zip<F1, F2> {
    type Output = (F1::Output, F2::Output);

    open spec fn pollable(self) -> bool {
        &&& self.output1 is None ==> self.future1.pollable()
        &&& self.output2 is None ==> self.future2.pollable()
    }

    /// Each future that has not completed is polled, the first one first. Once
    /// both have completed, the pair of their outputs is returned.
    open spec fn polled(
        pre: Self,
        post: Self,
        wakes: nat,
        out: Poll<(F1::Output, F2::Output)>,
    ) -> bool {
        exists|o1: Option<F1::Output>, o2: Option<F2::Output>, wakes1: nat, wakes2: nat|
            {
                &&& #[trigger] half_polled(pre.future1, pre.output1, post.future1, o1, wakes1)
                &&& #[trigger] half_polled(pre.future2, pre.output2, post.future2, o2, wakes2)
                &&& wakes == wakes1 + wakes2
                &&& out == both(o1, o2)
                &&& post.output1 == if out is Ready { None } else { o1 }
                &&& post.output2 == if out is Ready { None } else { o2 }
            }
    }

    /// The first future is polled with the context as it comes, and the second
    /// with the context as the first leaves it.
    open spec fn polled_in(
        pre: Self,
        post: Self,
        before: ContextView,
        after: ContextView,
        out: Poll<(F1::Output, F2::Output)>,
    ) -> bool {
        exists|o1: Option<F1::Output>, o2: Option<F2::Output>, middle: ContextView|
            {
                &&& #[trigger] half_polled_in(
                    pre.future1,
                    pre.output1,
                    post.future1,
                    o1,
                    before,
                    middle,
                )
                &&& #[trigger] half_polled_in(
                    pre.future2,
                    pre.output2,
                    post.future2,
                    o2,
                    middle,
                    after,
                )
                &&& out == both(o1, o2)
                &&& post.output1 == if out is Ready { None } else { o1 }
                &&& post.output2 == if out is Ready { None } else { o2 }
            }
    }

    fn poll(&mut self, cx: &mut Context<'_>) -> (out: Poll<(F1::Output, F2::Output)>) {
        let ghost start = cx.wakes();
        if self.output1.is_none() {
            if let Poll::Ready(out) = self.future1.poll(cx) {
                self.output1 = Some(out);
            }
        }
        let ghost middle = cx.wakes();
        let ghost between = cx@;
        if self.output2.is_none() {
            if let Poll::Ready(out) = self.future2.poll(cx) {
                self.output2 = Some(out);
            }
        }
        let ghost (o1, o2) = (self.output1, self.output2);
        let out = take_zip_from_parts(&mut self.output1, &mut self.output2);
        proof {
            let wakes1 = (middle - start) as nat;
            let wakes2 = (cx.wakes() - middle) as nat;
            assert(half_polled(old(self).future1, old(self).output1, self.future1, o1, wakes1));
            assert(half_polled(old(self).future2, old(self).output2, self.future2, o2, wakes2));
            assert(cx.wakes() - start == wakes1 + wakes2);
            let (f1, p1) = (old(self).future1, old(self).output1);
            let (f2, p2) = (old(self).future2, old(self).output2);
            assert(half_polled_in(f1, p1, self.future1, o1, old(cx)@, between));
            assert(half_polled_in(f2, p2, self.future2, o2, between, cx@));
        }
        out
    }
}

} // verus!
