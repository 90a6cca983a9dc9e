//! A future made from a function.

use crate::futures::called::Called;
use crate::futures::context::{Context, ContextView, Poll};
use crate::futures::future::Future;
use vstd::prelude::*;

verus! {

/// Future for the [`poll_fn()`] function.
#[must_use]
pub struct PollFn<F> {
    /// The function that is called in each poll.
    pub f: Called<F>,
}

/// Whether a call of the function can return `out`.
pub open spec fn can_return<T, F>(f: F, out: Poll<T>) -> bool where
    F: FnMut(&mut Context<'_>) -> Poll<T>,
 {
    exists|cx: &mut Context<'_>| #[trigger] call_ensures(f, (cx,), out)
}

/// Whether the next call of the function, with the context that is lent out for
/// it, can return `out`.
pub open spec fn can_return_next<T, F>(f: Called<F>, out: Poll<T>) -> bool where
    F: FnMut(&mut Context<'_>) -> Poll<T>,
 {
    exists|cx: &mut Context<'_>|
        {
            &&& #[trigger] call_ensures(f.function(), (cx,), out)
            &&& f.lends_for(*cx, f.calls())
        }
}

/// Creates a future from a function returning [`Poll`].
pub fn poll_fn<T, F>(f: F) -> (future: PollFn<F>) where F: FnMut(&mut Context<'_>) -> Poll<T>
    ensures
        future.f.function() == f,
        future.f.calls() == 0,
        future.pollable() <==> forall|cx: &mut Context<'_>|
            future.f.lends(*cx) ==> #[trigger] call_requires(f, (cx,)),
        (forall|cx: &mut Context<'_>| #[trigger] call_requires(f, (cx,))) ==> future.pollable(),
        forall|post: PollFn<F>, wakes: nat, out: Poll<T>| #[trigger]
            PollFn::polled(future, post, wakes, out) <==> {
                &&& can_return_next(future.f, out)
                &&& post.f.function() == f
                &&& post.f.lender() == future.f.lender()
                &&& post.f.calls() == 1
            },
        forall|out: Poll<T>| #[trigger] can_return_next(future.f, out) ==> can_return(f, out),
{
    let future = PollFn { f: Called::new(f) };
    assert(future.f.function() == f);
    future
}

impl<T, F> Future for PollFn<F> where F: FnMut(&mut Context<'_>) -> Poll<T> {
    type Output = T;

    open spec fn pollable(self) -> bool {
        forall|cx: &mut Context<'_>|
            self.f.lends(*cx) ==> #[trigger] call_requires(self.f.function(), (cx,))
    }

    /// The function was called once, with the context that was lent out for this
    /// call, and returned `out`.
    open spec fn polled(pre: Self, post: Self, wakes: nat, out: Poll<T>) -> bool {
        &&& can_return_next(pre.f, out)
        &&& post.f.function() == pre.f.function()
        &&& post.f.lender() == pre.f.lender()
        &&& post.f.calls() == pre.f.calls() + 1
    }

    fn poll(&mut self, cx: &mut Context<'_>) -> (out: Poll<T>)
        ensures
            exists|lent: &mut Context<'_>|
                {
                    &&& #[trigger] call_ensures(old(self).f.function(), (lent,), out)
                    &&& old(self).f.lends_for(*lent, old(self).f.calls())
                    &&& lent@ == (ContextView {
                        lent: old(cx)@.lent,
                        log: Seq::empty(),
                        sleeps: 0,
                    })
                    &&& final(cx).log() == old(cx).log() + final(lent).log()
                },
    {
        self.f.call(cx)
    }
}

} // verus!
