//! Giving other tasks a chance to run.

use crate::futures::context::{Context, ContextView, Poll};
use crate::futures::future::Future;
use vstd::prelude::*;

verus! {

/// Future for the [`yield_now()`] function.
#[derive(Debug)]
#[must_use]
pub struct YieldNow(pub bool);

/// Wakes the current task and returns [`Poll::Pending`] once.
pub fn yield_now() -> (future: YieldNow)
    ensures
        future == YieldNow(false),
{
    YieldNow(false)
}

impl Future for YieldNow {
    type Output = ();

    open spec fn pollable(self) -> bool {
        true
    }

    open spec fn polled(pre: Self, post: Self, wakes: nat, out: Poll<()>) -> bool {
        &&& post == YieldNow(true)
        &&& if pre.0 {
            wakes == 0 && out == Poll::Ready(())
        } else {
            wakes == 1 && out is Pending
        }
    }

    /// It is the task of the context that is woken.
    open spec fn polled_in(
        pre: Self,
        post: Self,
        before: ContextView,
        after: ContextView,
        out: Poll<()>,
    ) -> bool {
        &&& after == if pre.0 {
            before
        } else {
            before.woken()
        }
        &&& Self::polled(pre, post, (after.wakes() - before.wakes()) as nat, out)
    }

    fn poll(&mut self, cx: &mut Context<'_>) -> (out: Poll<()>) {
        if !self.0 {
            self.0 = true;
            cx.wake_by_ref();
            Poll::Pending
        } else {
            Poll::Ready(())
        }
    }
}

} // verus!
