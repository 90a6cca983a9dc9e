//! Calling a function, and the record of it.

use crate::futures::context::{Context, ContextView, Lender, Poll, Stamp};
use vstd::prelude::*;

verus! {

/// A function that is called in each poll, each time with a context that its
/// own lender lends out.
pub struct Called<F> {
    function: F,
    lender: Lender,
}

impl<F> Called<F> {
    /// The function.
    pub closed spec fn function(self) -> F {
        self.function
    }

    /// What tells the lender of the contexts from others.
    pub closed spec fn lender(self) -> int {
        self.lender.id()
    }

    /// How often the function has been called.
    pub closed spec fn calls(self) -> nat {
        self.lender.lent()
    }

    /// Whether the function may get this context: it was lent out for it.
    pub open spec fn lends(self, cx: Context<'_>) -> bool {
        cx.stamp() matches Some(stamp) && stamp.by == self.lender()
    }

    /// Whether this context is the one for the call with this number.
    pub open spec fn lends_for(self, cx: Context<'_>, number: nat) -> bool {
        cx.stamp() == Some(Stamp { by: self.lender(), number })
    }

    /// A function that has not been called.
    pub fn new(function: F) -> (called: Called<F>)
        ensures
            called.function() == function,
            called.calls() == 0,
    {
        Called { function, lender: Lender::new() }
    }

    /// Calls the function, once, with the next context, which lends out the
    /// same waker as `cx`, and takes over the wakes that are then made through
    /// that context.
    pub(crate) fn call<T>(&mut self, cx: &mut Context<'_>) -> (out: Poll<T>) where
        F: FnMut(&mut Context<'_>) -> Poll<T>,

        requires
            forall|lent: &mut Context<'_>|
                old(self).lends(*lent) ==> #[trigger] call_requires(
                    old(self).function(),
                    (lent,),
                ),
        ensures
            final(self).function() == old(self).function(),
            final(self).lender() == old(self).lender(),
            final(self).calls() == old(self).calls() + 1,
            final(cx).lent() == old(cx).lent(),
            final(cx).sleeps() == old(cx).sleeps(),
            exists|lent: &mut Context<'_>|
                {
                    &&& #[trigger] call_ensures(old(self).function(), (lent,), out)
                    &&& old(self).lends_for(*lent, old(self).calls())
                    &&& lent@ == (ContextView {
                        lent: old(cx)@.lent,
                        log: Seq::empty(),
                        sleeps: 0,
                    })
                    &&& final(cx).log() == old(cx).log() + final(lent).log()
                },
    {
        let mut lent = self.lender.lend(cx.waker());
        assert(old(self).function() == self.function);
        assert(old(self).lends(lent));
        let out = (self.function)(&mut lent);
        cx.take_wakes(lent);
        out
    }
}

} // verus!
