//! Methods that every future has.

use crate::futures::boxed::{Boxed, BoxedLocal};
use crate::futures::context::{ContextView, Poll};
use crate::futures::future::{behaves, behaves_in, Future};
use crate::futures::or::Or;
use vstd::prelude::*;

verus! {

/// Extension trait for [`Future`].
///
/// [`Future::poll()`] itself borrows the future, so that no further method is
/// needed to poll one that is not pinned.
pub trait FutureExt: Future {
    /// Returns the result of `self` or `other` future, preferring `self` if
    /// both are ready.
    fn or<F: Future<Output = Self::Output>>(self, other: F) -> (future: Or<Self, F>)
        ensures
            future == (Or { future1: self, future2: other }),
    ;

    /// Boxes the future and forgets its type, but not that another thread may
    /// poll it.
    fn boxed<'a>(self) -> (future: Boxed<'a, Self::Output>) where Self: Send + 'a
        ensures
            future.pollable() <==> self.pollable(),
            forall|trace: Seq<(nat, Poll<Self::Output>)>| #[trigger]
                future.can(trace) <==> behaves(self, trace),
            forall|trace: Seq<(ContextView, ContextView, Poll<Self::Output>)>| #[trigger]
                future.can_in(trace) <==> behaves_in(self, trace),
    ;

    /// Boxes the future and forgets its type.
    fn boxed_local<'a>(self) -> (future: BoxedLocal<'a, Self::Output>) where Self: 'a
        ensures
            future.pollable() <==> self.pollable(),
            forall|trace: Seq<(nat, Poll<Self::Output>)>| #[trigger]
                future.can(trace) <==> behaves(self, trace),
            forall|trace: Seq<(ContextView, ContextView, Poll<Self::Output>)>| #[trigger]
                future.can_in(trace) <==> behaves_in(self, trace),
    ;
}

impl<F: Future> FutureExt for F {
    fn or<G: Future<Output = Self::Output>>(self, other: G) -> (future: Or<Self, G>)
    {
        Or { future1: self, future2: other }
    }

    fn boxed<'a>(self) -> (future: Boxed<'a, Self::Output>) where Self: Send + 'a
    {
        Boxed::new(self)
    }

    fn boxed_local<'a>(self) -> (future: BoxedLocal<'a, Self::Output>) where Self: 'a
    {
        BoxedLocal::new(self)
    }
}

} // verus!
