//! What a future is polled with and what a poll returns.

use crate::futures::parker::{Sleeper, Sleeps};
use crate::futures::wake_log::{wake, WakeLog};
use core::task::Waker;
use vstd::prelude::*;

verus! {

/// What one poll of a future returned: its output, or that it is not done.
#[derive(Debug, PartialEq, Eq)]
pub enum Poll<T> {
    /// The future completed with this output.
    Ready(T),
    /// The future has not completed yet.
    Pending,
}

/// The context of a polled task, as a mathematical value.
#[verifier::ext_equal]
pub struct ContextView {
    /// The waker that the context lends out.
    pub lent: Waker,
    /// The wakers through which the context has woken a task, in that order.
    pub log: Seq<Waker>,
    /// How often the thread has been put to sleep between polls.
    pub sleeps: nat,
}

impl ContextView {
    /// How often the context has woken a task.
    pub open spec fn wakes(self) -> nat {
        self.log.len()
    }

    /// The task of the context was woken.
    pub open spec fn woken(self) -> ContextView {
        ContextView { log: self.log.push(self.lent), ..self }
    }

    /// The thread was put to sleep, once.
    pub open spec fn slept(self) -> ContextView {
        ContextView { sleeps: self.sleeps + 1, ..self }
    }
}

/// Who lent out a context, and which of the contexts that were lent out it is.
pub struct Stamp {
    /// The lender.
    pub by: int,
    /// How many contexts the lender had lent out before.
    pub number: nat,
}

/// The context of a polled task.
///
/// It lends the task's waker to the polled future. It records, for
/// specifications alone, the wakes that were made through it, and how often the
/// thread was put to sleep between the polls that it was used for.
pub struct Context<'a> {
    waker: &'a Waker,
    log: WakeLog,
    sleeps: Sleeps,
    stamp: Ghost<Option<Stamp>>,
}

impl<'a> View for Context<'a> {
    type V = ContextView;

    closed spec fn view(&self) -> ContextView {
        ContextView { lent: *self.waker, log: self.log@, sleeps: self.sleeps@ }
    }
}

impl<'a> Context<'a> {
    /// The wakers through which this context has woken a task, in that order.
    pub open spec fn log(self) -> Seq<Waker> {
        self@.log
    }

    /// How often this context has woken a task.
    pub open spec fn wakes(self) -> nat {
        self@.wakes()
    }

    /// The waker that this context lends out.
    pub open spec fn lent(self) -> Waker {
        self@.lent
    }

    /// How often the thread has been put to sleep between polls.
    pub open spec fn sleeps(self) -> nat {
        self@.sleeps
    }

    /// Who lent out this context, if a [`Lender`] did.
    pub closed spec fn stamp(self) -> Option<Stamp> {
        self.stamp@
    }

    /// A context for the task that `waker` wakes.
    pub fn from_waker(waker: &'a Waker) -> (cx: Context<'a>)
        ensures
            cx@ == (ContextView { lent: *waker, log: Seq::empty(), sleeps: 0 }),
            cx.stamp() is None,
    {
        Context { waker, log: WakeLog::new(), sleeps: Sleeps::new(), stamp: Ghost(None) }
    }

    /// The waker of the current task.
    pub fn waker(&self) -> (waker: &'a Waker)
        ensures
            *waker == self.lent(),
    {
        self.waker
    }

    /// Wakes the current task, once.
    pub fn wake_by_ref(&mut self)
        ensures
            final(self)@ == old(self)@.woken(),
            final(self).stamp() == old(self).stamp(),
    {
        wake(self.waker, &mut self.log);
    }

    /// Puts the thread to sleep, once.
    pub(crate) fn sleep<S: Sleeper>(&mut self, sleeper: &mut S)
        requires
            old(sleeper).can_sleep(),
        ensures
            final(self)@ == old(self)@.slept(),
            final(self).stamp() == old(self).stamp(),
            final(sleeper).how() == old(sleeper).how(),
            final(sleeper).can_sleep(),
            final(sleeper).count() == old(sleeper).count() + 1,
            S::rested(final(sleeper).how()),
    {
        self.sleeps.sleep(sleeper);
    }

    /// Takes over the wakes that were made through `other`, whatever waker it
    /// lends out.
    pub(crate) fn take_wakes(&mut self, other: Context<'_>)
        ensures
            final(self)@ == (ContextView { log: old(self)@.log + other@.log, ..old(self)@ }),
            final(self).stamp() == old(self).stamp(),
    {
        self.log.append(other.log);
    }
}

/// Lends out contexts one by one, each with the next number.
pub struct Lender {
    id: Ghost<int>,
    lent: Ghost<nat>,
}

impl Lender {
    /// What tells this lender from others.
    pub closed spec fn id(self) -> int {
        self.id@
    }

    /// How many contexts have been lent out.
    pub closed spec fn lent(self) -> nat {
        self.lent@
    }

    /// A lender that has lent out nothing.
    pub fn new() -> (lender: Lender)
        ensures
            lender.lent() == 0,
    {
        Lender { id: Ghost(arbitrary()), lent: Ghost(0) }
    }

    /// Lends out a new context for the task that `waker` wakes.
    pub(crate) fn lend<'a>(&mut self, waker: &'a Waker) -> (cx: Context<'a>)
        ensures
            final(self).id() == old(self).id(),
            final(self).lent() == old(self).lent() + 1,
            cx@ == (ContextView { lent: *waker, log: Seq::empty(), sleeps: 0 }),
            cx.stamp() == Some(Stamp { by: old(self).id(), number: old(self).lent() }),
    {
        let ghost stamp = Stamp { by: self.id@, number: self.lent@ };
        self.lent = Ghost(self.lent@ + 1);
        Context {
            waker,
            log: WakeLog::new(),
            sleeps: Sleeps::new(),
            stamp: Ghost(Some(stamp)),
        }
    }
}

} // verus!
