//! Putting a thread to sleep, and the record of it.

use vstd::prelude::*;

verus! {

/// How often a thread was put to sleep.
///
/// It is there for specifications alone, and grows by sleeping.
pub struct Sleeps {
    count: Ghost<nat>,
}

impl View for Sleeps {
    type V = nat;

    closed spec fn view(&self) -> nat {
        self.count@
    }
}

impl Sleeps {
    /// A record without sleeps.
    pub fn new() -> (sleeps: Sleeps)
        ensures
            sleeps@ == 0,
    {
        Sleeps { count: Ghost(0) }
    }

    /// Puts the thread to sleep, once, and counts it.
    pub(crate) fn sleep<S: Sleeper>(&mut self, sleeper: &mut S)
        requires
            old(sleeper).can_sleep(),
        ensures
            final(self)@ == old(self)@ + 1,
            final(sleeper).how() == old(sleeper).how(),
            final(sleeper).can_sleep(),
            final(sleeper).count() == old(sleeper).count() + 1,
            S::rested(final(sleeper).how()),
    {
        sleeper.sleep();
        self.count = Ghost(self.count@ + 1);
    }
}

/// Something that puts the current thread to sleep, and that knows how often it
/// has done so.
pub trait Sleeper: Sized {
    /// What puts the thread to sleep.
    type How;

    /// What puts the thread to sleep.
    spec fn how(&self) -> Self::How;

    /// Whether the thread has been put to sleep and has been woken.
    spec fn rested(how: Self::How) -> bool;

    /// Whether the thread can be put to sleep.
    spec fn can_sleep(&self) -> bool;

    /// How often the thread has been put to sleep.
    spec fn count(&self) -> nat;

    /// Puts the thread to sleep, once.
    fn sleep(&mut self)
        requires
            old(self).can_sleep(),
        ensures
            final(self).how() == old(self).how(),
            final(self).can_sleep(),
            final(self).count() == old(self).count() + 1,
            Self::rested(final(self).how()),
    ;
}

/// Puts the current thread to sleep until it is woken.
pub struct Parker<P> {
    park: P,
}

impl<P: Fn()> Parker<P> {
    /// The function that puts the thread to sleep.
    pub closed spec fn how(self) -> P {
        self.park
    }

    /// Whether the thread can be put to sleep.
    pub open spec fn wf(self) -> bool {
        call_requires(self.how(), ())
    }

    /// Whether the function that puts the thread to sleep has returned.
    pub open spec fn slept(self) -> bool {
        call_ensures(self.how(), (), ())
    }

    /// A parker that calls `park` to put the thread to sleep.
    pub fn new(park: P) -> (parker: Parker<P>)
        requires
            call_requires(park, ()),
        ensures
            parker.how() == park,
    {
        Parker { park }
    }

    /// Puts the thread to sleep.
    pub fn park(&self, sleeps: &mut Sleeps)
        requires
            self.wf(),
        ensures
            self.slept(),
            final(sleeps)@ == old(sleeps)@ + 1,
    {
        (self.park)();
        sleeps.count = Ghost(sleeps.count@ + 1);
    }
}

/// A parker, and how often it has put the thread to sleep.
pub struct Parked<'p, P> {
    parker: &'p Parker<P>,
    sleeps: Sleeps,
}

impl<'p, P: Fn()> Parked<'p, P> {
    /// A parker that has not put the thread to sleep yet.
    pub fn new(parker: &'p Parker<P>) -> (parked: Parked<'p, P>)
        ensures
            parked.how() == *parker,
            parked.can_sleep() <==> parker.wf(),
            parked.count() == 0,
    {
        Parked { parker, sleeps: Sleeps::new() }
    }
}

impl<'p, P: Fn()> Sleeper for Parked<'p, P> {
    type How = Parker<P>;

    closed spec fn how(&self) -> Parker<P> {
        *self.parker
    }

    open spec fn rested(how: Parker<P>) -> bool {
        how.slept()
    }

    closed spec fn can_sleep(&self) -> bool {
        self.parker.wf()
    }

    closed spec fn count(&self) -> nat {
        self.sleeps@
    }

    fn sleep(&mut self) {
        self.parker.park(&mut self.sleeps);
    }
}

} // verus!
