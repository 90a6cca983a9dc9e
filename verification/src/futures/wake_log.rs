//! Waking, and the record of it.

use core::task::Waker;
use vstd::prelude::*;

verus! {

/// Declares [`core::task::Waker`], an opaque handle that wakes one task.
#[verifier::external_type_specification]
#[verifier::external_body]
pub struct ExWaker(core::task::Waker);

/// The wakers through which tasks were woken, in the order of the wakes.
///
/// It is there for specifications alone. It grows by waking a task, and by
/// taking over the wakes of another record.
pub struct WakeLog {
    woken: Ghost<Seq<Waker>>,
}

impl View for WakeLog {
    type V = Seq<Waker>;

    closed spec fn view(&self) -> Seq<Waker> {
        self.woken@
    }
}

impl WakeLog {
    /// A record without wakes.
    pub fn new() -> (log: WakeLog)
        ensures
            log@ == Seq::<Waker>::empty(),
    {
        WakeLog { woken: Ghost(Seq::empty()) }
    }

    /// Takes over the wakes of another record.
    pub(crate) fn append(&mut self, other: WakeLog)
        ensures
            final(self)@ == old(self)@ + other@,
    {
        self.woken = Ghost(self.woken@ + other.woken@);
    }
}

/// Calls [`Waker::wake_by_ref`]. The contract claims that this wakes the task
/// of this waker, once, which is recorded.
#[verifier::external_body]
pub(crate) fn wake(waker: &Waker, log: &mut WakeLog)
    ensures
        final(log)@ == old(log)@.push(*waker),
{
    waker.wake_by_ref();
}

} // verus!
