//! The record of the jobs that were run.

use crate::runnable::Ran;
use vstd::prelude::*;

verus! {

/// What came of ticks: of each that found a job, what came of running it.
///
/// It is there for specifications alone.
pub struct RunLog {
    ticks: Ghost<Seq<Option<Ran>>>,
}

impl View for RunLog {
    type V = Seq<Option<Ran>>;

    closed spec fn view(&self) -> Seq<Option<Ran>> {
        self.ticks@
    }
}

impl RunLog {
    /// A record without ticks.
    pub fn new() -> (log: RunLog)
        ensures
            log@ == Seq::<Option<Ran>>::empty(),
    {
        RunLog { ticks: Ghost(Seq::empty()) }
    }

    /// Records what came of a tick.
    pub fn record(&mut self, result: Option<Ran>)
        ensures
            final(self)@ == old(self)@.push(result),
    {
        self.ticks = Ghost(self.ticks@.push(result));
    }
}

} // verus!
