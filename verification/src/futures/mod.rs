//! Futures and their combinators.

mod block_on;
mod boxed;
mod called;
mod context;
mod ext;
mod future;
pub mod laws;
mod or;
mod parker;
mod poll_fn;
mod poll_once;
mod wake_log;
mod yield_now;
mod zip;

pub use block_on::{
    block_on, block_on_for, block_with, block_with_for, blocked, turns_taken,
};
pub use boxed::{AnyFuture, AnySendFuture, Boxed, BoxedLocal};
pub use called::Called;
pub use context::{Context, ContextView, Lender, Poll, Stamp};
pub use ext::FutureExt;
pub use future::{
    behaves, behaves_in, completes, finite, law_pending_then_completing, law_pending_twice,
    lemma_pends_once, pending, pends, pends_as, ready, ready_within, Future, Pending, Ready,
};
pub use or::{or, Or};
pub use parker::{Parked, Parker, Sleeper, Sleeps};
pub use poll_fn::{can_return, can_return_next, poll_fn, PollFn};
pub use poll_once::{poll_once, PollOnce};
pub use wake_log::WakeLog;
pub(crate) use wake_log::wake;
pub use yield_now::{yield_now, YieldNow};
pub use zip::{both, half_polled, half_polled_in, poll_of, take_zip_from_parts, zip, Zip};
