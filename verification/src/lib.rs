//! A very small executor of asynchronous tasks, and the futures that go with
//! it.

mod active;
mod executor;
pub mod futures;
pub mod laws;
mod queue;
mod run;
mod run_log;
mod runnable;
mod source;
mod task;

pub use active::{in_key_order, strictly_increasing, waker_keys};
pub use executor::{Executor, ExecutorView};
pub use run::{found_none, in_a_row, job_of, jobs_of, RunForever, Ticker, TICKS_PER_YIELD};
pub use run_log::RunLog;
pub use runnable::{Handle, Job, Ran};
pub use source::{FnSource, JobSource};
pub use task::{wake_all, wakers_of, TaskWaker};
