# Ex

A very small executor of asynchronous tasks, and the futures that go with it,
verified with Verus.

- `src/futures/` holds the futures and their combinators (`zip`, `or`,
  `poll_once`, `poll_fn`, `yield_now`, boxed futures) and `block_on`. What a poll
  may do is a relation on the future, the number of wakes and the result;
  `src/futures/laws.rs` says what follows for a whole run of polls.
- `src/executor.rs` holds the executor: the set of active tasks and the queue of
  scheduled ones. It hands out the job that is to be run next, and is told when
  a task is scheduled again or has finished. `src/run.rs` holds the loops that
  run the jobs. `src/laws.rs` says what holds over several calls.
- `src/queue.rs`, `src/active.rs` and `src/runnable.rs` state what is relied on
  of `concurrent-queue`, `slab` and `async-task`, and `src/futures/wake_log.rs`
  what is relied on of `core::task::Waker`.
- `app/` is the executor for `async` code, around the library.

```rust
let mut ex = Executor::new();

// Spawn a task.
ex.spawn(async { println!("Hello World!") }).detach();

// Run an executor thread.
let handle = std::thread::spawn(move || ex.exec());
handle.join().unwrap();
```
