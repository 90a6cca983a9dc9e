use async_task::Task;
use ex::futures::{
    block_on_for, pending, poll_fn, ready, yield_now, Context, Future, Parker, Poll, WakeLog,
    YieldNow,
};
use ex::{wake_all, Executor, Job, Ticker, TICKS_PER_YIELD};
use std::cell::Cell;
use std::pin::Pin;
use std::sync::atomic::{AtomicUsize, Ordering};
use std::sync::{Arc, Mutex};
use std::task::{Wake, Waker};

type Shared = Arc<Mutex<Executor>>;
type Log = Arc<Mutex<Vec<&'static str>>>;

/// Finishes a task when its future is done.
struct Guard(Shared, usize);

impl Drop for Guard {
    fn drop(&mut self) {
        let waker = self.0.lock().unwrap().finish(self.1);
        drop(waker);
    }
}

/// Counts how often a task was woken.
struct Wakes(AtomicUsize);

impl Wake for Wakes {
    fn wake(self: Arc<Self>) {
        self.0.fetch_add(1, Ordering::SeqCst);
    }
}

/// Lets an `async` block yield.
struct Yield(YieldNow);

impl std::future::Future for Yield {
    type Output = ();

    fn poll(mut self: Pin<&mut Self>, cx: &mut std::task::Context<'_>) -> std::task::Poll<()> {
        match Future::poll(&mut self.0, &mut Context::from_waker(cx.waker())) {
            Poll::Ready(()) => std::task::Poll::Ready(()),
            Poll::Pending => std::task::Poll::Pending,
        }
    }
}

fn yielding() -> Yield {
    Yield(yield_now())
}

fn shared() -> Shared {
    Arc::new(Mutex::new(Executor::new()))
}

fn spawn<T, F>(ex: &Shared, future: F) -> Task<T>
where
    T: Send + 'static,
    F: std::future::Future<Output = T> + Send + 'static,
{
    let mut core = ex.lock().unwrap();
    let guard = Guard(ex.clone(), core.next_key());
    let queue = ex.clone();
    core.spawn(
        async move {
            let _guard = guard;
            future.await
        },
        move |job| queue.lock().unwrap().schedule(job),
    )
}

/// Runs the task that was scheduled first, if there is one.
fn tick(ex: &Shared) -> Option<usize> {
    next_job(ex).map(|job| {
        let key = job.task_key();
        job.run();
        key
    })
}

/// Takes the job of the task that was scheduled first.
fn next_job(ex: &Shared) -> Option<Job> {
    ex.lock().unwrap().try_tick()
}

/// Polls a future at most so many times; returns its output, how often the
/// thread would have slept and how often the task was woken.
fn turns<F: Future>(future: &mut F, limit: u64) -> (Option<F::Output>, usize, usize) {
    let woken = Arc::new(Wakes(AtomicUsize::new(0)));
    let waker = Waker::from(woken.clone());
    let parks = Cell::new(0);
    let parker = Parker::new(|| parks.set(parks.get() + 1));
    let output = block_on_for(future, &mut Context::from_waker(&waker), &parker, limit);
    (output, parks.get(), woken.0.load(Ordering::SeqCst))
}

fn is_empty(ex: &Shared) -> bool {
    ex.lock().unwrap().is_empty()
}

/// Empties the executor, so that the tasks that it holds do not keep it alive.
fn shut_down(ex: &Shared) {
    let wakers = ex.lock().unwrap().close();
    wake_all(&wakers, &mut WakeLog::new());
    drop(wakers);
    loop {
        let jobs = ex.lock().unwrap().discard();
        if jobs.is_empty() {
            break;
        }
    }
}

fn write(log: &Log, line: &'static str) {
    log.lock().unwrap().push(line);
}

fn lines(log: &Log) -> Vec<&'static str> {
    log.lock().unwrap().clone()
}

#[test]
fn new_executor_has_nothing_to_run() {
    let mut ex = Executor::new();
    assert!(ex.is_empty());
    assert_eq!((ex.active_len(), ex.queue_len(), ex.next_key()), (0, 0, 0));
    assert!(ex.try_tick().is_none());
    assert!(ex.discard().is_empty());
    assert!(ex.close().is_empty());
    assert!(Executor::default().is_empty());
}

#[test]
fn spawned_task_is_run_and_finishes() {
    let ex = shared();
    let log = Log::default();
    let inner = log.clone();
    let task = spawn(&ex, async move { write(&inner, "Hello world") });
    assert!(!is_empty(&ex));
    assert_eq!(ex.lock().unwrap().active_len(), 1);
    assert_eq!(ex.lock().unwrap().queue_len(), 1);
    assert_eq!(tick(&ex), Some(0));
    assert!(is_empty(&ex));
    assert_eq!(lines(&log), ["Hello world"]);
    assert_eq!(tick(&ex), None);
    assert!(task.is_finished());
}

#[test]
fn tasks_that_yield_take_turns() {
    let ex = shared();
    let log = Log::default();
    for (first, second) in [("Hello 1", "Hello 2"), ("Hello A", "Hello B")] {
        let log = log.clone();
        spawn(&ex, async move {
            write(&log, first);
            yielding().await;
            write(&log, second);
        })
        .detach();
    }
    let mut keys = Vec::new();
    while let Some(key) = tick(&ex) {
        keys.push(key);
    }
    assert_eq!(keys, [0, 1, 0, 1]);
    assert_eq!(lines(&log), ["Hello 1", "Hello A", "Hello 2", "Hello B"]);
    assert!(is_empty(&ex));
}

#[test]
fn a_task_that_yields_is_woken_while_it_runs() {
    let ex = shared();
    spawn(&ex, async { yielding().await }).detach();
    let job = ex.lock().unwrap().try_tick().unwrap();
    assert!(job.run().was_woken());
    assert_eq!(ex.lock().unwrap().queue_len(), 1);
    let job = ex.lock().unwrap().try_tick().unwrap();
    assert!(!job.run().was_woken());
    assert_eq!(ex.lock().unwrap().queue_len(), 0);
}

#[test]
fn keys_are_distinct_until_a_task_finishes() {
    let ex = shared();
    spawn(&ex, async { yielding().await }).detach();
    spawn(&ex, async {}).detach();
    spawn(&ex, async {}).detach();
    assert_eq!(ex.lock().unwrap().next_key(), 3);
    assert_eq!(tick(&ex), Some(0));
    assert_eq!(tick(&ex), Some(1));
    assert_eq!(ex.lock().unwrap().active_len(), 2);
    assert_eq!(ex.lock().unwrap().next_key(), 1);
    spawn(&ex, async {}).detach();
    assert_eq!(tick(&ex), Some(2));
    assert_eq!(tick(&ex), Some(0));
    assert_eq!(tick(&ex), Some(1));
    assert!(is_empty(&ex));
}

#[test]
fn finishing_tells_whether_the_task_was_active() {
    let ex = shared();
    spawn(&ex, std::future::pending::<()>()).detach();
    assert!(ex.lock().unwrap().finish(1).is_none());
    assert!(!is_empty(&ex));
    let waker = ex.lock().unwrap().finish(0);
    assert_eq!(waker.map(|waker| waker.task_key()), Some(0));
    assert!(is_empty(&ex));
    assert!(ex.lock().unwrap().finish(0).is_none());
    shut_down(&ex);
}

#[test]
fn ticks_run_a_task_each() {
    let ex = shared();
    let log = Log::default();
    for line in ["one", "two"] {
        let log = log.clone();
        spawn(&ex, async move { write(&log, line) }).detach();
    }
    let mut ticker = Ticker::new(|| next_job(&ex));
    assert!(ticker.try_tick());
    assert_eq!(lines(&log), ["one"]);
    assert!(ticker.try_tick());
    assert_eq!(lines(&log), ["one", "two"]);
    assert!(!ticker.try_tick());
    assert!(is_empty(&ex));
}

#[test]
fn ticks_stop_at_their_limit() {
    let ex = shared();
    let log = Log::default();
    for line in ["one", "two", "three"] {
        let log = log.clone();
        spawn(&ex, async move { write(&log, line) }).detach();
    }
    let mut ticker = Ticker::new(|| next_job(&ex));
    assert!(!ticker.tick_up_to(0));
    assert!(lines(&log).is_empty());
    assert!(!ticker.tick_up_to(2));
    assert_eq!(lines(&log), ["one", "two"]);
    assert!(!ticker.tick_up_to(1));
    assert_eq!(lines(&log), ["one", "two", "three"]);
    assert!(ticker.tick_up_to(1));
}

#[test]
fn exec_runs_tasks_until_none_is_scheduled() {
    let ex = shared();
    let log = Log::default();
    let inner = log.clone();
    spawn(&ex, async move {
        write(&inner, "one");
        yielding().await;
        write(&inner, "two");
    })
    .detach();
    spawn(&ex, std::future::pending::<()>()).detach();
    let mut ticker = Ticker::new(|| next_job(&ex));
    assert!(!Executor::exec(&mut ticker, 2));
    assert_eq!(lines(&log), ["one"]);
    assert!(Executor::exec(&mut ticker, u64::MAX));
    assert_eq!(lines(&log), ["one", "two"]);
    assert_eq!(ex.lock().unwrap().active_len(), 1);
    shut_down(&ex);
}

#[test]
fn close_wakes_every_active_task_in_the_order_of_the_keys() {
    let ex = shared();
    for _ in 0..3 {
        spawn(&ex, std::future::pending::<()>()).detach();
    }
    while tick(&ex).is_some() {}
    let spare = ex.lock().unwrap().finish(1);
    let wakers = ex.lock().unwrap().close();
    let keys: Vec<usize> = wakers.iter().map(|waker| waker.task_key()).collect();
    assert_eq!(keys, [0, 2]);
    assert!(is_empty(&ex));
    assert_eq!(ex.lock().unwrap().next_key(), 0);
    assert_eq!(ex.lock().unwrap().queue_len(), 0);
    wake_all(&wakers, &mut WakeLog::new());
    assert_eq!(ex.lock().unwrap().queue_len(), 2);
    let jobs = ex.lock().unwrap().discard();
    let keys: Vec<usize> = jobs.iter().map(|job| job.task_key()).collect();
    assert_eq!(keys, [0, 2]);
    assert_eq!(ex.lock().unwrap().queue_len(), 0);
    drop(spare);
    drop(wakers);
    drop(jobs);
    shut_down(&ex);
}

#[test]
fn discarded_jobs_come_in_the_order_of_the_queue() {
    let ex = shared();
    for _ in 0..40 {
        spawn(&ex, async {}).detach();
    }
    assert_eq!(tick(&ex), Some(0));
    assert_eq!(ex.lock().unwrap().queue_len(), 39);
    let jobs = ex.lock().unwrap().discard();
    let keys: Vec<usize> = jobs.iter().map(|job| job.task_key()).collect();
    assert_eq!(keys, (1..40).collect::<Vec<usize>>());
    assert_eq!(tick(&ex), None);
    drop(jobs);
    assert!(is_empty(&ex));
}

#[test]
fn run_returns_the_output_of_the_future() {
    let ex = shared();
    spawn(&ex, async {}).detach();
    let mut run = Executor::run(ready(7), Ticker::new(|| next_job(&ex)));
    let (output, parks, wakes) = turns(&mut run, 1);
    assert_eq!((output, parks, wakes), (Some(7), 0, 0));
    // The future is polled first, so that no task has been run.
    assert_eq!(ex.lock().unwrap().queue_len(), 1);
    shut_down(&ex);
}

#[test]
fn run_waits_for_a_task() {
    let ex = shared();
    let task = Mutex::new(spawn(&ex, async { 1 + 2 }));
    let future = poll_fn(|cx: &mut Context<'_>| {
        let mut task = task.lock().unwrap();
        let mut cx = std::task::Context::from_waker(cx.waker());
        match std::future::Future::poll(Pin::new(&mut *task), &mut cx) {
            std::task::Poll::Ready(value) => Poll::Ready(value * 2),
            std::task::Poll::Pending => Poll::Pending,
        }
    });
    let mut run = Executor::run(future, Ticker::new(|| next_job(&ex)));
    assert_eq!(turns(&mut run, 9).0, Some(6));
    assert!(is_empty(&ex));
}

#[test]
fn run_takes_turns_with_the_tasks() {
    let ex = shared();
    let log = Log::default();
    for (first, second) in [("Hello 1", "Hello 2"), ("Hello A", "Hello B")] {
        let log = log.clone();
        spawn(&ex, async move {
            write(&log, first);
            yielding().await;
            write(&log, second);
        })
        .detach();
    }
    let polled = log.clone();
    let left = Cell::new(2);
    let future = poll_fn(move |_: &mut Context<'_>| {
        write(&polled, "future");
        if left.get() == 0 {
            return Poll::Ready(());
        }
        left.set(left.get() - 1);
        Poll::Pending
    });
    let mut run = Executor::run(future, Ticker::new(|| next_job(&ex)));
    assert_eq!(turns(&mut run, 9), (Some(()), 2, 2));
    let expected = ["future", "Hello 1", "Hello A", "Hello 2", "Hello B", "future", "future"];
    assert_eq!(lines(&log), expected);
}

#[test]
fn run_yields_after_two_hundred_tasks() {
    let ex = shared();
    let log = Log::default();
    let inner = log.clone();
    spawn(&ex, async move {
        loop {
            write(&inner, "tick");
            yielding().await;
        }
    })
    .detach();
    assert_eq!(TICKS_PER_YIELD, 200);
    let mut run = Executor::run(pending::<()>(), Ticker::new(|| next_job(&ex)));
    assert_eq!(turns(&mut run, 1), (None, 1, 1));
    assert_eq!(lines(&log).len(), 200);
    assert_eq!(turns(&mut run, 2), (None, 2, 2));
    assert_eq!(lines(&log).len(), 600);
    drop(run);
    shut_down(&ex);
}

#[test]
fn a_closed_and_emptied_executor_is_like_a_new_one() {
    let ex = shared();
    for _ in 0..3 {
        spawn(&ex, async {}).detach();
    }
    assert_eq!(tick(&ex), Some(0));
    let wakers = ex.lock().unwrap().close();
    let jobs = ex.lock().unwrap().discard();
    assert_eq!((wakers.len(), jobs.len()), (2, 2));
    {
        let mut core = ex.lock().unwrap();
        assert!(core.is_empty());
        assert_eq!((core.active_len(), core.queue_len(), core.next_key()), (0, 0, 0));
        assert!(core.try_tick().is_none());
    }
    drop(wakers);
    drop(jobs);
}

#[test]
fn a_task_hands_its_output_to_the_one_that_waits_for_it() {
    let ex = shared();
    let log = Log::default();
    let inner = log.clone();
    let task = spawn(&ex, async { 1 + 2 });
    spawn(&ex, async move {
        if task.await * 2 == 6 {
            write(&inner, "six");
        }
    })
    .detach();
    while tick(&ex).is_some() {}
    assert_eq!(lines(&log), ["six"]);
    assert!(is_empty(&ex));
}

#[test]
fn a_task_that_panics_does_not_disturb_the_executor() {
    let ex = shared();
    let log = Log::default();
    let inner = log.clone();
    let broken = spawn(&ex, async { panic!("broken task") });
    spawn(&ex, async move { write(&inner, "done") }).detach();
    let mut ticker = Ticker::new(|| next_job(&ex));
    assert!(ticker.try_tick());
    assert!(ticker.try_tick());
    assert!(!ticker.try_tick());
    assert_eq!(lines(&log), ["done"]);
    assert!(is_empty(&ex));
    broken.detach();
}

#[test]
fn a_cancelled_task_is_finished_by_a_tick() {
    let ex = shared();
    let log = Log::default();
    let inner = log.clone();
    drop(spawn(&ex, async move { write(&inner, "never") }));
    assert!(!is_empty(&ex));
    assert_eq!(tick(&ex), Some(0));
    assert!(is_empty(&ex));
    assert!(lines(&log).is_empty());
}

#[test]
fn a_turn_leaves_the_tasks_beyond_its_limit() {
    let ex = shared();
    let log = Log::default();
    for _ in 0..201 {
        let log = log.clone();
        spawn(&ex, async move { write(&log, "tick") }).detach();
    }
    let mut run = Executor::run(pending::<()>(), Ticker::new(|| next_job(&ex)));
    assert_eq!(turns(&mut run, 1).0, None);
    assert_eq!(lines(&log).len(), 200);
    drop(run);
    assert_eq!(ex.lock().unwrap().queue_len(), 1);
    assert_eq!(tick(&ex), Some(200));
    assert_eq!(lines(&log).len(), 201);
    assert_eq!(tick(&ex), None);
    assert!(is_empty(&ex));
}

#[test]
fn a_waker_wakes_its_task_once() {
    let ex = shared();
    spawn(&ex, std::future::pending::<()>()).detach();
    spawn(&ex, std::future::pending::<()>()).detach();
    while tick(&ex).is_some() {}
    let waker = ex.lock().unwrap().finish(1).unwrap();
    waker.wake(&mut WakeLog::new());
    assert_eq!(ex.lock().unwrap().queue_len(), 1);
    let job = next_job(&ex).unwrap();
    assert_eq!(job.task_key(), 1);
    job.run();
    shut_down(&ex);
    drop(waker);
    shut_down(&ex);
}

#[test]
fn a_woken_task_is_scheduled_by_its_own_function() {
    let calls = Arc::new(AtomicUsize::new(0));
    let mut ex = Executor::new();
    let counted = calls.clone();
    let task = ex.spawn(async { yielding().await }, move |_: Job| {
        counted.fetch_add(1, Ordering::SeqCst);
    });
    assert_eq!((ex.active_len(), ex.queue_len()), (1, 1));
    assert!(ex.try_tick().unwrap().run().was_woken());
    assert_eq!(calls.load(Ordering::SeqCst), 1);
    assert_eq!(ex.queue_len(), 0);
    drop(task);
}
