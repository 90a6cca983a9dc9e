use ex::futures::{
    block_on, block_on_for, or, pending, poll_fn, poll_once, ready, take_zip_from_parts, yield_now,
    zip, Boxed, BoxedLocal, Context, Future, FutureExt, Parker, Poll, Sleeps,
};
use std::cell::Cell;
use std::sync::atomic::{AtomicUsize, Ordering};
use std::sync::Arc;
use std::task::{Wake, Waker};

/// Counts how often a task was woken.
struct Wakes(AtomicUsize);

impl Wake for Wakes {
    fn wake(self: Arc<Self>) {
        self.0.fetch_add(1, Ordering::SeqCst);
    }
}

fn counting_waker() -> (Arc<Wakes>, Waker) {
    let wakes = Arc::new(Wakes(AtomicUsize::new(0)));
    let waker = Waker::from(wakes.clone());
    (wakes, waker)
}

fn woken(wakes: &Arc<Wakes>) -> usize {
    wakes.0.load(Ordering::SeqCst)
}

/// Is pending `left` times, waking the task each time, and counts its polls.
struct Countdown<'a> {
    left: usize,
    value: i32,
    polls: &'a Cell<usize>,
}

impl Future for Countdown<'_> {
    type Output = i32;

    fn poll(&mut self, cx: &mut Context<'_>) -> Poll<i32> {
        self.polls.set(self.polls.get() + 1);
        if self.left == 0 {
            Poll::Ready(self.value)
        } else {
            self.left -= 1;
            cx.wake_by_ref();
            Poll::Pending
        }
    }
}

/// Polls once with a waker that nobody listens to.
fn poll_now<F: Future>(future: &mut F) -> Poll<F::Output> {
    let (_, waker) = counting_waker();
    Future::poll(future, &mut Context::from_waker(&waker))
}

/// Blocks on a future; returns its output, the number of times that the thread
/// was put to sleep and the number of wakes.
fn block<F: Future>(future: F) -> (F::Output, usize, usize) {
    let (wakes, waker) = counting_waker();
    let parks = Cell::new(0);
    let parker = Parker::new(|| parks.set(parks.get() + 1));
    let output = block_on(future, &mut Context::from_waker(&waker), &parker);
    (output, parks.get(), woken(&wakes))
}

#[test]
fn block_on_returns_the_output() {
    assert_eq!(block(ready(1 + 2)), (3, 0, 0));
}

#[test]
fn block_on_sleeps_after_each_pending_poll() {
    let polls = Cell::new(0);
    let future = Countdown { left: 3, value: 5, polls: &polls };
    assert_eq!(block(future), (5, 3, 3));
    assert_eq!(polls.get(), 4);
}

#[test]
fn block_on_for_stops_after_its_turns() {
    let (wakes, waker) = counting_waker();
    let mut cx = Context::from_waker(&waker);
    let parks = Cell::new(0);
    let parker = Parker::new(|| parks.set(parks.get() + 1));
    let polls = Cell::new(0);
    let mut future = Countdown { left: 3, value: 5, polls: &polls };
    assert_eq!(block_on_for(&mut future, &mut cx, &parker, 0), None);
    assert_eq!((polls.get(), parks.get(), woken(&wakes)), (0, 0, 0));
    assert_eq!(block_on_for(&mut future, &mut cx, &parker, 2), None);
    assert_eq!((polls.get(), parks.get(), woken(&wakes)), (2, 2, 2));
    assert_eq!(block_on_for(&mut future, &mut cx, &parker, 5), Some(5));
    assert_eq!((polls.get(), parks.get(), woken(&wakes)), (4, 3, 3));
}

#[test]
fn parker_calls_its_function() {
    let parks = Cell::new(0);
    let parker = Parker::new(|| parks.set(parks.get() + 1));
    let mut sleeps = Sleeps::new();
    parker.park(&mut sleeps);
    parker.park(&mut sleeps);
    assert_eq!(parks.get(), 2);
}

#[test]
fn poll_once_gives_none_or_the_output() {
    assert_eq!(block(poll_once(pending::<()>())), (None, 0, 0));
    assert_eq!(block(poll_once(ready(42))), (Some(42), 0, 0));
}

#[test]
fn poll_once_polls_once() {
    let polls = Cell::new(0);
    let future = Countdown { left: 1, value: 5, polls: &polls };
    assert_eq!(block(poll_once(future)), (None, 0, 1));
    assert_eq!(polls.get(), 1);
}

#[test]
fn poll_fn_calls_the_function() {
    fn f(_: &mut Context<'_>) -> Poll<i32> {
        Poll::Ready(7)
    }

    assert_eq!(block(poll_fn(f)), (7, 0, 0));
}

#[test]
fn poll_fn_keeps_the_state_of_the_function() {
    let mut left = 2;
    let future = poll_fn(|cx: &mut Context<'_>| {
        if left == 0 {
            Poll::Ready('a')
        } else {
            left -= 1;
            cx.wake_by_ref();
            Poll::Pending
        }
    });
    assert_eq!(block(future), ('a', 2, 2));
}

#[test]
fn yield_now_wakes_and_is_pending_once() {
    let (wakes, waker) = counting_waker();
    let mut cx = Context::from_waker(&waker);
    let mut future = yield_now();
    assert_eq!(Future::poll(&mut future, &mut cx), Poll::Pending);
    assert_eq!(woken(&wakes), 1);
    assert_eq!(Future::poll(&mut future, &mut cx), Poll::Ready(()));
    assert_eq!(woken(&wakes), 1);
    assert_eq!(block(yield_now()), ((), 1, 1));
}

#[test]
fn zip_joins_the_outputs() {
    assert_eq!(block(zip(ready(1), ready(2))), ((1, 2), 0, 0));
}

#[test]
fn zip_waits_for_the_last_and_polls_none_again() {
    let (polls1, polls2) = (Cell::new(0), Cell::new(0));
    let future = zip(
        Countdown { left: 1, value: 10, polls: &polls1 },
        Countdown { left: 3, value: 20, polls: &polls2 },
    );
    assert_eq!(block(future), ((10, 20), 3, 4));
    assert_eq!((polls1.get(), polls2.get()), (2, 4));
}

#[test]
fn zip_keeps_an_output_while_the_other_is_pending() {
    let mut future = zip(ready(1), pending::<u8>());
    assert_eq!(poll_now(&mut future), Poll::Pending);
    assert_eq!(future.output1, Some(1));
    assert_eq!(future.output2, None);
    assert_eq!(poll_now(&mut future), Poll::Pending);
    assert_eq!(future.output1, Some(1));
}

#[test]
fn take_zip_from_parts_takes_both_or_none() {
    let (mut o1, mut o2) = (Some(1), Some('b'));
    assert_eq!(take_zip_from_parts(&mut o1, &mut o2), Poll::Ready((1, 'b')));
    assert_eq!((o1, o2), (None, None));

    let (mut o1, mut o2) = (Some(1), None::<char>);
    assert_eq!(take_zip_from_parts(&mut o1, &mut o2), Poll::Pending);
    assert_eq!((o1, o2), (Some(1), None));

    let (mut o1, mut o2) = (None::<i32>, Some('b'));
    assert_eq!(take_zip_from_parts(&mut o1, &mut o2), Poll::Pending);
    assert_eq!((o1, o2), (None, Some('b')));

    let (mut o1, mut o2) = (None::<i32>, None::<char>);
    assert_eq!(take_zip_from_parts(&mut o1, &mut o2), Poll::Pending);
    assert_eq!((o1, o2), (None, None));
}

#[test]
fn or_prefers_the_first() {
    assert_eq!(block(or(ready(1), pending())), (1, 0, 0));
    assert_eq!(block(or(pending(), ready(2))), (2, 0, 0));

    // The first future wins.
    assert_eq!(block(or(ready(1), ready(2))), (1, 0, 0));
}

#[test]
fn or_does_not_poll_the_second_if_the_first_is_ready() {
    let (polls1, polls2) = (Cell::new(0), Cell::new(0));
    let future = or(
        Countdown { left: 1, value: 10, polls: &polls1 },
        Countdown { left: 2, value: 20, polls: &polls2 },
    );
    assert_eq!(block(future), (10, 1, 2));
    assert_eq!((polls1.get(), polls2.get()), (2, 1));
}

#[test]
fn or_yields_the_one_that_completes_first() {
    let (polls1, polls2) = (Cell::new(0), Cell::new(0));
    let future = or(
        Countdown { left: 2, value: 10, polls: &polls1 },
        Countdown { left: 1, value: 20, polls: &polls2 },
    );
    assert_eq!(block(future), (20, 1, 3));
    assert_eq!((polls1.get(), polls2.get()), (2, 2));
}

#[test]
fn ext_or_prefers_self() {
    assert_eq!(block(ready(1).or(pending())), (1, 0, 0));
    assert_eq!(block(pending().or(ready(2))), (2, 0, 0));

    // The first future wins.
    assert_eq!(block(ready(1).or(ready(2))), (1, 0, 0));
}

#[test]
fn boxed_futures_share_a_collection() {
    let mut futures: Vec<Boxed<'_, char>> = vec![ready('a').boxed(), pending().boxed()];
    assert_eq!(poll_now(&mut futures[0]), Poll::Ready('a'));
    assert_eq!(poll_now(&mut futures[1]), Poll::Pending);
    assert_eq!(poll_now(&mut futures[1]), Poll::Pending);
}

#[test]
fn boxed_local_futures_share_a_collection() {
    let polls = Cell::new(0);
    let counting = Countdown { left: 2, value: 9, polls: &polls };
    let mut futures: Vec<BoxedLocal<'_, i32>> =
        vec![ready(1).boxed_local(), counting.boxed_local()];
    assert_eq!(poll_now(&mut futures[0]), Poll::Ready(1));
    assert_eq!(block(futures.remove(1)), (9, 2, 2));
    assert_eq!(polls.get(), 3);
}

#[test]
fn boxed_futures_may_be_sent() {
    fn sent<T: Send>(value: T) -> T {
        value
    }

    let mut boxed = sent(zip(ready(1), ready(2)).boxed());
    assert_eq!(poll_now(&mut boxed), Poll::Ready((1, 2)));
}

#[test]
fn context_lends_its_waker() {
    let (wakes, waker) = counting_waker();
    let mut cx = Context::from_waker(&waker);
    assert!(cx.waker().will_wake(&waker));
    assert_eq!(woken(&wakes), 0);
    cx.wake_by_ref();
    cx.wake_by_ref();
    assert_eq!(woken(&wakes), 2);
}

#[test]
fn pending_stays_pending_and_wakes_nobody() {
    let (wakes, waker) = counting_waker();
    let mut cx = Context::from_waker(&waker);
    let mut future = pending::<i32>();
    for _ in 0..5 {
        assert_eq!(Future::poll(&mut future, &mut cx), Poll::Pending);
    }
    assert_eq!(woken(&wakes), 0);
}

#[test]
fn combinators_nest() {
    let polls = Cell::new(0);
    let slow = Countdown { left: 4, value: 1, polls: &polls };
    let other = Cell::new(0);
    let fast = Countdown { left: 2, value: 7, polls: &other };
    assert_eq!(block(zip(yield_now(), slow.or(fast))), (((), 7), 2, 6));
    assert_eq!((polls.get(), other.get()), (3, 3));
    assert_eq!(block(poll_once(ready(4).boxed())), (Some(4), 0, 0));
}

#[test]
fn futures_can_be_printed() {
    assert_eq!(
        format!("{:?}", or(yield_now(), yield_now())),
        "Or { future1: YieldNow(false), future2: YieldNow(false) }"
    );
    assert_eq!(
        format!("{:?}", zip(yield_now(), yield_now())),
        "Zip { future1: YieldNow(false), output1: None, future2: YieldNow(false), output2: None }"
    );
}

#[test]
fn zip_polls_the_first_future_first() {
    let log = Cell::new(Vec::new());
    let note = |name: &'static str| {
        let mut names = log.take();
        names.push(name);
        log.set(names);
    };
    let first = poll_fn(|_: &mut Context<'_>| {
        note("first");
        Poll::Ready(1)
    });
    let second = poll_fn(|_: &mut Context<'_>| {
        note("second");
        Poll::Ready(2)
    });
    assert_eq!(block(zip(first, second)), ((1, 2), 0, 0));
    assert_eq!(log.take(), ["first", "second"]);
}

#[test]
fn block_on_sleeps_between_polls() {
    let log = Cell::new(String::new());
    let note = |letter: char| {
        let mut letters = log.take();
        letters.push(letter);
        log.set(letters);
    };
    let left = Cell::new(2);
    let future = poll_fn(|_: &mut Context<'_>| {
        note('p');
        if left.get() == 0 {
            return Poll::Ready(8);
        }
        left.set(left.get() - 1);
        Poll::Pending
    });
    let (_, waker) = counting_waker();
    let parker = Parker::new(|| note('s'));
    assert_eq!(block_on(future, &mut Context::from_waker(&waker), &parker), 8);
    assert_eq!(log.take(), "pspsp");
}
