//! What holds of the combinators over a whole run of polls.

use crate::futures::boxed::{Boxed, BoxedLocal};
use crate::futures::block_on::turns_taken;
use crate::futures::context::{Context, ContextView, Poll};
use crate::futures::future::{
    behaves, completes, law_pending_twice, lemma_pends_once, pends, pends_as, ready_within, Future,
    Pending, Ready,
};
use crate::futures::or::Or;
use crate::futures::poll_fn::{can_return, PollFn};
use crate::futures::poll_once::PollOnce;
use crate::futures::yield_now::YieldNow;
use crate::futures::zip::{both, half_polled, half_polled_in, poll_of, Zip};
use vstd::prelude::*;

verus! {

/// A ready future completes in its first poll with its value, without a wake,
/// and in no other way.
pub proof fn law_ready<T>(value: T, n: nat, wakes: nat, output: T)
    ensures
        completes(Ready { value: Some(value) }, n, wakes, output) <==> n == 0 && wakes == 0
            && output == value,
        ready_within(Ready { value: Some(value) }, 0),
{
    let future = Ready { value: Some(value) };
    if n == 0 && wakes == 0 && output == value {
        assert(Ready::polled(future, Ready { value: None }, 0, Poll::Ready(value)));
    }
}

/// A pending future never completes.
pub proof fn law_pending<T>(future: Pending<T>, n: nat, wakes: nat, output: T)
    ensures
        !completes(future, n, wakes, output),
    decreases n,
{
    if n > 0 && completes(future, n, wakes, output) {
        let (post, first) = choose|post: Pending<T>, first: nat|
            {
                &&& #[trigger] Pending::polled(future, post, first, Poll::Pending)
                &&& first <= wakes
                &&& completes(post, (n - 1) as nat, (wakes - first) as nat, output)
            };
        law_pending(post, (n - 1) as nat, (wakes - first) as nat, output);
    }
}

/// Yielding leaves the future pending exactly once, and wakes the task exactly
/// once.
pub proof fn law_yield_now(n: nat, wakes: nat)
    ensures
        completes(YieldNow(false), n, wakes, ()) <==> n == 1 && wakes == 1,
        ready_within(YieldNow(false), 1),
{
    let first = YieldNow(false);
    let second = YieldNow(true);
    assert(YieldNow::polled(first, second, 1, Poll::Pending));
    assert(YieldNow::polled(second, second, 0, Poll::Ready(())));
    assert(completes(second, 0, 0, ()));
    assert forall|m: nat, more: nat| #[trigger] completes(second, m, more, ()) implies m == 0
        && more == 0 by {}
    if completes(first, n, wakes, ()) {
        assert(n > 0);
        let (post, woken) = choose|post: YieldNow, woken: nat|
            {
                &&& #[trigger] YieldNow::polled(first, post, woken, Poll::Pending)
                &&& woken <= wakes
                &&& completes(post, (n - 1) as nat, (wakes - woken) as nat, ())
            };
        assert(completes(second, (n - 1) as nat, (wakes - woken) as nat, ()));
    }
    assert(completes(first, 1, 1, ()));
    assert(ready_within(second, 0));
}

/// Whether polling a future again and again, also after it has completed, can
/// leave it as `post`, make these numbers of wakes and return these results.
pub open spec fn leads_to<F: Future>(
    future: F,
    post: F,
    trace: Seq<(nat, Poll<F::Output>)>,
) -> bool
    decreases trace.len(),
{
    if trace.len() == 0 {
        post == future
    } else {
        exists|next: F|
            {
                &&& #[trigger] F::polled(future, next, trace[0].0, trace[0].1)
                &&& leads_to(next, post, trace.drop_first())
            }
    }
}

/// Each poll of a future that was made from a function calls the function once,
/// and returns what this call returned. It is the same function each time.
pub proof fn law_poll_fn<T, F>(
    future: PollFn<F>,
    post: PollFn<F>,
    trace: Seq<(nat, Poll<T>)>,
) where F: FnMut(&mut Context<'_>) -> Poll<T>
    requires
        leads_to(future, post, trace),
    ensures
        post.f.calls() == future.f.calls() + trace.len(),
        post.f.function() == future.f.function(),
        forall|i: int|
            0 <= i < trace.len() ==> can_return(future.f.function(), (#[trigger] trace[i]).1),
    decreases trace.len(),
{
    if trace.len() > 0 {
        let rest = trace.drop_first();
        let next = choose|next: PollFn<F>|
            {
                &&& #[trigger] PollFn::polled(future, next, trace[0].0, trace[0].1)
                &&& leads_to(next, post, rest)
            };
        law_poll_fn(next, post, rest);
        assert forall|i: int| 0 <= i < trace.len() implies can_return(
            future.f.function(),
            (#[trigger] trace[i]).1,
        ) by {
            if i > 0 {
                assert(rest[i - 1] == trace[i]);
            }
        }
    }
}

/// The k-th poll of a future that was made from a function returns what the
/// k-th call of the function returns: a function that returns `nth(k)` when it
/// gets the context that was lent out for the call with the number `k` makes
/// the polls return `nth(k)`, `nth(k + 1)` and so on, none left out and none
/// twice.
pub proof fn law_poll_fn_nth_call<T, F>(
    future: PollFn<F>,
    post: PollFn<F>,
    trace: Seq<(nat, Poll<T>)>,
    nth: spec_fn(nat) -> Poll<T>,
) where F: FnMut(&mut Context<'_>) -> Poll<T>
    requires
        leads_to(future, post, trace),
        forall|cx: &mut Context<'_>, out: Poll<T>, k: nat| #[trigger]
            call_ensures(future.f.function(), (cx,), out) && #[trigger] future.f.lends_for(
                *cx,
                k,
            ) ==> out == nth(k),
    ensures
        forall|i: int|
            0 <= i < trace.len() ==> (#[trigger] trace[i]).1 == nth(
                (future.f.calls() + i) as nat,
            ),
        post.f.calls() == future.f.calls() + trace.len(),
    decreases trace.len(),
{
    if trace.len() > 0 {
        let rest = trace.drop_first();
        let next = choose|next: PollFn<F>|
            {
                &&& #[trigger] PollFn::polled(future, next, trace[0].0, trace[0].1)
                &&& leads_to(next, post, rest)
            };
        let out = trace[0].1;
        let cx = choose|cx: &mut Context<'_>|
            {
                &&& #[trigger] call_ensures(future.f.function(), (cx,), out)
                &&& future.f.lends_for(*cx, future.f.calls())
            };
        assert(out == nth(future.f.calls()));
        assert forall|cx: &mut Context<'_>, out: Poll<T>, k: nat| #[trigger]
            call_ensures(next.f.function(), (cx,), out) && #[trigger] next.f.lends_for(
                *cx,
                k,
            ) implies out == nth(k) by {
            assert(future.f.lends_for(*cx, k));
        }
        law_poll_fn_nth_call(next, post, rest, nth);
        assert forall|i: int| 0 <= i < trace.len() implies (#[trigger] trace[i]).1 == nth(
            (future.f.calls() + i) as nat,
        ) by {
            if i > 0 {
                assert(rest[i - 1] == trace[i]);
            }
        }
    }
}

/// A future that was made from a function can be polled as soon as the function
/// takes the contexts that are lent out for it. No other context is handed to
/// it.
pub proof fn law_poll_fn_hands_out_lent_contexts<T, F>(future: PollFn<F>) where
    F: FnMut(&mut Context<'_>) -> Poll<T>,

    requires
        forall|cx: &mut Context<'_>, k: nat| #[trigger]
            future.f.lends_for(*cx, k) ==> #[trigger] call_requires(future.f.function(), (cx,)),
    ensures
        future.pollable(),
{
    assert forall|cx: &mut Context<'_>| future.f.lends(*cx) implies #[trigger] call_requires(
        future.f.function(),
        (cx,),
    ) by {
        assert(future.f.lends_for(*cx, cx.stamp()->0.number));
    }
}

/// Waking adds the waker of the context to its wakes, and sleeping counts;
/// neither does anything else.
pub proof fn law_waking_and_sleeping(cx: ContextView)
    ensures
        cx.woken().log.len() == cx.log.len() + 1,
        cx.woken().log.last() == cx.lent,
        cx.woken().log.drop_last() == cx.log,
        cx.woken().lent == cx.lent,
        cx.woken().sleeps == cx.sleeps,
        cx.woken().wakes() == cx.wakes() + 1,
        cx.slept().sleeps == cx.sleeps + 1,
        cx.slept().log == cx.log,
        cx.slept().lent == cx.lent,
        cx.slept().wakes() == cx.wakes(),
{
    assert(cx.woken().log.drop_last() =~= cx.log);
}

/// Polling a pending future wakes nobody and leaves it as it is, however often.
pub proof fn law_pending_is_quiet<T>(future: Pending<T>, post: Pending<T>, n: nat, wakes: nat)
    ensures
        pends_as(future, post, n, wakes) <==> post == future && wakes == 0,
    decreases n,
{
    if n > 0 {
        law_pending_is_quiet(future, post, (n - 1) as nat, wakes);
        if post == future && wakes == 0 {
            assert(Pending::polled(future, future, 0, Poll::Pending));
            assert(pends_as(future, post, (n - 1) as nat, 0));
        }
    }
}

/// The first poll of a yield wakes the task of the context, once, and the polls
/// after it wake nobody.
pub proof fn law_yield_wakes_the_task(
    future: YieldNow,
    post: YieldNow,
    before: ContextView,
    after: ContextView,
    out: Poll<()>,
)
    requires
        YieldNow::polled_in(future, post, before, after, out),
    ensures
        post == YieldNow(true),
        !future.0 ==> out is Pending && after.log == before.log.push(before.lent),
        future.0 ==> out == Poll::Ready(()) && after.log == before.log,
        after.lent == before.lent,
        after.sleeps == before.sleeps,
{
}

/// A join polls each future that has not completed once, and no other: the first
/// one with the context as it comes, and then the second one with the context as
/// the first leaves it. The outputs are kept until both are there.
pub proof fn law_zip_polls_in_order<F1: Future, F2: Future>(
    future: Zip<F1, F2>,
    post: Zip<F1, F2>,
    before: ContextView,
    after: ContextView,
    out: Poll<(F1::Output, F2::Output)>,
) -> (parts: (Poll<F1::Output>, Poll<F2::Output>, ContextView))
    requires
        Zip::polled_in(future, post, before, after, out),
    ensures
        future.output1 is None ==> F1::polled_in(
            future.future1,
            post.future1,
            before,
            parts.2,
            parts.0,
        ),
        future.output1 matches Some(output) ==> post.future1 == future.future1 && parts.2 == before
            && parts.0 == Poll::Ready(output),
        future.output2 is None ==> F2::polled_in(
            future.future2,
            post.future2,
            parts.2,
            after,
            parts.1,
        ),
        future.output2 matches Some(output) ==> post.future2 == future.future2 && after == parts.2
            && parts.1 == Poll::Ready(output),
        out is Ready <==> parts.0 is Ready && parts.1 is Ready,
        out is Ready ==> out == Poll::Ready((parts.0->0, parts.1->0)),
        out is Pending ==> (post.output1 == match parts.0 {
            Poll::Ready(output) => Some(output),
            Poll::Pending => None,
        }),
        out is Pending ==> (post.output2 == match parts.1 {
            Poll::Ready(output) => Some(output),
            Poll::Pending => None,
        }),
{
    let (o1, o2, middle) = choose|
        o1: Option<F1::Output>,
        o2: Option<F2::Output>,
        middle: ContextView,
    |
        {
            &&& #[trigger] half_polled_in(
                future.future1,
                future.output1,
                post.future1,
                o1,
                before,
                middle,
            )
            &&& #[trigger] half_polled_in(
                future.future2,
                future.output2,
                post.future2,
                o2,
                middle,
                after,
            )
            &&& out == both(o1, o2)
            &&& post.output1 == if out is Ready { None } else { o1 }
            &&& post.output2 == if out is Ready { None } else { o2 }
        };
    (poll_of(o1), poll_of(o2), middle)
}

/// Waiting for the first of two futures polls the first one with the context as
/// it comes, and then, only if that is pending, the second one with the context
/// as the first leaves it.
pub proof fn law_or_polls_in_order<T, F1, F2>(
    future: Or<F1, F2>,
    post: Or<F1, F2>,
    before: ContextView,
    after: ContextView,
    out: Poll<T>,
) -> (parts: (Poll<T>, ContextView)) where F1: Future<Output = T>, F2: Future<Output = T>
    requires
        Or::polled_in(future, post, before, after, out),
    ensures
        F1::polled_in(future.future1, post.future1, before, parts.1, parts.0),
        parts.0 is Ready ==> out == parts.0 && post.future2 == future.future2 && after == parts.1,
        parts.0 is Pending ==> F2::polled_in(future.future2, post.future2, parts.1, after, out),
{
    if out is Ready && F1::polled_in(future.future1, post.future1, before, after, out)
        && post.future2 == future.future2 {
        (out, after)
    } else {
        let middle = choose|middle: ContextView|
            {
                &&& #[trigger] F1::polled_in(
                    future.future1,
                    post.future1,
                    before,
                    middle,
                    Poll::Pending,
                )
                &&& F2::polled_in(future.future2, post.future2, middle, after, out)
            };
        (Poll::Pending, middle)
    }
}

/// Blocking starts with a poll, and the thread sleeps once between a poll that
/// leaves the future pending and the next poll: the turns are a poll, a sleep,
/// and then the other turns.
pub proof fn law_turns_begin_with_a_poll<F: Future>(
    future: F,
    post: F,
    before: ContextView,
    after: ContextView,
    n: nat,
) -> (first: (F, ContextView))
    requires
        n > 0,
        turns_taken(future, post, before, after, n),
    ensures
        F::polled_in(future, first.0, before, first.1, Poll::Pending),
        turns_taken(
            first.0,
            post,
            ContextView { sleeps: first.1.sleeps + 1, ..first.1 },
            after,
            (n - 1) as nat,
        ),
    decreases n,
{
    let (last, start, between) = choose|last: F, start: ContextView, between: ContextView|
        {
            &&& #[trigger] F::polled_in(last, post, start, between, Poll::Pending)
            &&& turns_taken(future, last, before, start, (n - 1) as nat)
            &&& after == #[trigger] between.slept()
        };
    if n == 1 {
        assert(turns_taken(post, post, between.slept(), after, 0));
        (post, between)
    } else {
        let first = law_turns_begin_with_a_poll(future, last, before, start, (n - 1) as nat);
        assert(first.1.slept() == (ContextView { sleeps: first.1.sleeps + 1, ..first.1 }));
        assert(turns_taken(first.0, post, first.1.slept(), after, (n - 1) as nat));
        first
    }
}

/// Polling a future once takes one poll, whatever the future does: it yields
/// the output if the future completed, and nothing if it is pending.
pub proof fn law_poll_once<F: Future>(f: F, n: nat, wakes: nat, output: Option<F::Output>)
    ensures
        completes(PollOnce { f }, n, wakes, output) <==> {
            &&& n == 0
            &&& match output {
                Some(value) => completes(f, 0, wakes, value),
                None => pends(f, 1, wakes),
            }
        },
        ready_within(PollOnce { f }, 0),
{
    let future = PollOnce { f };
    if completes(future, n, wakes, output) {
        assert(n == 0);
        let post = choose|post: PollOnce<F>| #[trigger]
            PollOnce::polled(future, post, wakes, Poll::Ready(output));
        if output is None {
            lemma_pends_once(f, post.f, wakes);
        }
    }
    if n == 0 {
        match output {
            Some(value) => {
                if completes(f, 0, wakes, value) {
                    let post = choose|post: F| #[trigger]
                        F::polled(f, post, wakes, Poll::Ready(value));
                    assert(PollOnce::polled(
                        future,
                        PollOnce { f: post },
                        wakes,
                        Poll::Ready(output),
                    ));
                }
            },
            None => {
                if pends(f, 1, wakes) {
                    let post = choose|post: F| #[trigger] pends_as(f, post, 1, wakes);
                    let (next, first) = choose|next: F, first: nat|
                        {
                            &&& #[trigger] F::polled(f, next, first, Poll::Pending)
                            &&& first <= wakes
                            &&& pends_as(next, post, 0, (wakes - first) as nat)
                        };
                    assert(PollOnce::polled(
                        future,
                        PollOnce { f: next },
                        wakes,
                        Poll::Ready(output),
                    ));
                }
            },
        }
    }
}

/// The larger of two numbers.
pub open spec fn larger(n: nat, m: nat) -> nat {
    if n >= m {
        n
    } else {
        m
    }
}

/// Whether a future whose output may be known already can complete in this way.
/// One whose output is known takes no further poll.
pub open spec fn half_completes<F: Future>(
    future: F,
    output: Option<F::Output>,
    n: nat,
    wakes: nat,
    value: F::Output,
) -> bool {
    match output {
        Some(known) => n == 0 && wakes == 0 && value == known,
        None => completes(future, n, wakes, value),
    }
}

/// The next poll of a future that completes in a given way.
proof fn lemma_half_advances<F: Future>(
    future: F,
    output: Option<F::Output>,
    n: nat,
    wakes: nat,
    value: F::Output,
) -> (next: (F, Option<F::Output>, nat))
    requires
        half_completes(future, output, n, wakes, value),
    ensures
        half_polled(future, output, next.0, next.1, next.2),
        next.2 <= wakes,
        next.1 is Some <==> n == 0,
        half_completes(
            next.0,
            next.1,
            if n == 0 {
                0
            } else {
                (n - 1) as nat
            },
            (wakes - next.2) as nat,
            value,
        ),
{
    if output is Some {
        (future, output, 0)
    } else if n == 0 {
        let post = choose|post: F| #[trigger]
            F::polled(future, post, wakes, Poll::Ready(value));
        (post, Some(value), wakes)
    } else {
        let (post, first) = choose|post: F, first: nat|
            {
                &&& #[trigger] F::polled(future, post, first, Poll::Pending)
                &&& first <= wakes
                &&& completes(post, (n - 1) as nat, (wakes - first) as nat, value)
            };
        (post, None, first)
    }
}

/// A poll of a future, and how the future completes from there on.
proof fn lemma_half_began<F: Future>(
    future: F,
    output: Option<F::Output>,
    post: F,
    new_output: Option<F::Output>,
    first: nat,
    n: nat,
    wakes: nat,
    value: F::Output,
)
    requires
        half_polled(future, output, post, new_output, first),
        half_completes(post, new_output, n, wakes, value),
    ensures
        half_completes(
            future,
            output,
            if new_output is Some {
                0
            } else {
                n + 1
            },
            first + wakes,
            value,
        ),
{
    if output is None {
        assert(F::polled(future, post, first, poll_of(new_output)));
        if new_output is None {
            assert(completes(post, ((n + 1) - 1) as nat, ((first + wakes) - first) as nat, value));
        }
    }
}

/// If a pair of futures completes, then each of the two does, the pair when the
/// last of them does.
proof fn lemma_zip_parts<F1: Future, F2: Future>(
    future: Zip<F1, F2>,
    n: nat,
    wakes: nat,
    a: F1::Output,
    b: F2::Output,
) -> (parts: (nat, nat, nat, nat))
    requires
        completes(future, n, wakes, (a, b)),
    ensures
        half_completes(future.future1, future.output1, parts.0, parts.1, a),
        half_completes(future.future2, future.output2, parts.2, parts.3, b),
        n == larger(parts.0, parts.2),
        wakes == parts.1 + parts.3,
    decreases n,
{
    let (post, first, out) = if n == 0 {
        let post = choose|post: Zip<F1, F2>| #[trigger]
            Zip::polled(future, post, wakes, Poll::Ready((a, b)));
        (post, wakes, Poll::Ready((a, b)))
    } else {
        let (post, first) = choose|post: Zip<F1, F2>, first: nat|
            {
                &&& #[trigger] Zip::polled(future, post, first, Poll::Pending)
                &&& first <= wakes
                &&& completes(post, (n - 1) as nat, (wakes - first) as nat, (a, b))
            };
        (post, first, Poll::Pending)
    };
    assert(Zip::polled(future, post, first, out));
    let (o1, o2, first1, first2) = choose|
        o1: Option<F1::Output>,
        o2: Option<F2::Output>,
        first1: nat,
        first2: nat,
    |
        {
            &&& #[trigger] half_polled(future.future1, future.output1, post.future1, o1, first1)
            &&& #[trigger] half_polled(future.future2, future.output2, post.future2, o2, first2)
            &&& first == first1 + first2
            &&& out == both(o1, o2)
            &&& post.output1 == if out is Ready { None } else { o1 }
            &&& post.output2 == if out is Ready { None } else { o2 }
        };
    let (n1, wakes1, n2, wakes2) = if n == 0 {
        (0nat, 0nat, 0nat, 0nat)
    } else {
        lemma_zip_parts(post, (n - 1) as nat, (wakes - first) as nat, a, b)
    };
    lemma_half_began(
        future.future1,
        future.output1,
        post.future1,
        o1,
        first1,
        n1,
        wakes1,
        a,
    );
    lemma_half_began(
        future.future2,
        future.output2,
        post.future2,
        o2,
        first2,
        n2,
        wakes2,
        b,
    );
    (
        if o1 is Some {
            0
        } else {
            n1 + 1
        },
        first1 + wakes1,
        if o2 is Some {
            0
        } else {
            n2 + 1
        },
        first2 + wakes2,
    )
}

/// If each of two futures completes, then so does the pair, when the last of
/// them does.
proof fn lemma_zip_whole<F1: Future, F2: Future>(
    future: Zip<F1, F2>,
    n1: nat,
    wakes1: nat,
    a: F1::Output,
    n2: nat,
    wakes2: nat,
    b: F2::Output,
)
    requires
        half_completes(future.future1, future.output1, n1, wakes1, a),
        half_completes(future.future2, future.output2, n2, wakes2, b),
    ensures
        completes(future, larger(n1, n2), wakes1 + wakes2, (a, b)),
    decreases larger(n1, n2),
{
    let (next1, o1, first1) = lemma_half_advances(
        future.future1,
        future.output1,
        n1,
        wakes1,
        a,
    );
    let (next2, o2, first2) = lemma_half_advances(
        future.future2,
        future.output2,
        n2,
        wakes2,
        b,
    );
    let out = both(o1, o2);
    let post = Zip {
        future1: next1,
        output1: if out is Ready {
            None
        } else {
            o1
        },
        future2: next2,
        output2: if out is Ready {
            None
        } else {
            o2
        },
    };
    assert(half_polled(future.future1, future.output1, post.future1, o1, first1));
    assert(half_polled(future.future2, future.output2, post.future2, o2, first2));
    assert(Zip::polled(future, post, first1 + first2, out));
    if larger(n1, n2) == 0 {
        assert(completes(future, 0, wakes1 + wakes2, (a, b)));
    } else {
        let m1: nat = if n1 == 0 {
            0
        } else {
            (n1 - 1) as nat
        };
        let m2: nat = if n2 == 0 {
            0
        } else {
            (n2 - 1) as nat
        };
        lemma_zip_whole(
            post,
            m1,
            (wakes1 - first1) as nat,
            a,
            m2,
            (wakes2 - first2) as nat,
            b,
        );
        let n = larger(n1, n2);
        let wakes = wakes1 + wakes2;
        let first = first1 + first2;
        assert(larger(m1, m2) == (n - 1) as nat);
        assert((wakes1 - first1) as nat + (wakes2 - first2) as nat == (wakes - first) as nat);
        assert(Zip::polled(future, post, first, Poll::Pending));
        assert(completes(post, (n - 1) as nat, (wakes - first) as nat, (a, b)));
    }
}

/// Joining two futures waits for both: the pair completes with their outputs,
/// in the poll in which the last of them completes, and the task is woken as
/// often as by the two together.
pub proof fn law_zip<F1: Future, F2: Future>(
    future1: F1,
    future2: F2,
    n: nat,
    wakes: nat,
    a: F1::Output,
    b: F2::Output,
)
    ensures
        completes(Zip { future1, output1: None, future2, output2: None }, n, wakes, (a, b))
            <==> exists|n1: nat, wakes1: nat, n2: nat, wakes2: nat|
            {
                &&& #[trigger] completes(future1, n1, wakes1, a)
                &&& #[trigger] completes(future2, n2, wakes2, b)
                &&& n == larger(n1, n2)
                &&& wakes == wakes1 + wakes2
            },
{
    let future = Zip { future1, output1: None, future2, output2: None };
    if completes(future, n, wakes, (a, b)) {
        let (n1, wakes1, n2, wakes2) = lemma_zip_parts(future, n, wakes, a, b);
        assert(completes(future1, n1, wakes1, a));
        assert(completes(future2, n2, wakes2, b));
    }
    if exists|n1: nat, wakes1: nat, n2: nat, wakes2: nat|
        {
            &&& #[trigger] completes(future1, n1, wakes1, a)
            &&& #[trigger] completes(future2, n2, wakes2, b)
            &&& n == larger(n1, n2)
            &&& wakes == wakes1 + wakes2
        } {
        let (n1, wakes1, n2, wakes2) = choose|n1: nat, wakes1: nat, n2: nat, wakes2: nat|
            {
                &&& #[trigger] completes(future1, n1, wakes1, a)
                &&& #[trigger] completes(future2, n2, wakes2, b)
                &&& n == larger(n1, n2)
                &&& wakes == wakes1 + wakes2
            };
        lemma_zip_whole(future, n1, wakes1, a, n2, wakes2, b);
    }
}

/// A poll that leaves a future pending, before others that do.
proof fn lemma_pends_began<F: Future>(future: F, next: F, first: nat, n: nat, wakes: nat)
    requires
        F::polled(future, next, first, Poll::Pending),
        pends(next, n, wakes),
    ensures
        pends(future, n + 1, first + wakes),
{
    let post = choose|post: F| #[trigger] pends_as(next, post, n, wakes);
    lemma_pends_once(future, next, first);
    law_pending_twice(future, next, post, 1, first, n, wakes);
}

/// The first of the polls that leave a future pending.
proof fn lemma_pends_advances<F: Future>(future: F, n: nat, wakes: nat) -> (next: (F, nat))
    requires
        n > 0,
        pends(future, n, wakes),
    ensures
        F::polled(future, next.0, next.1, Poll::Pending),
        next.1 <= wakes,
        pends(next.0, (n - 1) as nat, (wakes - next.1) as nat),
{
    let post = choose|post: F| #[trigger] pends_as(future, post, n, wakes);
    choose|next: F, first: nat|
        {
            &&& #[trigger] F::polled(future, next, first, Poll::Pending)
            &&& first <= wakes
            &&& pends_as(next, post, (n - 1) as nat, (wakes - first) as nat)
        }
}

/// A poll that leaves a future pending, before those that complete it.
proof fn lemma_completes_began<F: Future>(
    future: F,
    next: F,
    first: nat,
    n: nat,
    wakes: nat,
    value: F::Output,
)
    requires
        F::polled(future, next, first, Poll::Pending),
        completes(next, n, wakes, value),
    ensures
        completes(future, n + 1, first + wakes, value),
{
    assert(completes(next, ((n + 1) - 1) as nat, ((first + wakes) - first) as nat, value));
}

/// The first of the polls that complete a future, if it leaves it pending.
proof fn lemma_completes_advances<F: Future>(
    future: F,
    n: nat,
    wakes: nat,
    value: F::Output,
) -> (next: (F, nat))
    requires
        n > 0,
        completes(future, n, wakes, value),
    ensures
        F::polled(future, next.0, next.1, Poll::Pending),
        next.1 <= wakes,
        completes(next.0, (n - 1) as nat, (wakes - next.1) as nat, value),
{
    choose|next: F, first: nat|
        {
            &&& #[trigger] F::polled(future, next, first, Poll::Pending)
            &&& first <= wakes
            &&& completes(next, (n - 1) as nat, (wakes - first) as nat, value)
        }
}

/// Whether the first of two futures completes after `n` polls that leave both
/// pending.
pub open spec fn first_wins<F1: Future, F2: Future>(
    future1: F1,
    future2: F2,
    n: nat,
    wakes1: nat,
    wakes2: nat,
    value: F1::Output,
) -> bool {
    completes(future1, n, wakes1, value) && pends(future2, n, wakes2)
}

/// Whether the second of two futures completes after `n` polls that leave both
/// pending, and in a poll in which the first is pending too.
pub open spec fn second_wins<F1: Future, F2: Future>(
    future1: F1,
    future2: F2,
    n: nat,
    wakes1: nat,
    wakes2: nat,
    value: F2::Output,
) -> bool {
    pends(future1, n + 1, wakes1) && completes(future2, n, wakes2, value)
}

/// Whether one of two futures wins.
pub open spec fn one_wins<T, F1, F2>(
    future1: F1,
    future2: F2,
    n: nat,
    wakes1: nat,
    wakes2: nat,
    value: T,
) -> bool where F1: Future<Output = T>, F2: Future<Output = T> {
    ||| first_wins(future1, future2, n, wakes1, wakes2, value)
    ||| second_wins(future1, future2, n, wakes1, wakes2, value)
}

/// If one of two futures is waited for, the one that completes has won.
proof fn lemma_or_parts<T, F1, F2>(future: Or<F1, F2>, n: nat, wakes: nat, value: T) -> (parts: (
    nat,
    nat,
)) where F1: Future<Output = T>, F2: Future<Output = T>
    requires
        completes(future, n, wakes, value),
    ensures
        one_wins(future.future1, future.future2, n, parts.0, parts.1, value),
        wakes == parts.0 + parts.1,
    decreases n,
{
    let (f1, f2) = (future.future1, future.future2);
    if n == 0 {
        let post = choose|post: Or<F1, F2>| #[trigger]
            Or::polled(future, post, wakes, Poll::Ready(value));
        if F1::polled(f1, post.future1, wakes, Poll::Ready(value)) && post.future2 == f2 {
            assert(pends_as(f2, f2, 0, 0));
            (wakes, 0)
        } else {
            let (wakes1, wakes2) = choose|wakes1: nat, wakes2: nat|
                {
                    &&& #[trigger] F1::polled(f1, post.future1, wakes1, Poll::Pending)
                    &&& #[trigger] F2::polled(f2, post.future2, wakes2, Poll::Ready(value))
                    &&& wakes == wakes1 + wakes2
                };
            lemma_pends_once(f1, post.future1, wakes1);
            (wakes1, wakes2)
        }
    } else {
        let (post, first) = lemma_completes_advances(future, n, wakes, value);
        let (first1, first2) = choose|first1: nat, first2: nat|
            {
                &&& #[trigger] F1::polled(f1, post.future1, first1, Poll::Pending)
                &&& #[trigger] F2::polled(f2, post.future2, first2, Poll::Pending)
                &&& first == first1 + first2
            };
        let m = (n - 1) as nat;
        let (wakes1, wakes2) = lemma_or_parts(post, m, (wakes - first) as nat, value);
        if first_wins(post.future1, post.future2, m, wakes1, wakes2, value) {
            lemma_completes_began(f1, post.future1, first1, m, wakes1, value);
            lemma_pends_began(f2, post.future2, first2, m, wakes2);
        } else {
            lemma_pends_began(f1, post.future1, first1, m + 1, wakes1);
            lemma_completes_began(f2, post.future2, first2, m, wakes2, value);
        }
        (first1 + wakes1, first2 + wakes2)
    }
}

/// If one of two futures wins, then waiting for one of them completes with its
/// output.
proof fn lemma_or_whole<T, F1, F2>(
    future: Or<F1, F2>,
    n: nat,
    wakes1: nat,
    wakes2: nat,
    value: T,
) where F1: Future<Output = T>, F2: Future<Output = T>
    requires
        one_wins(future.future1, future.future2, n, wakes1, wakes2, value),
    ensures
        completes(future, n, wakes1 + wakes2, value),
    decreases n,
{
    let (f1, f2) = (future.future1, future.future2);
    if first_wins(f1, f2, n, wakes1, wakes2, value) {
        if n == 0 {
            let next = choose|next: F1| #[trigger]
                F1::polled(f1, next, wakes1, Poll::Ready(value));
            assert(wakes2 == 0);
            assert(Or::polled(
                future,
                Or { future1: next, future2: f2 },
                wakes1 + wakes2,
                Poll::Ready(value),
            ));
        } else {
            let (next1, first1) = lemma_completes_advances(f1, n, wakes1, value);
            let (next2, first2) = lemma_pends_advances(f2, n, wakes2);
            lemma_or_pending(future, next1, next2, first1, first2);
            let (rest1, rest2) = ((wakes1 - first1) as nat, (wakes2 - first2) as nat);
            let post = Or { future1: next1, future2: next2 };
            lemma_or_whole(post, (n - 1) as nat, rest1, rest2, value);
            lemma_completes_began(
                future,
                post,
                first1 + first2,
                (n - 1) as nat,
                rest1 + rest2,
                value,
            );
        }
    } else {
        let (next1, first1) = lemma_pends_advances(f1, n + 1, wakes1);
        if n == 0 {
            let next2 = choose|next2: F2| #[trigger]
                F2::polled(f2, next2, wakes2, Poll::Ready(value));
            let post = choose|post: F1| #[trigger]
                pends_as(next1, post, 0, (wakes1 - first1) as nat);
            assert(first1 == wakes1);
            let post = Or { future1: next1, future2: next2 };
            assert(F1::polled(f1, post.future1, wakes1, Poll::Pending));
            assert(F2::polled(f2, post.future2, wakes2, Poll::Ready(value)));
            assert(Or::polled(future, post, wakes1 + wakes2, Poll::Ready(value)));
        } else {
            let (next2, first2) = lemma_completes_advances(f2, n, wakes2, value);
            lemma_or_pending(future, next1, next2, first1, first2);
            let (rest1, rest2) = ((wakes1 - first1) as nat, (wakes2 - first2) as nat);
            let post = Or { future1: next1, future2: next2 };
            lemma_or_whole(post, (n - 1) as nat, rest1, rest2, value);
            lemma_completes_began(
                future,
                post,
                first1 + first2,
                (n - 1) as nat,
                rest1 + rest2,
                value,
            );
        }
    }
}

/// A poll that leaves both futures pending.
proof fn lemma_or_pending<T, F1, F2>(
    future: Or<F1, F2>,
    next1: F1,
    next2: F2,
    first1: nat,
    first2: nat,
) where F1: Future<Output = T>, F2: Future<Output = T>
    requires
        F1::polled(future.future1, next1, first1, Poll::Pending),
        F2::polled(future.future2, next2, first2, Poll::Pending),
    ensures
        Or::polled(
            future,
            Or { future1: next1, future2: next2 },
            first1 + first2,
            Poll::Pending,
        ),
{
    let post = Or { future1: next1, future2: next2 };
    assert(F1::polled(future.future1, post.future1, first1, Poll::Pending));
    assert(F2::polled(future.future2, post.future2, first2, Poll::Pending));
}

/// Waiting for one of two futures yields the output of the one that completes
/// first, and that of the first one if both complete in the same poll.
pub proof fn law_or<T, F1, F2>(
    future1: F1,
    future2: F2,
    n: nat,
    wakes: nat,
    value: T,
) where F1: Future<Output = T>, F2: Future<Output = T>
    ensures
        completes(Or { future1, future2 }, n, wakes, value) <==> exists|
            wakes1: nat,
            wakes2: nat,
        |
            {
                &&& #[trigger] one_wins(future1, future2, n, wakes1, wakes2, value)
                &&& wakes == wakes1 + wakes2
            },
{
    let future = Or { future1, future2 };
    if completes(future, n, wakes, value) {
        let (wakes1, wakes2) = lemma_or_parts(future, n, wakes, value);
        assert(one_wins(future1, future2, n, wakes1, wakes2, value));
    }
    assert forall|wakes1: nat, wakes2: nat|
        {
            &&& #[trigger] one_wins(future1, future2, n, wakes1, wakes2, value)
            &&& wakes == wakes1 + wakes2
        } implies completes(future, n, wakes, value) by {
        lemma_or_whole(future, n, wakes1, wakes2, value);
    }
}

/// Joining two futures that are certain to complete is certain to complete.
pub proof fn law_zip_is_ready_within<F1: Future, F2: Future>(
    future: Zip<F1, F2>,
    n1: nat,
    n2: nat,
)
    requires
        future.output1 is None ==> ready_within(future.future1, n1),
        future.output2 is None ==> ready_within(future.future2, n2),
    ensures
        ready_within(future, larger(n1, n2)),
    decreases larger(n1, n2),
{
    let n = larger(n1, n2);
    assert forall|post: Zip<F1, F2>, wakes: nat, out: Poll<(F1::Output, F2::Output)>| #[trigger]
        Zip::polled(future, post, wakes, out) && out is Pending implies n > 0 && ready_within(
        post,
        (n - 1) as nat,
    ) by {
        let m1: nat = if n1 == 0 {
            0
        } else {
            (n1 - 1) as nat
        };
        let m2: nat = if n2 == 0 {
            0
        } else {
            (n2 - 1) as nat
        };
        if n > 0 {
            law_zip_is_ready_within(post, m1, m2);
            assert(larger(m1, m2) == (n - 1) as nat);
        }
    }
}

/// Waiting for one of two futures, of which one is certain to complete, is
/// certain to complete.
pub proof fn law_or_is_ready_within<T, F1, F2>(future: Or<F1, F2>, n: nat) where
    F1: Future<Output = T>,
    F2: Future<Output = T>,

    requires
        ready_within(future.future1, n) || ready_within(future.future2, n),
    ensures
        ready_within(future, n),
    decreases n,
{
    assert forall|post: Or<F1, F2>, wakes: nat, out: Poll<T>| #[trigger]
        Or::polled(future, post, wakes, out) && out is Pending implies n > 0 && ready_within(
        post,
        (n - 1) as nat,
    ) by {
        if n > 0 {
            law_or_is_ready_within(post, (n - 1) as nat);
        }
    }
}

/// Whether a run of polls leaves a future pending `n` times and then completes
/// it, and wakes the task `wakes` times.
pub open spec fn is_completion<T>(
    trace: Seq<(nat, Poll<T>)>,
    n: nat,
    wakes: nat,
    value: T,
) -> bool
    decreases n,
{
    &&& trace.len() == n + 1
    &&& trace[0].0 <= wakes
    &&& if n == 0 {
        trace[0] == (wakes, Poll::Ready(value))
    } else {
        &&& trace[0].1 == Poll::<T>::Pending
        &&& is_completion(trace.drop_first(), (n - 1) as nat, (wakes - trace[0].0) as nat, value)
    }
}

/// A future that can be polled as in a run that completes it can complete.
proof fn lemma_completion<F: Future>(
    future: F,
    trace: Seq<(nat, Poll<F::Output>)>,
    n: nat,
    wakes: nat,
    value: F::Output,
)
    requires
        behaves(future, trace),
        is_completion(trace, n, wakes, value),
    ensures
        completes(future, n, wakes, value),
    decreases n,
{
    let post = choose|post: F|
        {
            &&& #[trigger] F::polled(future, post, trace[0].0, trace[0].1)
            &&& behaves(post, trace.drop_first())
        };
    if n > 0 {
        lemma_completion(
            post,
            trace.drop_first(),
            (n - 1) as nat,
            (wakes - trace[0].0) as nat,
            value,
        );
    }
}

/// Whether `can` tells of each future of a type what polling it again and again
/// can do.
spec fn foretold<F: Future>(can: spec_fn(F, Seq<(nat, Poll<F::Output>)>) -> bool) -> bool {
    forall|pre: F, post: F, wakes: nat, out: Poll<F::Output>| #[trigger]
        F::polled(pre, post, wakes, out) ==> {
            &&& can(post, Seq::empty())
            &&& forall|rest: Seq<(nat, Poll<F::Output>)>| #[trigger]
                can(post, rest) ==> can(pre, seq![(wakes, out)] + rest)
        }
}

/// How a future can be completed is foretold.
proof fn lemma_foretold_completion<F: Future>(
    future: F,
    can: spec_fn(F, Seq<(nat, Poll<F::Output>)>) -> bool,
    n: nat,
    wakes: nat,
    value: F::Output,
) -> (trace: Seq<(nat, Poll<F::Output>)>)
    requires
        foretold(can),
        completes(future, n, wakes, value),
    ensures
        can(future, trace),
        is_completion(trace, n, wakes, value),
    decreases n,
{
    if n == 0 {
        let post = choose|post: F| #[trigger]
            F::polled(future, post, wakes, Poll::Ready(value));
        let rest = Seq::<(nat, Poll<F::Output>)>::empty();
        assert(can(post, rest));
        seq![(wakes, Poll::Ready(value))] + rest
    } else {
        let (post, first) = lemma_completes_advances(future, n, wakes, value);
        let left = (wakes - first) as nat;
        let rest = lemma_foretold_completion(post, can, (n - 1) as nat, left, value);
        let trace = seq![(first, Poll::Pending)] + rest;
        assert(trace.drop_first() =~= rest);
        trace
    }
}

/// A boxed future completes only as the future in the box can.
pub proof fn law_boxed_local<'a, F: Future>(
    future: F,
    boxed: BoxedLocal<'a, F::Output>,
    n: nat,
    wakes: nat,
    value: F::Output,
)
    requires
        forall|trace: Seq<(nat, Poll<F::Output>)>| #[trigger]
            boxed.can(trace) <==> behaves(future, trace),
        completes(boxed, n, wakes, value),
    ensures
        completes(future, n, wakes, value),
{
    let can = |known: BoxedLocal<'a, F::Output>, trace: Seq<(nat, Poll<F::Output>)>|
        known.can(trace);
    let trace = lemma_foretold_completion(boxed, can, n, wakes, value);
    assert(boxed.can(trace));
    lemma_completion(future, trace, n, wakes, value);
}

/// A boxed future that may be sent between threads completes only as the future
/// in the box can.
pub proof fn law_boxed<'a, F: Future>(
    future: F,
    boxed: Boxed<'a, F::Output>,
    n: nat,
    wakes: nat,
    value: F::Output,
)
    requires
        forall|trace: Seq<(nat, Poll<F::Output>)>| #[trigger]
            boxed.can(trace) <==> behaves(future, trace),
        completes(boxed, n, wakes, value),
    ensures
        completes(future, n, wakes, value),
{
    let can = |known: Boxed<'a, F::Output>, trace: Seq<(nat, Poll<F::Output>)>| known.can(trace);
    let trace = lemma_foretold_completion(boxed, can, n, wakes, value);
    assert(boxed.can(trace));
    lemma_completion(future, trace, n, wakes, value);
}

/// Whether a run of polls completes a future.
pub open spec fn has_ready<T>(trace: Seq<(nat, Poll<T>)>) -> bool {
    exists|i: int| 0 <= i < trace.len() && (#[trigger] trace[i]).1 is Ready
}

/// Each long enough run of polls completes a future that is certain to complete.
proof fn lemma_trace_has_ready<F: Future>(
    future: F,
    trace: Seq<(nat, Poll<F::Output>)>,
    n: nat,
)
    requires
        ready_within(future, n),
        behaves(future, trace),
        trace.len() == n + 1,
    ensures
        has_ready(trace),
    decreases n,
{
    let post = choose|post: F|
        {
            &&& #[trigger] F::polled(future, post, trace[0].0, trace[0].1)
            &&& behaves(post, trace.drop_first())
        };
    if trace[0].1 is Pending {
        let rest = trace.drop_first();
        lemma_trace_has_ready(post, rest, (n - 1) as nat);
        let i = choose|i: int| 0 <= i < rest.len() && (#[trigger] rest[i]).1 is Ready;
        assert(trace[i + 1] == rest[i]);
    }
}

/// A future of which it is foretold that every long enough run of polls
/// completes it is certain to complete.
proof fn lemma_foretold_is_ready_within<F: Future>(
    future: F,
    can: spec_fn(F, Seq<(nat, Poll<F::Output>)>) -> bool,
    n: nat,
)
    requires
        foretold(can),
        forall|trace: Seq<(nat, Poll<F::Output>)>| #[trigger]
            can(future, trace) && trace.len() == n + 1 ==> has_ready(trace),
    ensures
        ready_within(future, n),
    decreases n,
{
    assert forall|post: F, wakes: nat, out: Poll<F::Output>| #[trigger]
        F::polled(future, post, wakes, out) && out is Pending implies n > 0 && ready_within(
        post,
        (n - 1) as nat,
    ) by {
        let first = seq![(wakes, out)];
        if n == 0 {
            let rest = Seq::<(nat, Poll<F::Output>)>::empty();
            assert(can(post, rest));
            assert(has_ready(first + rest));
        } else {
            assert forall|rest: Seq<(nat, Poll<F::Output>)>| #[trigger]
                can(post, rest) && rest.len() == n implies has_ready(rest) by {
                let trace = first + rest;
                assert(has_ready(trace));
                let i = choose|i: int| 0 <= i < trace.len() && (#[trigger] trace[i]).1 is Ready;
                assert(rest[i - 1] == trace[i]);
            }
            lemma_foretold_is_ready_within(post, can, (n - 1) as nat);
        }
    }
}

/// Boxing a future that is certain to complete gives one that is.
pub proof fn law_boxed_local_is_ready_within<'a, F: Future>(
    future: F,
    boxed: BoxedLocal<'a, F::Output>,
    n: nat,
)
    requires
        forall|trace: Seq<(nat, Poll<F::Output>)>| #[trigger]
            boxed.can(trace) <==> behaves(future, trace),
        ready_within(future, n),
    ensures
        ready_within(boxed, n),
{
    let can = |known: BoxedLocal<'a, F::Output>, trace: Seq<(nat, Poll<F::Output>)>|
        known.can(trace);
    assert forall|trace: Seq<(nat, Poll<F::Output>)>| #[trigger]
        can(boxed, trace) && trace.len() == n + 1 implies has_ready(trace) by {
        assert(boxed.can(trace));
        lemma_trace_has_ready(future, trace, n);
    }
    lemma_foretold_is_ready_within(boxed, can, n);
}

/// Boxing a future that is certain to complete, so that it may be sent between
/// threads, gives one that is.
pub proof fn law_boxed_is_ready_within<'a, F: Future>(
    future: F,
    boxed: Boxed<'a, F::Output>,
    n: nat,
)
    requires
        forall|trace: Seq<(nat, Poll<F::Output>)>| #[trigger]
            boxed.can(trace) <==> behaves(future, trace),
        ready_within(future, n),
    ensures
        ready_within(boxed, n),
{
    let can = |known: Boxed<'a, F::Output>, trace: Seq<(nat, Poll<F::Output>)>| known.can(trace);
    assert forall|trace: Seq<(nat, Poll<F::Output>)>| #[trigger]
        can(boxed, trace) && trace.len() == n + 1 implies has_ready(trace) by {
        assert(boxed.can(trace));
        lemma_trace_has_ready(future, trace, n);
    }
    lemma_foretold_is_ready_within(boxed, can, n);
}

} // verus!
