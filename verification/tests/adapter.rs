use completion::adapter::{
    cancelled_or_fault, nothing_when_cancelled, ready_or_fault, teardown_when_done,
};
use completion::{
    Adapter, FutureExt, GroupResult, JoinGroup, MustComplete, NowOrNever, Operation, Policy,
    Readiness, SlotState, Status, Teardown, Verdict, WakeToken,
};
use std::future::Future;
use std::pin::Pin;
use std::sync::Arc;
use std::task::{Context, Poll, Wake, Waker};

struct Silent;

impl Wake for Silent {
    fn wake(self: Arc<Self>) {}
}

/// Ready at the `ready_after`-th readiness query (0: never), cancelled at the
/// `cancel_after`-th cancellation query.
struct Countdown {
    output: i32,
    ready_after: usize,
    cancel_after: usize,
    ready_polls: usize,
    cancel_polls: usize,
}

impl Countdown {
    fn new(output: i32, ready_after: usize, cancel_after: usize) -> Self {
        Countdown { output, ready_after, cancel_after, ready_polls: 0, cancel_polls: 0 }
    }
}

impl Operation for Countdown {
    type Output = i32;

    fn poll_ready(&mut self, _token: WakeToken) -> Readiness<i32> {
        self.ready_polls += 1;
        if self.ready_after != 0 && self.ready_polls >= self.ready_after {
            Readiness::Done(self.output)
        } else {
            Readiness::Pending
        }
    }

    fn poll_cancel(&mut self, _token: WakeToken) -> Teardown {
        self.cancel_polls += 1;
        if self.cancel_polls >= self.cancel_after {
            Teardown::Cancelled
        } else {
            Teardown::Pending
        }
    }
}

fn plain(_: &i32) -> Verdict {
    Verdict::Success
}

#[test]
fn into_completion_wraps_the_future_unchanged() {
    let mut a: Adapter<std::future::Ready<i32>> = std::future::ready(19).into_completion();
    let waker = Waker::from(Arc::new(Silent));
    let mut cx = Context::from_waker(&waker);
    assert_eq!(Pin::new(&mut a.0).poll(&mut cx), Poll::Ready(19));
}

#[test]
fn teardown_follows_readiness() {
    assert_eq!(teardown_when_done(Readiness::Done(3)), Teardown::Cancelled);
    assert_eq!(teardown_when_done(Readiness::<i32>::Pending), Teardown::Pending);
    assert_eq!(nothing_when_cancelled::<i32>(Teardown::Cancelled), Readiness::Done(None));
    assert_eq!(nothing_when_cancelled::<i32>(Teardown::Pending), Readiness::Pending);
}

#[test]
fn must_complete_runs_to_completion_when_asked_to_cancel() {
    let mut m = MustComplete::new(Countdown::new(5, 3, 1));
    let token = WakeToken { slot: 0 };
    assert_eq!(m.poll_ready(token), Readiness::Pending);
    assert_eq!(m.poll_cancel(token), Teardown::Pending);
    assert_eq!(m.poll_cancel(token), Teardown::Cancelled);
    let inner = m.into_inner();
    assert_eq!(inner.ready_polls, 3);
    assert_eq!(inner.cancel_polls, 0);
}

#[test]
fn must_complete_passes_readiness_through() {
    let mut m = MustComplete::new(Countdown::new(5, 2, 1));
    let token = WakeToken { slot: 4 };
    assert_eq!(m.poll_ready(token), Readiness::Pending);
    assert_eq!(m.poll_ready(token), Readiness::Done(5));
}

#[test]
fn now_or_never_yields_an_output_that_is_ready_at_once() {
    let mut n = NowOrNever::new(Countdown::new(5, 1, 1));
    assert!(!n.cancelling());
    assert_eq!(n.poll_ready(WakeToken { slot: 0 }), Readiness::Done(Some(5)));
    assert!(!n.cancelling());
}

#[test]
fn now_or_never_cancels_an_operation_that_is_not_ready() {
    let mut n = NowOrNever::new(Countdown::new(5, 2, 2));
    let token = WakeToken { slot: 0 };
    assert_eq!(n.poll_ready(token), Readiness::Pending);
    assert!(n.cancelling());
    assert_eq!(n.poll_ready(token), Readiness::Done(None));
    assert!(n.cancelling());
}

#[test]
fn now_or_never_cancels_at_once_where_the_operation_allows() {
    let mut n = NowOrNever::new(Countdown::new(5, 0, 1));
    assert_eq!(n.poll_ready(WakeToken { slot: 0 }), Readiness::Done(None));
    let mut n = NowOrNever::new(Countdown::new(5, 0, 2));
    assert_eq!(n.poll_cancel(WakeToken { slot: 0 }), Teardown::Pending);
    assert!(!n.cancelling());
    assert_eq!(n.poll_cancel(WakeToken { slot: 0 }), Teardown::Cancelled);
}

#[test]
fn race_waits_for_a_loser_that_must_complete() {
    let ops = vec![
        MustComplete::new(Countdown::new(1, 1, 1)),
        MustComplete::new(Countdown::new(2, 3, 1)),
    ];
    let mut g = JoinGroup::new(ops, Policy::Race, plain);
    assert_eq!(g.step(), Status::Pending);
    assert_eq!(g.slot(1), Some(&SlotState::CancelRequested));
    g.wake(1);
    assert_eq!(g.step(), Status::Pending);
    g.wake(1);
    assert_eq!(g.step(), Status::Ready);
    assert_eq!(g.slot(1), Some(&SlotState::Cancelled));
    assert_eq!(g.finish().ok(), Some(GroupResult::First(1)));
}

/// Remembers the tokens that it was handed and is never ready.
struct Recorder {
    ready_tokens: Vec<usize>,
    cancel_tokens: Vec<usize>,
}

impl Operation for Recorder {
    type Output = i32;

    fn poll_ready(&mut self, token: WakeToken) -> Readiness<i32> {
        self.ready_tokens.push(token.slot);
        Readiness::Pending
    }

    fn poll_cancel(&mut self, token: WakeToken) -> Teardown {
        self.cancel_tokens.push(token.slot);
        Teardown::Pending
    }
}

#[test]
fn must_complete_hands_its_token_to_the_inner_operation() {
    let mut m = MustComplete::new(Recorder { ready_tokens: vec![], cancel_tokens: vec![] });
    assert_eq!(m.poll_ready(WakeToken { slot: 3 }), Readiness::Pending);
    assert_eq!(m.poll_cancel(WakeToken { slot: 7 }), Teardown::Pending);
    let inner = m.into_inner();
    assert_eq!(inner.ready_tokens, vec![3, 7]);
    assert!(inner.cancel_tokens.is_empty());
}

#[test]
fn now_or_never_in_a_group_goes_on_to_cancel_a_pending_operation() {
    let ops = vec![NowOrNever::new(Recorder { ready_tokens: vec![], cancel_tokens: vec![] })];
    let mut g = JoinGroup::new(ops, Policy::Zip, |_: &Option<i32>| Verdict::Success);
    assert_eq!(g.step(), Status::Pending);
    assert!(g.operation(0).unwrap().cancelling());
    g.cancel();
    assert_eq!(g.step(), Status::Pending);
    assert_eq!(g.slot(0), Some(&SlotState::CancelRequested));
}

#[test]
fn a_fault_during_a_readiness_query_is_the_output() {
    assert_eq!(ready_or_fault::<i32, &str>(Ok(Readiness::Pending)), Readiness::Pending);
    assert_eq!(ready_or_fault::<i32, &str>(Ok(Readiness::Done(4))), Readiness::Done(Ok(4)));
    assert_eq!(ready_or_fault::<i32, &str>(Err("fault")), Readiness::Done(Err("fault")));
}

#[test]
fn a_fault_during_a_cancellation_query_counts_as_cancelled() {
    assert_eq!(cancelled_or_fault::<&str>(Ok(Teardown::Pending)), Teardown::Pending);
    assert_eq!(cancelled_or_fault::<&str>(Ok(Teardown::Cancelled)), Teardown::Cancelled);
    assert_eq!(cancelled_or_fault::<&str>(Err("fault")), Teardown::Cancelled);
}
