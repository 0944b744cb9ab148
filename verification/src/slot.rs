//! The contract between a join and one of its operations, and the lifecycle of a slot.

use vstd::prelude::*;

verus! {

/// What a single readiness query of an operation reports.
#[derive(Debug, PartialEq, Eq)]
pub enum Readiness<O> {
    /// The operation cannot finish yet and has arranged a wake for the token it was given.
    Pending,
    /// The operation has finished with this output.
    Done(O),
}

/// What a single cancellation query of an operation reports.
#[derive(Debug, Clone, Copy, PartialEq, Eq)]
pub enum Teardown {
    /// The operation has not quiesced yet and has arranged a wake for the token it was given.
    Pending,
    /// The operation has released every outside effect and may be discarded.
    Cancelled,
}

/// How a join classifies the output of a finished operation.
#[derive(Debug, Clone, Copy, PartialEq, Eq)]
pub enum Verdict {
    Success,
    Error,
}

/// Names the slot that an operation must arrange to have woken.
#[derive(Debug, Clone, Copy, PartialEq, Eq)]
pub struct WakeToken {
    pub slot: usize,
}

/// A unit of asynchronous work that a join can drive.
///
/// Both queries advance the operation by one step and never block. A query that answers
/// `Pending` must have arranged one later wake of the slot named by `token`; a join cannot
/// observe whether it did. `poll_cancel` on an operation that has already finished answers
/// `Cancelled`.
///
/// What a query may do is the operation's own to say: `ready_step` and `cancel_step`
/// relate the operation before a query, the token, the answer and the operation after
/// it. An operation that says nothing admits every step; one that wraps another states
/// its steps over those of the one it wraps.
pub trait Operation {
    type Output;

    /// Whether a readiness query with `token` can answer `r` and turn this operation
    /// into `after`.
    open spec fn ready_step(
        &self,
        token: WakeToken,
        r: Readiness<Self::Output>,
        after: &Self,
    ) -> bool {
        true
    }

    /// Whether a cancellation query with `token` can answer `t` and turn this operation
    /// into `after`.
    open spec fn cancel_step(&self, token: WakeToken, t: Teardown, after: &Self) -> bool {
        true
    }

    fn poll_ready(&mut self, token: WakeToken) -> (r: Readiness<Self::Output>)
        ensures
            old(self).ready_step(token, r, final(self)),
    ;

    fn poll_cancel(&mut self, token: WakeToken) -> (t: Teardown)
        ensures
            old(self).cancel_step(token, t, final(self)),
    ;
}

/// The lifecycle of one slot of a join.
#[derive(Debug, PartialEq, Eq)]
pub enum SlotState<O> {
    /// The operation is being driven towards its output.
    Running,
    /// The operation reported its output, which the slot retains.
    Finished { output: O, verdict: Verdict },
    /// The join asked the operation to tear down and waits for its acknowledgement.
    CancelRequested,
    /// The operation acknowledged the teardown, or its unused output was discarded.
    Cancelled,
}

impl<O> SlotState<O> {
    /// A slot in a terminal state is never queried again.
    pub open spec fn is_terminal(self) -> bool {
        self is Finished || self is Cancelled
    }

    /// The state after a readiness query answered `r`, where `v` classifies the output of
    /// `Done`. Only a running slot is affected.
    pub open spec fn after_ready(self, r: Readiness<O>, v: Verdict) -> Self {
        match (self, r) {
            (SlotState::Running, Readiness::Done(output)) => SlotState::Finished {
                output,
                verdict: v,
            },
            _ => self,
        }
    }

    /// The state after the join decided that it has no use for this slot.
    pub open spec fn after_cancel_request(self) -> Self {
        match self {
            SlotState::Running => SlotState::CancelRequested,
            SlotState::Finished { .. } => SlotState::Cancelled,
            _ => self,
        }
    }

    /// The state after a cancellation query answered `t`. Only a slot whose cancellation
    /// was requested is affected.
    pub open spec fn after_cancel(self, t: Teardown) -> Self {
        match (self, t) {
            (SlotState::CancelRequested, Teardown::Cancelled) => SlotState::Cancelled,
            _ => self,
        }
    }

    pub fn terminal(&self) -> (b: bool)
        ensures
            b == self.is_terminal(),
    {
        match self {
            SlotState::Finished { .. } => true,
            SlotState::Cancelled => true,
            _ => false,
        }
    }

    pub fn running(&self) -> (b: bool)
        ensures
            b == (*self is Running),
    {
        match self {
            SlotState::Running => true,
            _ => false,
        }
    }

    pub fn finished(&self) -> (b: bool)
        ensures
            b == (*self is Finished),
    {
        match self {
            SlotState::Finished { .. } => true,
            _ => false,
        }
    }

    pub fn cancel_requested(&self) -> (b: bool)
        ensures
            b == (*self is CancelRequested),
    {
        match self {
            SlotState::CancelRequested => true,
            _ => false,
        }
    }

    pub fn cancelled(&self) -> (b: bool)
        ensures
            b == (*self is Cancelled),
    {
        match self {
            SlotState::Cancelled => true,
            _ => false,
        }
    }

    /// Records the answer of a readiness query.
    pub fn apply_ready(self, r: Readiness<O>, v: Verdict) -> (s: Self)
        ensures
            s == self.after_ready(r, v),
    {
        match self {
            SlotState::Running => match r {
                Readiness::Done(output) => SlotState::Finished { output, verdict: v },
                Readiness::Pending => SlotState::Running,
            },
            other => other,
        }
    }

    /// Records that the join has no use for this slot.
    pub fn apply_cancel_request(self) -> (s: Self)
        ensures
            s == self.after_cancel_request(),
    {
        match self {
            SlotState::Running => SlotState::CancelRequested,
            SlotState::Finished { .. } => SlotState::Cancelled,
            other => other,
        }
    }

    /// Records the answer of a cancellation query.
    pub fn apply_cancel(self, t: Teardown) -> (s: Self)
        ensures
            s == self.after_cancel(t),
    {
        match self {
            SlotState::CancelRequested => match t {
                Teardown::Cancelled => SlotState::Cancelled,
                Teardown::Pending => SlotState::CancelRequested,
            },
            other => other,
        }
    }
}

/// A terminal slot stays terminal under every query answer: a finished or cancelled
/// operation is never driven again.
pub proof fn lemma_terminal_is_absorbing<O>(s: SlotState<O>, r: Readiness<O>, v: Verdict, t: Teardown)
    requires
        s.is_terminal(),
    ensures
        s.after_ready(r, v) == s,
        s.after_cancel(t) == s,
        s.after_cancel_request() == SlotState::<O>::Cancelled,
{
}

} // verus!
