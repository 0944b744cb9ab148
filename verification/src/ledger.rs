//! The bookkeeping of a join: slot states, pending wakes and the phase of the group.
//!
//! A [`Ledger`] holds no operation. It is told what each query answered and decides what
//! follows, so a driver that cannot hand its operations over can still use it.

use crate::policy::{
    all_finished, all_terminal, find_first, has_hit, hit, outputs, GroupResult, Policy,
};
use crate::slot::{Readiness, SlotState, Teardown, Verdict};
use crate::tally::{
    lemma_tally_alike, lemma_tally_bounds, lemma_tally_single, lemma_tally_update, tally,
};
use crate::wake::{any_pending, due, taken, woken, WakeTable};
use vstd::pervasive::unreached;
use vstd::prelude::*;

verus! {

/// Where a group stands as a whole.
#[derive(Debug, Clone, Copy, PartialEq, Eq)]
pub enum Phase {
    /// The policy has not been triggered: every slot is running or finished.
    Driving,
    /// The policy has been triggered: the slots without use are being cancelled.
    Settling,
    /// The whole group was cancelled: every slot is being cancelled.
    Aborting,
}

/// What a group reports to whoever drives it.
#[derive(Debug, Clone, Copy, PartialEq, Eq)]
pub enum Status {
    /// Some slot is not terminal yet, or the policy has not been triggered.
    Pending,
    /// The policy has been triggered and every slot is terminal: the result can be taken.
    Ready,
    /// The group was cancelled and every slot has acknowledged.
    Cancelled,
}

/// What a driver owes a slot that it picked up.
#[derive(Debug, Clone, Copy, PartialEq, Eq)]
pub enum Due {
    /// Nothing: no wake was pending, or the slot is terminal.
    Idle,
    /// A readiness query.
    PollReady,
    /// A cancellation query.
    PollCancel,
}

/// What the operation of a slot would answer to the one query that a pass may make of
/// it: `ready`, with `verdict` for the output of `Done`, if the slot is asked whether it
/// is ready, and `cancel` if it is asked whether it has cancelled.
pub struct Answer<O> {
    pub ready: Readiness<O>,
    pub verdict: Verdict,
    pub cancel: Teardown,
}

/// The mathematical value of a [`Ledger`].
pub struct LedgerView<O> {
    pub policy: Policy,
    pub phase: Phase,
    pub states: Seq<SlotState<O>>,
    pub wakes: Seq<bool>,
    /// For each slot, whether its last query answered `Pending` and no wake of it was
    /// delivered since: its operation then owes the slot a wake.
    pub armed: Seq<bool>,
}

impl<O> LedgerView<O> {
    /// The ledger of a new group of `n` slots: every slot running, every wake pending.
    pub open spec fn initial(n: nat, policy: Policy) -> Self {
        let states = Seq::new(n, |k: int| SlotState::<O>::Running);
        LedgerView {
            policy,
            phase: if policy.triggered(states) {
                Phase::Settling
            } else {
                Phase::Driving
            },
            states,
            wakes: Seq::new(n, |k: int| true),
            armed: Seq::new(n, |k: int| false),
        }
    }

    /// What every reachable ledger satisfies.
    pub open spec fn wf(self) -> bool {
        &&& self.states.len() == self.wakes.len()
        &&& self.states.len() == self.armed.len()
        &&& forall|k: int|
            0 <= k < self.states.len() && (#[trigger] self.states[k]) is Finished
                ==> self.states[k]->verdict == self.policy.retained(self.states[k]->verdict)
        &&& match self.phase {
            Phase::Driving => {
                &&& !self.policy.triggered(self.states)
                &&& forall|k: int|
                    0 <= k < self.states.len() ==> (#[trigger] self.states[k]) is Running
                        || self.states[k] is Finished
            },
            Phase::Settling => {
                &&& self.policy.triggered(self.states)
                &&& forall|k: int|
                    0 <= k < self.states.len() ==> !((#[trigger] self.states[k]) is Running)
            },
            Phase::Aborting => forall|k: int|
                0 <= k < self.states.len() ==> (#[trigger] self.states[k]) is CancelRequested
                    || self.states[k] is Cancelled,
        }
    }

    pub open spec fn status(self) -> Status {
        if !all_terminal(self.states) {
            Status::Pending
        } else {
            match self.phase {
                Phase::Driving => Status::Pending,
                Phase::Settling => Status::Ready,
                Phase::Aborting => Status::Cancelled,
            }
        }
    }

    /// A wake of slot `i` was delivered.
    pub open spec fn wake(self, i: int) -> Self {
        LedgerView {
            policy: self.policy,
            phase: self.phase,
            states: self.states,
            wakes: woken(self.wakes, i),
            armed: if 0 <= i < self.armed.len() {
                self.armed.update(i, false)
            } else {
                self.armed
            },
        }
    }

    /// What a driver that picks slot `i` up owes it.
    pub open spec fn owed(self, i: int) -> Due {
        if due(self.wakes, i) && 0 <= i < self.states.len() {
            match self.states[i] {
                SlotState::Running => Due::PollReady,
                SlotState::CancelRequested => Due::PollCancel,
                _ => Due::Idle,
            }
        } else {
            Due::Idle
        }
    }

    /// Slot `i` was picked up.
    pub open spec fn take(self, i: int) -> Self {
        LedgerView {
            policy: self.policy,
            phase: self.phase,
            states: self.states,
            wakes: taken(self.wakes, i),
            armed: self.armed,
        }
    }

    /// The output retained by slot `i` made every other slot useless: the running ones are
    /// asked to cancel and marked for a query, the finished ones are discarded.
    pub open spec fn settle(self, i: int) -> Self {
        LedgerView {
            policy: self.policy,
            phase: Phase::Settling,
            states: Seq::new(
                self.states.len(),
                |k: int|
                    if k == i {
                        self.states[k]
                    } else {
                        self.states[k].after_cancel_request()
                    },
            ),
            wakes: Seq::new(
                self.states.len(),
                |k: int| self.wakes[k] || (k != i && self.states[k] is Running),
            ),
            armed: Seq::new(
                self.states.len(),
                |k: int| self.armed[k] && !(k != i && self.states[k] is Running),
            ),
        }
    }

    /// The readiness query of slot `i` answered `r`, and `v` classifies the output of
    /// `Done`. An answer for a slot that is not running is dropped.
    pub open spec fn record_ready(self, i: int, r: Readiness<O>, v: Verdict) -> Self {
        if 0 <= i < self.states.len() && self.states[i] is Running {
            if r is Done {
                let kept = self.policy.retained(v);
                let marked = LedgerView {
                    policy: self.policy,
                    phase: self.phase,
                    states: self.states.update(
                        i,
                        SlotState::Finished { output: r->0, verdict: kept },
                    ),
                    wakes: self.wakes,
                    armed: self.armed,
                };
                if self.policy.short_circuits(kept) {
                    marked.settle(i)
                } else if all_finished(marked.states) {
                    LedgerView {
                        policy: marked.policy,
                        phase: Phase::Settling,
                        states: marked.states,
                        wakes: marked.wakes,
                        armed: marked.armed,
                    }
                } else {
                    marked
                }
            } else {
                LedgerView {
                    policy: self.policy,
                    phase: self.phase,
                    states: self.states,
                    wakes: self.wakes,
                    armed: self.armed.update(i, true),
                }
            }
        } else {
            self
        }
    }

    /// The cancellation query of slot `i` answered `t`.
    pub open spec fn record_cancel(self, i: int, t: Teardown) -> Self {
        if 0 <= i < self.states.len() {
            LedgerView {
                policy: self.policy,
                phase: self.phase,
                states: self.states.update(i, self.states[i].after_cancel(t)),
                wakes: self.wakes,
                armed: if self.states[i] is CancelRequested && t is Pending {
                    self.armed.update(i, true)
                } else {
                    self.armed
                },
            }
        } else {
            self
        }
    }

    /// Slot `i` was picked up, and the query that it was owed, if any, answered as `a`
    /// says.
    pub open spec fn serviced(self, i: int, a: Answer<O>) -> Self {
        match self.owed(i) {
            Due::Idle => self.take(i),
            Due::PollReady => self.take(i).record_ready(i, a.ready, a.verdict),
            Due::PollCancel => self.take(i).record_cancel(i, a.cancel),
        }
    }

    /// The slots below `upto` were picked up one after the other, in the order of their
    /// indices, and slot `k` answered as `answers[k]` says.
    pub open spec fn passed(self, answers: Seq<Answer<O>>, upto: int) -> Self
        decreases upto,
    {
        if upto <= 0 {
            self
        } else {
            self.passed(answers, upto - 1).serviced(upto - 1, answers[upto - 1])
        }
    }

    /// One step of the driver: a pass over all slots, and a second pass if the first
    /// left wakes pending, which it does only where it settled the group and asked slots
    /// that it had already passed to cancel.
    pub open spec fn stepped(self, first: Seq<Answer<O>>, second: Seq<Answer<O>>) -> Self {
        let mid = self.passed(first, self.states.len() as int);
        if any_pending(mid.wakes) {
            mid.passed(second, self.states.len() as int)
        } else {
            mid
        }
    }

    /// The whole group was cancelled: every slot receives a cancel request at once.
    pub open spec fn cancel(self) -> Self {
        LedgerView {
            policy: self.policy,
            phase: Phase::Aborting,
            states: Seq::new(self.states.len(), |k: int| self.states[k].after_cancel_request()),
            wakes: Seq::new(
                self.states.len(),
                |k: int| self.wakes[k] || self.states[k] is Running,
            ),
            armed: Seq::new(
                self.states.len(),
                |k: int| self.armed[k] && !(self.states[k] is Running),
            ),
        }
    }

    /// Whether no slot can be forgotten: every slot that is not terminal either has a
    /// wake pending, so that the next step queries it, or answered `Pending` to its last
    /// query, so that its operation owes it a wake.
    pub open spec fn vigilant(self) -> bool {
        forall|k: int|
            0 <= k < self.states.len() && !(#[trigger] self.states[k]).is_terminal()
                ==> self.wakes[k] || self.armed[k]
    }
}

/// The phases that can follow phase `a` while a group is driven: settling and aborting
/// are never left, and driving is left for settling only.
pub open spec fn phase_follows(a: Phase, b: Phase) -> bool {
    b == a || (a is Driving && b is Settling)
}

/// The states that can follow state `a` of a slot while a group is driven: a retained
/// output is kept as it is or discarded, a cancel request is never withdrawn, and a
/// cancelled slot stays cancelled.
pub open spec fn slot_follows<O>(a: SlotState<O>, b: SlotState<O>) -> bool {
    match a {
        SlotState::Running => true,
        SlotState::Finished { .. } => b == a || b is Cancelled,
        SlotState::CancelRequested => b is CancelRequested || b is Cancelled,
        SlotState::Cancelled => b is Cancelled,
    }
}

impl<O> LedgerView<O> {
    /// Whether driving the group can lead from this ledger to `post`.
    pub open spec fn evolves_to(self, post: Self) -> bool {
        &&& post.policy == self.policy
        &&& post.states.len() == self.states.len()
        &&& post.wakes.len() == self.wakes.len()
        &&& phase_follows(self.phase, post.phase)
        &&& forall|k: int|
            0 <= k < self.states.len() ==> slot_follows(self.states[k], #[trigger] post.states[k])
    }
}

/// The bookkeeping of one join group.
///
/// Beside the state of each slot it keeps the number of finished slots and the number
/// of slots that are not terminal, so that recording an answer and reporting the status
/// take constant time.
pub struct Ledger<O> {
    policy: Policy,
    phase: Phase,
    states: Vec<SlotState<O>>,
    wakes: WakeTable,
    finished: usize,
    live: usize,
    armed: Ghost<Seq<bool>>,
}

impl<O> View for Ledger<O> {
    type V = LedgerView<O>;

    closed spec fn view(&self) -> LedgerView<O> {
        LedgerView {
            policy: self.policy,
            phase: self.phase,
            states: self.states@,
            wakes: self.wakes@,
            armed: self.armed@,
        }
    }
}

impl<O> Ledger<O> {
    /// Whether the two counts are those of the slots as they stand.
    pub closed spec fn tallied(&self) -> bool {
        &&& self.finished == tally(self.states@, false)
        &&& self.live == tally(self.states@, true)
    }

    /// What every ledger satisfies.
    pub open spec fn wf(&self) -> bool {
        &&& self@.wf()
        &&& self.tallied()
    }

    /// The ledger of a new group of `n` slots.
    pub fn new(n: usize, policy: Policy) -> (l: Self)
        ensures
            l@ == LedgerView::<O>::initial(n as nat, policy),
            l.wf(),
    {
        let mut states: Vec<SlotState<O>> = Vec::new();
        while states.len() < n
            invariant
                states.len() <= n,
                forall|j: int| 0 <= j < states.len() ==> states[j] is Running,
            decreases n - states.len(),
        {
            states.push(SlotState::Running);
        }
        assert(states@ =~= Seq::new(n as nat, |k: int| SlotState::<O>::Running));
        let phase = if policy.triggers(&states) {
            Phase::Settling
        } else {
            Phase::Driving
        };
        let wakes = WakeTable::new(n);
        proof {
            lemma_tally_bounds(states@, false);
            lemma_tally_bounds(states@, true);
        }
        Ledger {
            policy,
            phase,
            states,
            wakes,
            finished: 0,
            live: n,
            armed: Ghost(Seq::new(n as nat, |k: int| false)),
        }
    }

    /// Delivers a wake to slot `i`.
    pub fn wake(&mut self, i: usize)
        requires
            old(self).wf(),
        ensures
            final(self)@ == old(self)@.wake(i as int),
            final(self).wf(),
    {
        self.wakes.wake(i);
        if i < self.states.len() {
            self.armed = Ghost(self.armed@.update(i as int, false));
        }
    }

    /// Picks slot `i` up: clears its pending wake and says which query it is owed.
    pub fn take(&mut self, i: usize) -> (d: Due)
        requires
            old(self).wf(),
        ensures
            d == old(self)@.owed(i as int),
            final(self)@ == old(self)@.take(i as int),
            final(self).wf(),
    {
        if self.wakes.take(i) {
            if self.states[i].running() {
                Due::PollReady
            } else if self.states[i].cancel_requested() {
                Due::PollCancel
            } else {
                Due::Idle
            }
        } else {
            Due::Idle
        }
    }

    fn settle(&mut self, i: usize)
        requires
            old(self)@.states.len() == old(self)@.wakes.len(),
            i < old(self)@.states.len(),
            old(self)@.states[i as int] is Finished,
            old(self).tallied(),
        ensures
            final(self)@ == old(self)@.settle(i as int),
            final(self).tallied(),
    {
        let ghost pre = self@;
        let n = self.states.len();
        let mut k: usize = 0;
        while k < n
            invariant
                k <= n,
                n == pre.states.len(),
                n == pre.wakes.len(),
                self@.states.len() == n,
                self@.wakes.len() == n,
                self@.policy == pre.policy,
                self.live == tally(pre.states, true),
                forall|j: int| 0 <= j < k ==> self@.states[j] == pre.settle(i as int).states[j],
                forall|j: int| 0 <= j < k ==> self@.wakes[j] == pre.settle(i as int).wakes[j],
                forall|j: int| k <= j < n ==> self@.states[j] == pre.states[j],
                forall|j: int| k <= j < n ==> self@.wakes[j] == pre.wakes[j],
            decreases n - k,
        {
            if k != i {
                if self.states[k].running() {
                    self.states[k] = SlotState::CancelRequested;
                    self.wakes.wake(k);
                } else if self.states[k].finished() {
                    self.states[k] = SlotState::Cancelled;
                }
            }
            k += 1;
        }
        self.phase = Phase::Settling;
        self.finished = 1;
        self.armed = Ghost(pre.settle(i as int).armed);
        assert(self@.states =~= pre.settle(i as int).states);
        assert(self@.wakes =~= pre.settle(i as int).wakes);
        proof {
            lemma_tally_single(self@.states, false, i as int);
            lemma_tally_alike(pre.states, self@.states, true);
        }
    }

    /// Records the answer `r` of the readiness query of slot `i`, where `v` classifies the
    /// output of `Done`, and settles the group if the policy is triggered by it.
    pub fn record_ready(&mut self, i: usize, r: Readiness<O>, v: Verdict)
        requires
            old(self).wf(),
        ensures
            final(self)@ == old(self)@.record_ready(i as int, r, v),
            final(self).wf(),
    {
        if i < self.states.len() && self.states[i].running() {
            match r {
                Readiness::Done(output) => {
                    let kept = self.policy.retain(v);
                    let ghost marked = SlotState::Finished { output, verdict: kept };
                    proof {
                        lemma_record_ready_wf(self@, i as int, r, v);
                        lemma_tally_update(self.states@, false, i as int, marked);
                        lemma_tally_update(self.states@, true, i as int, marked);
                        lemma_tally_bounds(self.states@.update(i as int, marked), false);
                    }
                    self.states[i] = SlotState::Finished { output, verdict: kept };
                    self.finished = self.finished + 1;
                    self.live = self.live - 1;
                    if self.policy.cuts_short(kept) {
                        self.settle(i);
                    } else if self.finished == self.states.len() {
                        self.phase = Phase::Settling;
                    }
                },
                Readiness::Pending => {
                    self.armed = Ghost(self.armed@.update(i as int, true));
                },
            }
        }
    }

    /// Records the answer `t` of the cancellation query of slot `i`.
    pub fn record_cancel(&mut self, i: usize, t: Teardown)
        requires
            old(self).wf(),
        ensures
            final(self)@ == old(self)@.record_cancel(i as int, t),
            final(self).wf(),
    {
        proof {
            lemma_record_cancel_wf(self@, i as int, t);
        }
        if i < self.states.len() {
            if self.states[i].cancel_requested() {
                match t {
                    Teardown::Cancelled => {
                        proof {
                            lemma_tally_update(
                                self.states@,
                                false,
                                i as int,
                                SlotState::<O>::Cancelled,
                            );
                            lemma_tally_update(
                                self.states@,
                                true,
                                i as int,
                                SlotState::<O>::Cancelled,
                            );
                        }
                        self.states[i] = SlotState::Cancelled;
                        self.live = self.live - 1;
                    },
                    Teardown::Pending => {
                        self.armed = Ghost(self.armed@.update(i as int, true));
                    },
                }
            }
            assert(self@.states =~= old(self)@.record_cancel(i as int, t).states);
        }
    }

    /// Cancels the whole group: every running slot is asked to cancel and marked for a
    /// query, every retained output is discarded.
    pub fn cancel(&mut self)
        requires
            old(self).wf(),
        ensures
            final(self)@ == old(self)@.cancel(),
            final(self).wf(),
    {
        let ghost pre = self@;
        let n = self.states.len();
        let mut k: usize = 0;
        while k < n
            invariant
                k <= n,
                n == pre.states.len(),
                n == pre.wakes.len(),
                self@.states.len() == n,
                self@.wakes.len() == n,
                self@.policy == pre.policy,
                self.live == tally(pre.states, true),
                forall|j: int| 0 <= j < k ==> self@.states[j] == pre.cancel().states[j],
                forall|j: int| 0 <= j < k ==> self@.wakes[j] == pre.cancel().wakes[j],
                forall|j: int| k <= j < n ==> self@.states[j] == pre.states[j],
                forall|j: int| k <= j < n ==> self@.wakes[j] == pre.wakes[j],
            decreases n - k,
        {
            if self.states[k].running() {
                self.states[k] = SlotState::CancelRequested;
                self.wakes.wake(k);
            } else if self.states[k].finished() {
                self.states[k] = SlotState::Cancelled;
            }
            k += 1;
        }
        self.phase = Phase::Aborting;
        self.finished = 0;
        self.armed = Ghost(pre.cancel().armed);
        assert(self@.states =~= pre.cancel().states);
        assert(self@.wakes =~= pre.cancel().wakes);
        proof {
            lemma_tally_bounds(self@.states, false);
            lemma_tally_alike(pre.states, self@.states, true);
        }
    }

    pub fn policy(&self) -> (p: Policy)
        ensures
            p == self@.policy,
    {
        self.policy
    }

    pub fn phase(&self) -> (p: Phase)
        ensures
            p == self@.phase,
    {
        self.phase
    }

    /// The number of slots.
    pub fn arity(&self) -> (n: usize)
        ensures
            n == self@.states.len(),
    {
        self.states.len()
    }

    /// The state of slot `i`, where the group has such a slot.
    pub fn slot(&self, i: usize) -> (s: Option<&SlotState<O>>)
        ensures
            s is Some <==> i < self@.states.len(),
            s is Some ==> *s.unwrap() == self@.states[i as int],
    {
        if i < self.states.len() {
            Some(&self.states[i])
        } else {
            None
        }
    }

    /// Whether slot `i` has a wake pending.
    pub fn is_due(&self, i: usize) -> (b: bool)
        ensures
            b == due(self@.wakes, i as int),
    {
        self.wakes.is_due(i)
    }

    /// Whether any slot has a wake pending.
    pub fn any_due(&self) -> (b: bool)
        ensures
            b == any_pending(self@.wakes),
    {
        self.wakes.any_due()
    }

    /// Gives up the ledger for the result of the group. A group that is not ready keeps
    /// its ledger: it is handed back unchanged.
    pub fn finish(self) -> (r: Result<GroupResult<O>, Ledger<O>>)
        requires
            self.wf(),
        ensures
            r is Ok <==> self@.status() is Ready,
            r is Ok ==> all_terminal(self@.states),
            r is Ok ==> r->Ok_0@ == self@.policy.outcome(self@.states),
            r is Err ==> r->Err_0 == self,
    {
        match self.status() {
            Status::Ready => {},
            _ => {
                return Err(self);
            },
        }
        let policy = self.policy;
        let states = self.states;
        match policy {
            Policy::Zip => Ok(GroupResult::All(collect(states))),
            Policy::TryZip => match find_first(&states, Some(Verdict::Error)) {
                Some(k) => Ok(GroupResult::Failed(extract(states, k))),
                None => Ok(GroupResult::All(collect(states))),
            },
            Policy::Race => match find_first(&states, None) {
                Some(k) => Ok(GroupResult::First(extract(states, k))),
                None => unreached(),
            },
            Policy::RaceOk => match find_first(&states, Some(Verdict::Success)) {
                Some(k) => Ok(GroupResult::First(extract(states, k))),
                None => Ok(GroupResult::AllFailed(collect(states))),
            },
        }
    }

    /// What the group reports to whoever drives it.
    pub fn status(&self) -> (s: Status)
        requires
            self.wf(),
        ensures
            s == self@.status(),
    {
        proof {
            lemma_tally_bounds(self.states@, true);
        }
        if self.live != 0 {
            Status::Pending
        } else {
            match self.phase {
                Phase::Driving => Status::Pending,
                Phase::Settling => Status::Ready,
                Phase::Aborting => Status::Cancelled,
            }
        }
    }
}

/// Moves the retained outputs out of the slots, in the order of the slots.
fn collect<O>(states: Vec<SlotState<O>>) -> (out: Vec<O>)
    requires
        all_finished(states@),
    ensures
        out@ == outputs(states@),
{
    let ghost pre = states@;
    let mut states = states;
    let mut out: Vec<O> = Vec::new();
    let n = states.len();
    let mut k: usize = 0;
    while k < n
        invariant
            k <= n,
            n == pre.len(),
            states@.len() == n,
            out@.len() == k,
            all_finished(pre),
            forall|j: int| 0 <= j < k ==> out@[j] == pre[j]->output,
            forall|j: int| k <= j < n ==> states@[j] == pre[j],
        decreases n - k,
    {
        let mut s: SlotState<O> = SlotState::Cancelled;
        core::mem::swap(&mut states[k], &mut s);
        assert(s == pre[k as int]);
        match s {
            SlotState::Finished { output, .. } => {
                out.push(output);
            },
            _ => {},
        }
        k += 1;
    }
    assert(out@ =~= outputs(pre));
    out
}

/// Moves the retained output out of slot `k`.
fn extract<O>(states: Vec<SlotState<O>>, k: usize) -> (o: O)
    requires
        k < states@.len(),
        states@[k as int] is Finished,
    ensures
        o == states@[k as int]->output,
{
    let mut states = states;
    let s = states.swap_remove(k);
    match s {
        SlotState::Finished { output, .. } => output,
        _ => unreached(),
    }
}

/// Recording a readiness answer keeps a ledger well formed: the group enters the
/// settling phase exactly when the policy is triggered.
pub proof fn lemma_record_ready_wf<O>(l: LedgerView<O>, i: int, r: Readiness<O>, v: Verdict)
    requires
        l.wf(),
    ensures
        l.record_ready(i, r, v).wf(),
{
    let post = l.record_ready(i, r, v);
    if 0 <= i < l.states.len() && l.states[i] is Running && r is Done {
        let kept = l.policy.retained(v);
        let marked = l.states.update(i, SlotState::Finished { output: r->0, verdict: kept });
        assert(l.phase is Driving);
        assert(marked[i] is Finished);
        assert(forall|f: Option<Verdict>| #[trigger]
            has_hit(marked, f) ==> has_hit(l.states, f) || hit(marked[i], f)) by {
            assert forall|f: Option<Verdict>| #[trigger] has_hit(marked, f) implies has_hit(
                l.states,
                f,
            ) || hit(marked[i], f) by {
                let k = choose|k: int| 0 <= k < marked.len() && hit(#[trigger] marked[k], f);
                if k != i {
                    assert(hit(l.states[k], f));
                }
            }
        }
        assert(all_finished(l.states) == false) by {
            assert(l.states[i] is Running);
        }
        if l.policy.short_circuits(kept) {
            assert(post.states[i] == marked[i]);
            assert(hit(post.states[i], None));
            assert(hit(post.states[i], Some(kept)));
            assert(post.policy.triggered(post.states));
            assert forall|k: int| 0 <= k < post.states.len() implies !((
            #[trigger] post.states[k]) is Running) by {
                if k != i {
                    assert(post.states[k] == marked[k].after_cancel_request());
                }
            }
            assert forall|k: int|
                0 <= k < post.states.len() && (#[trigger] post.states[k]) is Finished implies post.states[k]->verdict
                == post.policy.retained(post.states[k]->verdict) by {
                if k != i {
                    assert(post.states[k] == marked[k].after_cancel_request());
                }
            }
        } else if all_finished(marked) {
            assert(post.states == marked);
            assert(post.policy.triggered(post.states));
        } else {
            assert(post.states == marked);
            assert(!hit(marked[i], Some(Verdict::Error)) || !(l.policy is TryZip));
            assert(!post.policy.triggered(post.states));
        }
    }
}

/// Recording a cancellation answer keeps a ledger well formed.
pub proof fn lemma_record_cancel_wf<O>(l: LedgerView<O>, i: int, t: Teardown)
    requires
        l.wf(),
    ensures
        l.record_cancel(i, t).wf(),
{
    let post = l.record_cancel(i, t);
    if 0 <= i < l.states.len() {
        if l.states[i] is CancelRequested && t is Cancelled {
            assert(!all_finished(l.states));
            assert(forall|k: int|
                0 <= k < l.states.len() ==> (hit(l.states[k], None) <==> hit(
                    #[trigger] post.states[k],
                    None,
                )));
            assert forall|f: Option<Verdict>| has_hit(l.states, f) implies #[trigger] has_hit(
                post.states,
                f,
            ) by {
                let k = choose|k: int| 0 <= k < l.states.len() && hit(#[trigger] l.states[k], f);
                assert(hit(post.states[k], f));
            }
        } else {
            assert(post.states =~= l.states);
        }
    }
}

/// Driving is transitive: what two runs of steps can reach, one can describe.
pub proof fn lemma_evolves_transitive<O>(a: LedgerView<O>, b: LedgerView<O>, c: LedgerView<O>)
    requires
        a.evolves_to(b),
        b.evolves_to(c),
    ensures
        a.evolves_to(c),
{
    assert forall|k: int| 0 <= k < a.states.len() implies slot_follows(
        a.states[k],
        #[trigger] c.states[k],
    ) by {
        assert(slot_follows(a.states[k], b.states[k]));
        assert(slot_follows(b.states[k], c.states[k]));
    }
}

/// Picking a slot up changes no state.
pub proof fn lemma_take_evolves<O>(l: LedgerView<O>, i: int)
    ensures
        l.evolves_to(l.take(i)),
{
}

/// Recording a readiness answer moves every slot along its lifecycle. Unless the group
/// leaves the driving phase by it, only slot `i` changes and no wake is touched.
pub proof fn lemma_record_ready_evolves<O>(l: LedgerView<O>, i: int, r: Readiness<O>, v: Verdict)
    requires
        l.wf(),
    ensures
        l.evolves_to(l.record_ready(i, r, v)),
        l.record_ready(i, r, v).phase == l.phase ==> l.record_ready(i, r, v).wakes == l.wakes,
        forall|k: int|
            0 <= k < l.states.len() && k != i && l.record_ready(i, r, v).phase == l.phase
                ==> #[trigger] l.record_ready(i, r, v).states[k] == l.states[k],
        forall|k: int|
            0 <= k < l.states.len() && k != i && (#[trigger] l.record_ready(
                i,
                r,
                v,
            ).states[k]) is Finished ==> l.record_ready(i, r, v).states[k] == l.states[k],
{
    let post = l.record_ready(i, r, v);
    if 0 <= i < l.states.len() && l.states[i] is Running && r is Done {
        assert(l.phase is Driving);
        let kept = l.policy.retained(v);
        if l.policy.short_circuits(kept) {
            assert(post.phase is Settling);
        }
    }
}

/// Recording a cancellation answer moves slot `i` along its lifecycle and changes nothing
/// else.
pub proof fn lemma_record_cancel_evolves<O>(l: LedgerView<O>, i: int, t: Teardown)
    ensures
        l.evolves_to(l.record_cancel(i, t)),
        l.record_cancel(i, t).wakes == l.wakes,
        l.record_cancel(i, t).phase == l.phase,
        forall|k: int|
            0 <= k < l.states.len() && k != i ==> #[trigger] l.record_cancel(i, t).states[k]
                == l.states[k],
{
}

/// A pass up to a slot depends on the answers of the slots below it only.
pub proof fn lemma_passed_prefix<O>(
    l: LedgerView<O>,
    a: Seq<Answer<O>>,
    b: Seq<Answer<O>>,
    upto: int,
)
    requires
        forall|k: int| 0 <= k < upto ==> a[k] == b[k],
    ensures
        l.passed(a, upto) == l.passed(b, upto),
    decreases upto,
{
    if upto > 0 {
        lemma_passed_prefix(l, a, b, upto - 1);
    }
}

/// Cancelling the whole group keeps a ledger well formed.
pub proof fn lemma_cancel_wf<O>(l: LedgerView<O>)
    requires
        l.wf(),
    ensures
        l.cancel().wf(),
{
}

} // verus!
