//! The join group: the operations of a join, their bookkeeping, and the step that
//! drives them.

use crate::ledger::{
    lemma_evolves_transitive, lemma_passed_prefix, lemma_record_cancel_evolves,
    lemma_record_ready_evolves, lemma_take_evolves, Answer, Due, Ledger, LedgerView, Phase,
    Status,
};
use crate::outcome::{
    lemma_cancel_vigilant, lemma_drained_means_armed, lemma_initial_vigilant,
    lemma_serviced_vigilant, lemma_wake_vigilant,
};
use crate::policy::{all_terminal, GroupResult, Policy};
use crate::slot::{Operation, Readiness, SlotState, Teardown, Verdict, WakeToken};
use crate::wake::{any_pending, due, taken};
use vstd::prelude::*;

verus! {

/// A fixed group of operations that are driven together to one combined result.
///
/// The group owns its operations. It queries an operation only when the slot was woken,
/// and gives its result up only once every operation has finished or has acknowledged
/// its cancellation.
pub struct JoinGroup<Op: Operation, C: Fn(&Op::Output) -> Verdict> {
    ops: Vec<Op>,
    ledger: Ledger<Op::Output>,
    classify: C,
}

impl<Op: Operation, C: Fn(&Op::Output) -> Verdict> View for JoinGroup<Op, C> {
    type V = LedgerView<Op::Output>;

    closed spec fn view(&self) -> LedgerView<Op::Output> {
        self.ledger@
    }
}

impl<Op: Operation, C: Fn(&Op::Output) -> Verdict> JoinGroup<Op, C> {
    /// The operations, slot by slot.
    pub closed spec fn operations(&self) -> Seq<Op> {
        self.ops@
    }

    /// The classification that the group was made with.
    pub closed spec fn classifier(&self) -> C {
        self.classify
    }

    /// Whether the counts of the ledger are those of its slots.
    pub closed spec fn tallied(&self) -> bool {
        self.ledger.tallied()
    }

    /// What every group satisfies: its ledger is well formed and forgets no slot, it has
    /// one operation per slot, and the verdict retained with an output is one that the
    /// classification gave for it.
    pub open spec fn wf(&self) -> bool {
        &&& self@.wf()
        &&& self@.vigilant()
        &&& self.tallied()
        &&& self.operations().len() == self@.states.len()
        &&& accepts_every_output::<Op::Output, C>(self.classifier())
        &&& forall|k: int|
            0 <= k < self@.states.len() && (#[trigger] self@.states[k]) is Finished
                && self@.policy.classifies() ==> call_ensures(
                self.classifier(),
                (&(self@.states[k]->output),),
                self@.states[k]->verdict,
            )
    }

    /// Whether a step that starts from `pre` may have queried the operation of slot `k`:
    /// the slot was not terminal, and either had a wake pending or was asked to cancel
    /// when the policy was triggered during the step.
    pub open spec fn may_query(
        pre: LedgerView<Op::Output>,
        post: LedgerView<Op::Output>,
        k: int,
    ) -> bool {
        &&& !pre.states[k].is_terminal()
        &&& (due(pre.wakes, k) || post.phase != pre.phase)
    }

    /// A group of the operations `ops` under `policy`. The outputs are classified by
    /// `classify`, which must accept every output; the policies that do not classify
    /// never call it.
    pub fn new(ops: Vec<Op>, policy: Policy, classify: C) -> (g: Self)
        requires
            accepts_every_output::<Op::Output, C>(classify),
        ensures
            g.wf(),
            g@ == LedgerView::<Op::Output>::initial(ops@.len(), policy),
            g.operations() == ops@,
            g.classifier() == classify,
    {
        let ledger = Ledger::new(ops.len(), policy);
        proof {
            lemma_initial_vigilant::<Op::Output>(ops@.len(), policy);
        }
        JoinGroup { ops, ledger, classify }
    }

    pub fn policy(&self) -> (p: Policy)
        ensures
            p == self@.policy,
    {
        self.ledger.policy()
    }

    pub fn phase(&self) -> (p: Phase)
        ensures
            p == self@.phase,
    {
        self.ledger.phase()
    }

    /// The number of slots.
    pub fn arity(&self) -> (n: usize)
        ensures
            n == self@.states.len(),
    {
        self.ledger.arity()
    }

    /// The state of slot `i`, where the group has such a slot.
    pub fn slot(&self, i: usize) -> (s: Option<&SlotState<Op::Output>>)
        ensures
            s is Some <==> i < self@.states.len(),
            s is Some ==> *s.unwrap() == self@.states[i as int],
    {
        self.ledger.slot(i)
    }

    /// The operation of slot `i`, where the group has such a slot.
    pub fn operation(&self, i: usize) -> (op: Option<&Op>)
        requires
            self.wf(),
        ensures
            op is Some <==> i < self@.states.len(),
            op is Some ==> *op.unwrap() == self.operations()[i as int],
    {
        if i < self.ops.len() {
            Some(&self.ops[i])
        } else {
            None
        }
    }

    /// Whether slot `i` has a wake pending.
    pub fn is_due(&self, i: usize) -> (b: bool)
        ensures
            b == due(self@.wakes, i as int),
    {
        self.ledger.is_due(i)
    }

    /// What the group reports to whoever drives it.
    pub fn status(&self) -> (s: Status)
        requires
            self.wf(),
        ensures
            s == self@.status(),
    {
        self.ledger.status()
    }

    /// Delivers a wake to slot `i`. No operation is queried before the next step.
    pub fn wake(&mut self, i: usize)
        requires
            old(self).wf(),
        ensures
            final(self).wf(),
            final(self)@ == old(self)@.wake(i as int),
            final(self).operations() == old(self).operations(),
            final(self).classifier() == old(self).classifier(),
    {
        proof {
            lemma_wake_vigilant(self@, i as int);
        }
        self.ledger.wake(i);
    }

    /// Cancels the whole group. No operation is discarded: each running one is asked to
    /// cancel and is queried by the following steps until it acknowledges.
    pub fn cancel(&mut self)
        requires
            old(self).wf(),
        ensures
            final(self).wf(),
            final(self)@ == old(self)@.cancel(),
            final(self).operations() == old(self).operations(),
            final(self).classifier() == old(self).classifier(),
    {
        proof {
            lemma_cancel_vigilant(self@);
        }
        self.ledger.cancel();
    }

    /// Picks slot `i` up and, where a query is owed, makes it and records the answer.
    fn service(&mut self, i: usize) -> (a: Ghost<Answer<Op::Output>>)
        requires
            old(self).wf(),
            i < old(self)@.states.len(),
        ensures
            final(self).wf(),
            final(self).classifier() == old(self).classifier(),
            final(self)@ == old(self)@.serviced(i as int, a@),
            queried(
                old(self).operations()[i as int],
                old(self)@.owed(i as int),
                i,
                a@,
                final(self).operations()[i as int],
            ),
            classified(old(self)@.policy, old(self).classifier(), a@),
            old(self)@.evolves_to(final(self)@),
            forall|k: int|
                0 <= k < old(self)@.states.len() && k != i
                    ==> #[trigger] final(self).operations()[k] == old(self).operations()[k],
            old(self)@.owed(i as int) is Idle
                ==> final(self).operations()[i as int] == old(self).operations()[i as int],
            final(self)@.phase == old(self)@.phase ==> final(self)@.wakes == taken(
                old(self)@.wakes,
                i as int,
            ),
            forall|k: int|
                0 <= k < old(self)@.states.len() && k != i && final(self)@.phase == old(self)@.phase
                    ==> #[trigger] final(self)@.states[k] == old(self)@.states[k],
    {
        let ghost pre = self@;
        let ghost mut answer = Answer {
            ready: Readiness::Pending,
            verdict: Verdict::Success,
            cancel: Teardown::Pending,
        };
        proof {
            lemma_take_evolves(pre, i as int);
        }
        proof {
            lemma_serviced_vigilant(pre, i as int, answer);
        }
        match self.ledger.take(i) {
            Due::Idle => {},
            Due::PollReady => {
                let r = self.ops[i].poll_ready(WakeToken { slot: i });
                let v = match &r {
                    Readiness::Done(output) => if self.ledger.policy().does_classify() {
                        (self.classify)(output)
                    } else {
                        Verdict::Success
                    },
                    Readiness::Pending => Verdict::Success,
                };
                proof {
                    answer = Answer { ready: r, verdict: v, cancel: Teardown::Pending };
                    lemma_serviced_vigilant(pre, i as int, answer);
                    lemma_record_ready_evolves(pre.take(i as int), i as int, r, v);
                    lemma_evolves_transitive(
                        pre,
                        pre.take(i as int),
                        pre.take(i as int).record_ready(i as int, r, v),
                    );
                }
                self.ledger.record_ready(i, r, v);
                assert(self@.states[i as int] is Finished ==> self@.states[i as int]
                    == SlotState::Finished {
                    output: answer.ready->0,
                    verdict: self@.policy.retained(v),
                });
            },
            Due::PollCancel => {
                let t = self.ops[i].poll_cancel(WakeToken { slot: i });
                proof {
                    answer = Answer {
                        ready: Readiness::Pending,
                        verdict: Verdict::Success,
                        cancel: t,
                    };
                    lemma_serviced_vigilant(pre, i as int, answer);
                    lemma_record_cancel_evolves(pre.take(i as int), i as int, t);
                    lemma_evolves_transitive(
                        pre,
                        pre.take(i as int),
                        pre.take(i as int).record_cancel(i as int, t),
                    );
                }
                self.ledger.record_cancel(i, t);
            },
        }
        Ghost(answer)
    }

    /// One pass over the slots in the order of their indices.
    fn pass(&mut self) -> (answers: Ghost<Seq<Answer<Op::Output>>>)
        requires
            old(self).wf(),
        ensures
            final(self).wf(),
            final(self).classifier() == old(self).classifier(),
            answers@.len() == old(self)@.states.len(),
            final(self)@ == old(self)@.passed(answers@, old(self)@.states.len() as int),
            pass_queried(old(self).operations(), old(self)@, answers@, final(self).operations()),
            forall|k: int|
                0 <= k < answers@.len() ==> classified(
                    old(self)@.policy,
                    old(self).classifier(),
                    #[trigger] answers@[k],
                ),
            old(self)@.evolves_to(final(self)@),
            final(self)@.phase == old(self)@.phase ==> !any_pending(final(self)@.wakes),
            forall|k: int|
                0 <= k < old(self)@.states.len() && !Self::may_query(old(self)@, final(self)@, k)
                    ==> #[trigger] final(self).operations()[k] == old(self).operations()[k],
            forall|k: int|
                0 <= k < old(self)@.states.len() && !due(old(self)@.wakes, k)
                    && final(self)@.phase == old(self)@.phase ==> #[trigger] final(self)@.states[k]
                    == old(self)@.states[k],
    {
        let ghost pre = self@;
        let ghost pre_ops = self.ops@;
        let ghost mut answers: Seq<Answer<Op::Output>> = Seq::empty();
        let n = self.ledger.arity();
        let mut i: usize = 0;
        while i < n
            invariant
                i <= n,
                n == pre.states.len(),
                self.wf(),
                answers.len() == i,
                self@ == pre.passed(answers, i as int),
                forall|k: int|
                    0 <= k < i ==> #[trigger] queried(
                        pre_ops[k],
                        pre.passed(answers, k).owed(k),
                        k as usize,
                        answers[k],
                        self.ops@[k],
                    ),
                forall|k: int|
                    0 <= k < i ==> classified(
                        pre.policy,
                        self.classifier(),
                        #[trigger] answers[k],
                    ),
                self.classifier() == old(self).classifier(),
                pre.evolves_to(self@),
                self@.phase == pre.phase ==> forall|k: int|
                    0 <= k < i ==> !(#[trigger] self@.wakes[k]),
                self@.phase == pre.phase ==> forall|k: int|
                    i <= k < n ==> #[trigger] self@.wakes[k] == pre.wakes[k],
                self@.phase == pre.phase ==> forall|k: int|
                    i <= k < n ==> #[trigger] self@.states[k] == pre.states[k],
                pre_ops.len() == n,
                forall|k: int| i <= k < n ==> #[trigger] self.ops@[k] == pre_ops[k],
                forall|k: int|
                    0 <= k < n && !Self::may_query(pre, self@, k) ==> #[trigger] self.ops@[k]
                        == pre_ops[k],
                forall|k: int|
                    0 <= k < n && !due(pre.wakes, k) && self@.phase == pre.phase
                        ==> #[trigger] self@.states[k] == pre.states[k],
            decreases n - i,
        {
            let ghost before = self@;
            let ghost before_ops = self.ops@;
            let a = self.service(i);
            proof {
                let longer = answers.push(a@);
                lemma_passed_prefix(pre, answers, longer, i as int);
                assert forall|k: int| 0 <= k <= i implies #[trigger] queried(
                    pre_ops[k],
                    pre.passed(longer, k).owed(k),
                    k as usize,
                    longer[k],
                    self.ops@[k],
                ) by {
                    lemma_passed_prefix(pre, answers, longer, k);
                    if k < i {
                        assert(longer[k] == answers[k]);
                        assert(self.ops@[k] == before_ops[k]);
                        assert(queried(
                            pre_ops[k],
                            pre.passed(answers, k).owed(k),
                            k as usize,
                            answers[k],
                            before_ops[k],
                        ));
                    }
                }
                answers = longer;
                lemma_evolves_transitive(pre, before, self@);
                if self@.phase == pre.phase {
                    assert(before.phase == pre.phase);
                    assert forall|k: int| i < k < n implies #[trigger] self@.wakes[k]
                        == pre.wakes[k] by {
                        assert(before.wakes[k] == pre.wakes[k]);
                    }
                    assert forall|k: int| i < k < n implies #[trigger] self@.states[k]
                        == pre.states[k] by {
                        assert(before.states[k] == pre.states[k]);
                    }
                    assert forall|k: int| 0 <= k <= i implies !(#[trigger] self@.wakes[k]) by {
                        if k < i {
                            assert(!before.wakes[k]);
                        }
                    }
                }
            }
            i += 1;
        }
        proof {
            if self@.phase == pre.phase {
                assert forall|k: int| !due(self@.wakes, k) by {}
            }
        }
        Ghost(answers)
    }

    /// One step of the driver, to be made whenever the group was woken.
    ///
    /// Every slot with a pending wake is picked up once, in the order of the indices, and
    /// is asked what its state calls for: a running slot whether it is ready, a slot that
    /// was asked to cancel whether it has cancelled. An output that triggers the policy
    /// settles the group at once: the running slots are asked to cancel and queried in
    /// this same step. Each query hands the operation the token of its own slot, and what
    /// the ledger records is what the operation answered. Afterwards no wake is pending,
    /// and every slot that is not terminal answered `Pending` to its last query, so that
    /// its operation owes it a wake. Whatever the operations answer, every slot only moves
    /// along its lifecycle, an operation that was not woken is not touched unless the
    /// policy was triggered, and the step reports `Ready` or `Cancelled` only when every
    /// slot is terminal.
    pub fn step(&mut self) -> (s: Status)
        requires
            old(self).wf(),
        ensures
            final(self).wf(),
            final(self).classifier() == old(self).classifier(),
            old(self)@.evolves_to(final(self)@),
            exists|
                first: Seq<Answer<Op::Output>>,
                second: Seq<Answer<Op::Output>>,
                between: Seq<Op>,
            |
                {
                    &&& first.len() == old(self)@.states.len()
                    &&& second.len() == old(self)@.states.len()
                    &&& final(self)@ == old(self)@.stepped(first, second)
                    &&& #[trigger] step_queried(
                        old(self).operations(),
                        old(self)@,
                        first,
                        between,
                        second,
                        final(self).operations(),
                    )
                    &&& forall|k: int|
                        0 <= k < first.len() ==> classified(
                            old(self)@.policy,
                            old(self).classifier(),
                            #[trigger] first[k],
                        )
                    &&& forall|k: int|
                        0 <= k < second.len() ==> classified(
                            old(self)@.policy,
                            old(self).classifier(),
                            #[trigger] second[k],
                        )
                },
            s == final(self)@.status(),
            !(s is Pending) ==> all_terminal(final(self)@.states),
            !any_pending(final(self)@.wakes),
            forall|k: int|
                0 <= k < final(self)@.states.len() && !(#[trigger] final(self)@.states[k]).is_terminal()
                    ==> final(self)@.armed[k],
            forall|k: int|
                0 <= k < old(self)@.states.len() && !Self::may_query(old(self)@, final(self)@, k)
                    ==> #[trigger] final(self).operations()[k] == old(self).operations()[k],
            forall|k: int|
                0 <= k < old(self)@.states.len() && !due(old(self)@.wakes, k)
                    && final(self)@.phase == old(self)@.phase ==> #[trigger] final(self)@.states[k]
                    == old(self)@.states[k],
    {
        let ghost pre = self@;
        let first = self.pass();
        let ghost mid = self@;
        let ghost between = self.ops@;
        let ghost mut second = first@;
        if self.ledger.any_due() {
            let again = self.pass();
            proof {
                second = again@;
                lemma_evolves_transitive(pre, mid, self@);
            }
        }
        assert(self@ == pre.stepped(first@, second));
        assert(step_queried(
            old(self).operations(),
            pre,
            first@,
            between,
            second,
            self.operations(),
        ));
        proof {
            lemma_drained_means_armed(self@);
        }
        self.ledger.status()
    }

    /// Gives up the group for its result. A group that is not ready is handed back
    /// unchanged, so that no operation is discarded before it is terminal.
    pub fn finish(self) -> (r: Result<GroupResult<Op::Output>, Self>)
        requires
            self.wf(),
        ensures
            r is Ok <==> self@.status() is Ready,
            r is Ok ==> all_terminal(self@.states),
            r is Ok ==> r->Ok_0@ == self@.policy.outcome(self@.states),
            r is Err ==> r->Err_0 == self,
    {
        let JoinGroup { ops, ledger, classify } = self;
        match ledger.finish() {
            Ok(result) => Ok(result),
            Err(ledger) => Err(JoinGroup { ops, ledger, classify }),
        }
    }
}

/// Whether a slot that was owed `owed` was treated as it should: its operation was
/// handed the token of the slot, made the step that the query asks for, and gave the
/// answer recorded in `a`; an operation that was owed nothing was not touched.
pub open spec fn queried<Op: Operation>(
    before: Op,
    owed: Due,
    slot: usize,
    a: Answer<Op::Output>,
    after: Op,
) -> bool {
    match owed {
        Due::Idle => after == before,
        Due::PollReady => before.ready_step(WakeToken { slot }, a.ready, &after),
        Due::PollCancel => before.cancel_step(WakeToken { slot }, a.cancel, &after),
    }
}

/// Whether a pass that starts from the ledger `l` and takes the operations from `before`
/// to `after` queried each slot as it was owed when its turn came, and recorded in
/// `answers` what the operations answered.
pub open spec fn pass_queried<Op: Operation>(
    before: Seq<Op>,
    l: LedgerView<Op::Output>,
    answers: Seq<Answer<Op::Output>>,
    after: Seq<Op>,
) -> bool {
    &&& before.len() == l.states.len()
    &&& after.len() == l.states.len()
    &&& answers.len() == l.states.len()
    &&& forall|k: int|
        0 <= k < l.states.len() ==> #[trigger] queried(
            before[k],
            l.passed(answers, k).owed(k),
            k as usize,
            answers[k],
            after[k],
        )
}

/// Whether a step that starts from the ledger `l` queried each slot as it was owed: in
/// its first pass, which takes the operations from `before` to `between` with the
/// answers `first`, and in its second pass, if the first left wakes pending, which takes
/// them on to `after` with the answers `second`. Without a second pass `between` is
/// `after`.
pub open spec fn step_queried<Op: Operation>(
    before: Seq<Op>,
    l: LedgerView<Op::Output>,
    first: Seq<Answer<Op::Output>>,
    between: Seq<Op>,
    second: Seq<Answer<Op::Output>>,
    after: Seq<Op>,
) -> bool {
    let mid = l.passed(first, l.states.len() as int);
    &&& pass_queried(before, l, first, between)
    &&& if any_pending(mid.wakes) {
        pass_queried(between, mid, second, after)
    } else {
        after == between
    }
}

/// Whether the verdict of the answer `a` is one that the classification `c` gave for its
/// output, where the policy asks for a classification at all.
pub open spec fn classified<O, C: Fn(&O) -> Verdict>(policy: Policy, c: C, a: Answer<O>) -> bool {
    a.ready is Done && policy.classifies() ==> call_ensures(c, (&(a.ready->0),), a.verdict)
}

/// Whether the classification `c` can be called on every output.
pub open spec fn accepts_every_output<O, C: Fn(&O) -> Verdict>(c: C) -> bool {
    forall|o: &O| call_requires(c, (o,))
}

} // verus!
