//! What holds of every ledger, whatever the operations answer: that a result is given
//! only once every slot is terminal, that wakes of one slot coalesce, that a result keeps
//! the order of the slots, that the lowest slot whose output short-circuits the policy
//! decides the result, that the result no longer changes while the remaining slots are
//! cancelled, and that no slot is forgotten between two steps.

use crate::ledger::{lemma_record_cancel_wf, lemma_record_ready_wf, Answer, Due, LedgerView};
use crate::policy::{
    all_finished, all_terminal, first_hit, has_hit, hit, is_first_hit, lemma_first_hit_unique,
    outputs, GroupOutcome, Policy,
};
use crate::slot::{Readiness, SlotState, Teardown, Verdict};
use crate::wake::{any_pending, due, lemma_wake_idempotent, taken, woken};
use vstd::prelude::*;

verus! {

/// The ledger after `k` wakes of slot `i` in a row, with no step in between.
pub open spec fn wake_burst<O>(l: LedgerView<O>, i: int, k: nat) -> LedgerView<O>
    decreases k,
{
    if k == 0 {
        l
    } else {
        wake_burst(l, i, (k - 1) as nat).wake(i)
    }
}

/// Whether no output among the slots decides the result alone, so that the group yields
/// the outputs of all its slots.
pub open spec fn collects<O>(policy: Policy, states: Seq<SlotState<O>>) -> bool {
    match policy {
        Policy::Zip => true,
        Policy::TryZip => !has_hit(states, Some(Verdict::Error)),
        Policy::Race => false,
        Policy::RaceOk => !has_hit(states, Some(Verdict::Success)),
    }
}

/// A group that reports anything but `Pending` has no slot that is running or waits for
/// its cancellation: every slot is finished or cancelled. A group that reports
/// `Cancelled` has retained no output.
pub proof fn lemma_reported_means_terminal<O>(l: LedgerView<O>)
    requires
        l.wf(),
        !(l.status() is Pending),
    ensures
        forall|k: int|
            0 <= k < l.states.len() ==> (#[trigger] l.states[k]) is Finished
                || l.states[k] is Cancelled,
        l.status() is Ready ==> l.phase is Settling && l.policy.triggered(l.states),
        l.status() is Cancelled ==> forall|k: int|
            0 <= k < l.states.len() ==> (#[trigger] l.states[k]) is Cancelled,
{
    assert(all_terminal(l.states));
    assert forall|k: int| 0 <= k < l.states.len() implies (#[trigger] l.states[k]) is Finished
        || l.states[k] is Cancelled by {
        assert(l.states[k].is_terminal());
    }
}

/// Any number of wakes of one slot before the next step, at least one, leaves the ledger
/// as a single wake does. The step then owes the slot one query, and picking the slot up
/// a second time owes it nothing.
pub proof fn lemma_wake_burst_is_one_wake<O>(l: LedgerView<O>, i: int, k: nat)
    requires
        k >= 1,
        l.wf(),
        0 <= i < l.states.len(),
    ensures
        wake_burst(l, i, k) == l.wake(i),
        wake_burst(l, i, k).wf(),
        wake_burst(l, i, k).owed(i) == (match l.states[i] {
            SlotState::Running => Due::PollReady,
            SlotState::CancelRequested => Due::PollCancel,
            _ => Due::Idle,
        }),
        wake_burst(l, i, k).take(i).owed(i) is Idle,
    decreases k,
{
    if k > 1 {
        lemma_wake_burst_is_one_wake(l, i, (k - 1) as nat);
        lemma_wake_idempotent(l.wakes, i);
        assert(l.wake(i).wake(i).armed =~= l.wake(i).armed);
    } else {
        assert(wake_burst(l, i, 0) == l);
    }
    assert(taken(woken(l.wakes, i), i) =~= taken(l.wakes, i));
}

/// Where no output decides alone, a ready group has every slot finished and yields the
/// outputs in the order of the slots, whatever the order in which they finished.
pub proof fn lemma_collects_in_slot_order<O>(l: LedgerView<O>)
    requires
        l.wf(),
        l.status() is Ready,
        collects(l.policy, l.states),
    ensures
        all_finished(l.states),
        outputs(l.states).len() == l.states.len(),
        forall|k: int|
            0 <= k < l.states.len() ==> #[trigger] outputs(l.states)[k] == l.states[k]->output,
        l.policy.outcome(l.states) == (if l.policy is RaceOk {
            GroupOutcome::AllFailed(outputs(l.states))
        } else {
            GroupOutcome::All(outputs(l.states))
        }),
        l.policy is RaceOk ==> forall|k: int|
            0 <= k < l.states.len() ==> (#[trigger] l.states[k])->verdict is Error,
{
    if l.policy is RaceOk {
        assert forall|k: int| 0 <= k < l.states.len() implies (
        #[trigger] l.states[k])->verdict is Error by {
            assert(l.states[k] is Finished);
            assert(!hit(l.states[k], Some(Verdict::Success)));
        }
    }
}

/// An output that short-circuits the policy settles the group at once and decides its
/// result: every other running slot is asked to cancel and marked for a query, every
/// other retained output is discarded, and the group will yield this output. Among
/// slots that could finish in the same step, the one that is recorded first (the one of
/// lowest index) wins.
pub proof fn lemma_short_circuit_decides<O>(l: LedgerView<O>, i: int, o: O, v: Verdict)
    requires
        l.wf(),
        0 <= i < l.states.len(),
        l.states[i] is Running,
        l.policy.short_circuits(l.policy.retained(v)),
    ensures
        ({
            let post = l.record_ready(i, Readiness::Done(o), v);
            &&& post.wf()
            &&& post.phase is Settling
            &&& post.states[i] == (SlotState::Finished { output: o, verdict: l.policy.retained(v) })
            &&& forall|k: int|
                0 <= k < l.states.len() && k != i ==> #[trigger] post.states[k]
                    == l.states[k].after_cancel_request()
            &&& forall|k: int|
                0 <= k < l.states.len() && k != i && (#[trigger] l.states[k]) is Running ==> due(
                    post.wakes,
                    k,
                )
            &&& post.policy.outcome(post.states) == (if l.policy is TryZip {
                GroupOutcome::Failed(o)
            } else {
                GroupOutcome::First(o)
            })
        }),
{
    let post = l.record_ready(i, Readiness::Done(o), v);
    lemma_record_ready_wf(l, i, Readiness::Done(o), v);
    let kept = l.policy.retained(v);
    let f: Option<Verdict> = if l.policy is Race {
        None
    } else {
        Some(kept)
    };
    assert(post.states[i] == (SlotState::Finished { output: o, verdict: kept }));
    assert(hit(post.states[i], f));
    assert forall|j: int| 0 <= j < i implies !hit(#[trigger] post.states[j], f) by {
        assert(post.states[j] == l.states[j].after_cancel_request());
    }
    assert(is_first_hit(post.states, f, i));
    lemma_first_hit_unique(post.states, f, i, i);
    assert(has_hit(post.states, f));
}

/// Once a group is settling, its result is fixed: the answers that come in while the
/// remaining slots are cancelled do not change what it will yield.
pub proof fn lemma_settled_outcome_is_final<O>(
    l: LedgerView<O>,
    i: int,
    r: Readiness<O>,
    v: Verdict,
    t: Teardown,
)
    requires
        l.wf(),
        l.phase is Settling,
    ensures
        l.record_ready(i, r, v) == l,
        l.record_cancel(i, t).phase is Settling,
        l.policy.outcome(l.record_cancel(i, t).states) == l.policy.outcome(l.states),
{
    let post = l.record_cancel(i, t);
    if 0 <= i < l.states.len() && l.states[i] is CancelRequested && t is Cancelled {
        assert forall|f: Option<Verdict>, k: int| #[trigger]
            is_first_hit(l.states, f, k) implies is_first_hit(post.states, f, k) by {
            assert forall|j: int| 0 <= j < k implies !hit(#[trigger] post.states[j], f) by {
                assert(!hit(l.states[j], f));
            }
        }
        assert forall|f: Option<Verdict>| #[trigger]
            has_hit(post.states, f) == has_hit(l.states, f) by {
            if has_hit(post.states, f) {
                let k = choose|k: int| 0 <= k < post.states.len() && hit(#[trigger] post.states[k], f);
                assert(hit(l.states[k], f));
            }
            if has_hit(l.states, f) {
                let k = choose|k: int| 0 <= k < l.states.len() && hit(#[trigger] l.states[k], f);
                assert(hit(post.states[k], f));
            }
        }
        assert(!all_finished(l.states));
        assert(!all_finished(post.states)) by {
            assert(!(post.states[i] is Finished));
        }
        let f: Option<Verdict> = match l.policy {
            Policy::TryZip => Some(Verdict::Error),
            Policy::RaceOk => Some(Verdict::Success),
            _ => None,
        };
        assert(has_hit(l.states, f));
        let k = choose|k: int| 0 <= k < l.states.len() && hit(#[trigger] l.states[k], f);
        crate::policy::lemma_first_hit_exists(l.states, f, k);
        let w = first_hit(l.states, f);
        assert(is_first_hit(post.states, f, w));
        lemma_first_hit_unique(post.states, f, w, w);
        assert(post.states[w] == l.states[w]);
    } else if 0 <= i < l.states.len() {
        assert(post.states =~= l.states);
    }
}

/// Servicing a slot of a settling group keeps the group settling and its result fixed.
pub proof fn lemma_settled_service<O>(m: LedgerView<O>, k: int, a: Answer<O>)
    requires
        m.wf(),
        m.phase is Settling,
    ensures
        m.serviced(k, a).wf(),
        m.serviced(k, a).phase is Settling,
        m.policy.outcome(m.serviced(k, a).states) == m.policy.outcome(m.states),
{
    let t = m.take(k);
    assert(t.wf());
    lemma_settled_outcome_is_final(t, k, a.ready, a.verdict, a.cancel);
    lemma_record_cancel_wf(t, k, a.cancel);
}

/// Once a group is settling, no pass changes what it will yield, whatever the
/// operations answer.
pub proof fn lemma_settled_pass<O>(m: LedgerView<O>, answers: Seq<Answer<O>>, upto: int)
    requires
        m.wf(),
        m.phase is Settling,
    ensures
        m.passed(answers, upto).wf(),
        m.passed(answers, upto).phase is Settling,
        m.passed(answers, upto).policy == m.policy,
        m.policy.outcome(m.passed(answers, upto).states) == m.policy.outcome(m.states),
    decreases upto,
{
    if upto > 0 {
        lemma_settled_pass(m, answers, upto - 1);
        lemma_settled_service(m.passed(answers, upto - 1), upto - 1, answers[upto - 1]);
    }
}

/// Whether the answer `a` of slot `j` short-circuits the policy of `l` in a pass.
pub open spec fn decisive<O>(l: LedgerView<O>, j: int, a: Answer<O>) -> bool {
    &&& l.owed(j) is PollReady
    &&& a.ready is Done
    &&& l.policy.short_circuits(l.policy.retained(a.verdict))
}

/// While no slot below `upto` gives a decisive answer and some slot at or above it is
/// still running, a pass over the slots below `upto` leaves the group driving and the
/// slots from `upto` on as they were.
proof fn lemma_driving_prefix<O>(l: LedgerView<O>, answers: Seq<Answer<O>>, i: int, upto: int)
    requires
        l.wf(),
        l.phase is Driving,
        0 <= upto <= i < l.states.len(),
        l.states[i] is Running,
        forall|j: int| 0 <= j < i ==> !decisive(l, j, #[trigger] answers[j]),
    ensures
        l.passed(answers, upto).wf(),
        l.passed(answers, upto).phase is Driving,
        l.passed(answers, upto).policy == l.policy,
        l.passed(answers, upto).states.len() == l.states.len(),
        forall|k: int|
            upto <= k < l.states.len() ==> (#[trigger] l.passed(answers, upto).states[k])
                == l.states[k],
        forall|k: int|
            upto <= k < l.states.len() ==> (#[trigger] l.passed(answers, upto).wakes[k])
                == l.wakes[k],
    decreases upto,
{
    if upto > 0 {
        let j = upto - 1;
        lemma_driving_prefix(l, answers, i, j);
        let p = l.passed(answers, j);
        let a = answers[j];
        let t = p.take(j);
        assert(p.states[j] == l.states[j]);
        assert(p.wakes[j] == l.wakes[j]);
        assert(p.owed(j) == l.owed(j));
        assert(t.wf());
        assert(!decisive(l, j, a));
        assert(!(p.states[j] is CancelRequested));
        let next = p.serviced(j, a);
        if p.owed(j) is PollReady {
            lemma_record_ready_wf(t, j, a.ready, a.verdict);
            if a.ready is Done {
                let kept = l.policy.retained(a.verdict);
                let marked = t.states.update(
                    j,
                    SlotState::Finished { output: a.ready->0, verdict: kept },
                );
                assert(marked[i] == l.states[i]);
                assert(!all_finished(marked));
                assert(next.states == marked);
            }
        }
    }
}

/// The lowest slot whose answer short-circuits the policy decides the step: whatever the
/// slots above it answer in the same step, and however they answer while they cancel,
/// the group settles on the output of that slot. In a race, of two operations that
/// become ready in the same step the one of lower index wins.
pub proof fn lemma_lowest_decisive_answer_wins<O>(
    l: LedgerView<O>,
    first: Seq<Answer<O>>,
    second: Seq<Answer<O>>,
    i: int,
)
    requires
        l.wf(),
        l.phase is Driving,
        first.len() == l.states.len(),
        second.len() == l.states.len(),
        0 <= i < l.states.len(),
        decisive(l, i, first[i]),
        forall|j: int| 0 <= j < i ==> !decisive(l, j, #[trigger] first[j]),
    ensures
        l.stepped(first, second).wf(),
        l.stepped(first, second).phase is Settling,
        l.policy.outcome(l.stepped(first, second).states) == (if l.policy is TryZip {
            GroupOutcome::Failed(first[i].ready->0)
        } else {
            GroupOutcome::First(first[i].ready->0)
        }),
{
    let n = l.states.len() as int;
    let o = first[i].ready->0;
    let target = if l.policy is TryZip {
        GroupOutcome::Failed(o)
    } else {
        GroupOutcome::First(o)
    };
    lemma_driving_prefix(l, first, i, i);
    let p = l.passed(first, i);
    let t = p.take(i);
    assert(p.states[i] == l.states[i]);
    assert(p.wakes[i] == l.wakes[i]);
    assert(p.owed(i) == l.owed(i));
    assert(t.wf());
    lemma_short_circuit_decides(t, i, o, first[i].verdict);
    let at = l.passed(first, i + 1);
    assert(at == t.record_ready(i, first[i].ready, first[i].verdict));
    lemma_rest_of_pass(l, first, i + 1, n, target);
    let mid = l.passed(first, n);
    lemma_settled_pass(mid, second, n);
}

/// A pass that has settled the group by slot `from - 1` keeps the result to its end.
proof fn lemma_rest_of_pass<O>(
    l: LedgerView<O>,
    answers: Seq<Answer<O>>,
    from: int,
    upto: int,
    target: GroupOutcome<O>,
)
    requires
        0 <= from <= upto,
        l.passed(answers, from).wf(),
        l.passed(answers, from).phase is Settling,
        l.passed(answers, from).policy == l.policy,
        l.policy.outcome(l.passed(answers, from).states) == target,
    ensures
        l.passed(answers, upto).wf(),
        l.passed(answers, upto).phase is Settling,
        l.passed(answers, upto).policy == l.policy,
        l.policy.outcome(l.passed(answers, upto).states) == target,
    decreases upto - from,
{
    if upto > from {
        lemma_rest_of_pass(l, answers, from, upto - 1, target);
        lemma_settled_service(l.passed(answers, upto - 1), upto - 1, answers[upto - 1]);
    }
}

/// A new group forgets no slot: every slot has a wake pending.
pub proof fn lemma_initial_vigilant<O>(n: nat, policy: Policy)
    ensures
        LedgerView::<O>::initial(n, policy).vigilant(),
{
}

/// A wake forgets no slot.
pub proof fn lemma_wake_vigilant<O>(l: LedgerView<O>, i: int)
    requires
        l.wf(),
        l.vigilant(),
    ensures
        l.wake(i).vigilant(),
{
    let post = l.wake(i);
    assert forall|k: int|
        0 <= k < post.states.len() && !(#[trigger] post.states[k]).is_terminal() implies post.wakes[k]
        || post.armed[k] by {
        assert(!l.states[k].is_terminal());
    }
}

/// Cancelling the whole group forgets no slot: every slot that is asked to cancel is
/// marked for a query.
pub proof fn lemma_cancel_vigilant<O>(l: LedgerView<O>)
    requires
        l.wf(),
        l.vigilant(),
    ensures
        l.cancel().vigilant(),
{
    let post = l.cancel();
    assert forall|k: int|
        0 <= k < post.states.len() && !(#[trigger] post.states[k]).is_terminal() implies post.wakes[k]
        || post.armed[k] by {
        assert(!l.states[k].is_terminal());
    }
}

/// Servicing a slot forgets no slot: the slot that was queried is terminal or owes a
/// wake afterwards, and a slot that is asked to cancel on the way is marked for a query.
pub proof fn lemma_serviced_vigilant<O>(l: LedgerView<O>, i: int, a: Answer<O>)
    requires
        l.wf(),
        l.vigilant(),
    ensures
        l.serviced(i, a).vigilant(),
{
    let post = l.serviced(i, a);
    let t = l.take(i);
    assert forall|k: int|
        0 <= k < post.states.len() && !(#[trigger] post.states[k]).is_terminal() implies post.wakes[k]
        || post.armed[k] by {
        assert(!l.states[k].is_terminal());
        assert(t.states[k] == l.states[k]);
    }
}

/// A group that forgets no slot and has no wake pending waits for its operations only:
/// every slot that is not terminal answered `Pending` to its last query.
pub proof fn lemma_drained_means_armed<O>(l: LedgerView<O>)
    requires
        l.wf(),
        l.vigilant(),
        !any_pending(l.wakes),
    ensures
        forall|k: int|
            0 <= k < l.states.len() && !(#[trigger] l.states[k]).is_terminal() ==> l.armed[k],
{
    assert forall|k: int|
        0 <= k < l.states.len() && !(#[trigger] l.states[k]).is_terminal() implies l.armed[k] by {
        assert(!due(l.wakes, k));
    }
}

} // verus!
