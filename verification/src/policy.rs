//! The four combinator policies: when a group is complete, and what it yields.

use crate::slot::{SlotState, Verdict};
use vstd::prelude::*;

verus! {

/// The rule by which a join decides that it is complete and what it yields.
#[derive(Debug, Clone, Copy, PartialEq, Eq)]
pub enum Policy {
    /// Wait for every operation and yield all outputs.
    Zip,
    /// Wait for every operation, but give up at the first output classified as an error.
    TryZip,
    /// Yield the output of the first operation to finish.
    Race,
    /// Yield the first output classified as a success, or else every error.
    RaceOk,
}

/// What a complete join yields.
#[derive(Debug, PartialEq, Eq)]
pub enum GroupResult<O> {
    /// Every output, in the order of the slots.
    All(Vec<O>),
    /// The error that made a fail-fast join give up.
    Failed(O),
    /// The output that won a race.
    First(O),
    /// Every error, in the order of the slots, of a race that no operation won.
    AllFailed(Vec<O>),
}

/// The mathematical value of a [`GroupResult`].
pub enum GroupOutcome<O> {
    All(Seq<O>),
    Failed(O),
    First(O),
    AllFailed(Seq<O>),
}

impl<O> View for GroupResult<O> {
    type V = GroupOutcome<O>;

    open spec fn view(&self) -> GroupOutcome<O> {
        match *self {
            GroupResult::All(v) => GroupOutcome::All(v@),
            GroupResult::Failed(o) => GroupOutcome::Failed(o),
            GroupResult::First(o) => GroupOutcome::First(o),
            GroupResult::AllFailed(v) => GroupOutcome::AllFailed(v@),
        }
    }
}

/// Whether `s` is finished, with the verdict `f` where one is asked for.
pub open spec fn hit<O>(s: SlotState<O>, f: Option<Verdict>) -> bool {
    s is Finished && (f is None || f == Some(s->verdict))
}

/// Whether some slot is a hit.
pub open spec fn has_hit<O>(states: Seq<SlotState<O>>, f: Option<Verdict>) -> bool {
    exists|k: int| 0 <= k < states.len() && hit(#[trigger] states[k], f)
}

/// Whether slot `k` is the hit of lowest index.
pub open spec fn is_first_hit<O>(states: Seq<SlotState<O>>, f: Option<Verdict>, k: int) -> bool {
    &&& 0 <= k < states.len()
    &&& hit(states[k], f)
    &&& forall|j: int| 0 <= j < k ==> !hit(#[trigger] states[j], f)
}

/// The index of the first hit, where there is one.
pub open spec fn first_hit<O>(states: Seq<SlotState<O>>, f: Option<Verdict>) -> int {
    choose|k: int| is_first_hit(states, f, k)
}

pub open spec fn all_finished<O>(states: Seq<SlotState<O>>) -> bool {
    forall|k: int| 0 <= k < states.len() ==> #[trigger] states[k] is Finished
}

pub open spec fn all_terminal<O>(states: Seq<SlotState<O>>) -> bool {
    forall|k: int| 0 <= k < states.len() ==> (#[trigger] states[k]).is_terminal()
}

/// The retained outputs, slot by slot. It is read only where every slot is finished.
pub open spec fn outputs<O>(states: Seq<SlotState<O>>) -> Seq<O> {
    Seq::new(states.len(), |k: int| states[k]->output)
}

impl Policy {
    /// Whether the policy looks at the classification of an output. The others take
    /// every output for a success.
    pub open spec fn classifies(self) -> bool {
        self is TryZip || self is RaceOk
    }

    /// The verdict that a slot retains for an output classified as `v`.
    pub open spec fn retained(self, v: Verdict) -> Verdict {
        if self.classifies() {
            v
        } else {
            Verdict::Success
        }
    }

    /// Whether an output with the retained verdict `v` completes the group at once and
    /// leaves every other slot without use.
    pub open spec fn short_circuits(self, v: Verdict) -> bool {
        match self {
            Policy::Zip => false,
            Policy::TryZip => v is Error,
            Policy::Race => true,
            Policy::RaceOk => v is Success,
        }
    }

    /// Whether the slots, as they stand, trigger the completion of the group.
    pub open spec fn triggered<O>(self, states: Seq<SlotState<O>>) -> bool {
        match self {
            Policy::Zip => all_finished(states),
            Policy::TryZip => all_finished(states) || has_hit(states, Some(Verdict::Error)),
            Policy::Race => has_hit(states, None),
            Policy::RaceOk => all_finished(states) || has_hit(states, Some(Verdict::Success)),
        }
    }

    /// What the group yields once it is complete.
    pub open spec fn outcome<O>(self, states: Seq<SlotState<O>>) -> GroupOutcome<O> {
        match self {
            Policy::Zip => GroupOutcome::All(outputs(states)),
            Policy::TryZip => if has_hit(states, Some(Verdict::Error)) {
                GroupOutcome::Failed(states[first_hit(states, Some(Verdict::Error))]->output)
            } else {
                GroupOutcome::All(outputs(states))
            },
            Policy::Race => GroupOutcome::First(states[first_hit(states, None)]->output),
            Policy::RaceOk => if has_hit(states, Some(Verdict::Success)) {
                GroupOutcome::First(states[first_hit(states, Some(Verdict::Success))]->output)
            } else {
                GroupOutcome::AllFailed(outputs(states))
            },
        }
    }

    pub fn does_classify(&self) -> (b: bool)
        ensures
            b == self.classifies(),
    {
        match self {
            Policy::TryZip => true,
            Policy::RaceOk => true,
            _ => false,
        }
    }

    pub fn retain(&self, v: Verdict) -> (r: Verdict)
        ensures
            r == self.retained(v),
    {
        if self.does_classify() {
            v
        } else {
            Verdict::Success
        }
    }

    pub fn cuts_short(&self, v: Verdict) -> (b: bool)
        ensures
            b == self.short_circuits(v),
    {
        match self {
            Policy::Zip => false,
            Policy::TryZip => match v {
                Verdict::Error => true,
                Verdict::Success => false,
            },
            Policy::Race => true,
            Policy::RaceOk => match v {
                Verdict::Success => true,
                Verdict::Error => false,
            },
        }
    }

    /// Decides whether the slots trigger the completion of the group.
    pub fn triggers<O>(&self, states: &Vec<SlotState<O>>) -> (b: bool)
        ensures
            b == self.triggered(states@),
    {
        match self {
            Policy::Zip => every_finished(states),
            Policy::TryZip => find_first(states, Some(Verdict::Error)).is_some() || every_finished(
                states,
            ),
            Policy::Race => find_first(states, None).is_some(),
            Policy::RaceOk => find_first(states, Some(Verdict::Success)).is_some()
                || every_finished(states),
        }
    }
}

/// Decides whether `s` is finished, with the verdict `f` where one is asked for.
pub fn is_hit<O>(s: &SlotState<O>, f: Option<Verdict>) -> (b: bool)
    ensures
        b == hit(*s, f),
{
    match s {
        SlotState::Finished { verdict, .. } => match f {
            None => true,
            Some(Verdict::Success) => match verdict {
                Verdict::Success => true,
                Verdict::Error => false,
            },
            Some(Verdict::Error) => match verdict {
                Verdict::Error => true,
                Verdict::Success => false,
            },
        },
        _ => false,
    }
}

/// Finds the hit of lowest index.
pub fn find_first<O>(states: &Vec<SlotState<O>>, f: Option<Verdict>) -> (r: Option<usize>)
    ensures
        r is Some <==> has_hit(states@, f),
        r is Some ==> is_first_hit(states@, f, r.unwrap() as int),
        r is Some ==> r.unwrap() as int == first_hit(states@, f),
{
    let mut k: usize = 0;
    while k < states.len()
        invariant
            k <= states.len(),
            forall|j: int| 0 <= j < k ==> !hit(#[trigger] states@[j], f),
        decreases states.len() - k,
    {
        if is_hit(&states[k], f) {
            proof {
                assert(is_first_hit(states@, f, k as int));
                lemma_first_hit_unique(states@, f, k as int, first_hit(states@, f));
            }
            return Some(k);
        }
        k += 1;
    }
    None
}

/// Decides whether every slot is finished.
pub fn every_finished<O>(states: &Vec<SlotState<O>>) -> (b: bool)
    ensures
        b == all_finished(states@),
{
    let mut k: usize = 0;
    while k < states.len()
        invariant
            k <= states.len(),
            forall|j: int| 0 <= j < k ==> #[trigger] states@[j] is Finished,
        decreases states.len() - k,
    {
        if !states[k].finished() {
            return false;
        }
        k += 1;
    }
    true
}

/// Decides whether every slot is terminal.
pub fn every_terminal<O>(states: &Vec<SlotState<O>>) -> (b: bool)
    ensures
        b == all_terminal(states@),
{
    let mut k: usize = 0;
    while k < states.len()
        invariant
            k <= states.len(),
            forall|j: int| 0 <= j < k ==> (#[trigger] states@[j]).is_terminal(),
        decreases states.len() - k,
    {
        if !states[k].terminal() {
            return false;
        }
        k += 1;
    }
    true
}

/// There is at most one first hit.
pub proof fn lemma_first_hit_unique<O>(states: Seq<SlotState<O>>, f: Option<Verdict>, a: int, b: int)
    requires
        is_first_hit(states, f, a),
    ensures
        is_first_hit(states, f, b) ==> a == b,
        first_hit(states, f) == a,
{
    if is_first_hit(states, f, b) {
        if a < b {
            assert(!hit(states[a], f));
        } else if b < a {
            assert(!hit(states[b], f));
        }
    }
    let c = first_hit(states, f);
    assert(is_first_hit(states, f, c));
    if a < c {
        assert(!hit(states[a], f));
    } else if c < a {
        assert(!hit(states[c], f));
    }
}

/// Where some slot is a hit, one of them is the first: ties are broken by the lowest
/// index.
pub proof fn lemma_first_hit_exists<O>(states: Seq<SlotState<O>>, f: Option<Verdict>, k: int)
    requires
        0 <= k < states.len(),
        hit(states[k], f),
    ensures
        is_first_hit(states, f, first_hit(states, f)),
        first_hit(states, f) <= k,
    decreases k,
{
    if exists|j: int| 0 <= j < k && hit(#[trigger] states[j], f) {
        let j = choose|j: int| 0 <= j < k && hit(#[trigger] states[j], f);
        lemma_first_hit_exists(states, f, j);
    } else {
        assert(is_first_hit(states, f, k));
        lemma_first_hit_unique(states, f, k, k);
    }
}

} // verus!
