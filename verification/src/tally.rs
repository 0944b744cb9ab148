//! Counting slots, so that a ledger can tell in constant time whether every slot is
//! finished or terminal.

use crate::slot::SlotState;
use vstd::prelude::*;

verus! {

/// Whether a slot in state `s` is counted: as live (not terminal) if `live`, and as
/// finished otherwise.
pub open spec fn counted<O>(s: SlotState<O>, live: bool) -> bool {
    if live {
        !s.is_terminal()
    } else {
        s is Finished
    }
}

/// The number of counted slots.
pub open spec fn tally<O>(states: Seq<SlotState<O>>, live: bool) -> nat
    decreases states.len(),
{
    if states.len() == 0 {
        0
    } else {
        tally(states.drop_last(), live) + if counted(states.last(), live) {
            1nat
        } else {
            0nat
        }
    }
}

/// A tally is at most the number of slots; it is that number exactly when every slot is
/// counted, and zero exactly when none is.
pub proof fn lemma_tally_bounds<O>(states: Seq<SlotState<O>>, live: bool)
    ensures
        tally(states, live) <= states.len(),
        tally(states, live) == states.len() <==> forall|k: int|
            0 <= k < states.len() ==> counted(#[trigger] states[k], live),
        tally(states, live) == 0 <==> forall|k: int|
            0 <= k < states.len() ==> !counted(#[trigger] states[k], live),
    decreases states.len(),
{
    if states.len() > 0 {
        let front = states.drop_last();
        lemma_tally_bounds(front, live);
        assert(forall|k: int| 0 <= k < front.len() ==> front[k] == states[k]);
        if tally(states, live) == states.len() {
            assert(counted(states.last(), live));
            assert forall|k: int| 0 <= k < states.len() implies counted(
                #[trigger] states[k],
                live,
            ) by {
                if k < front.len() {
                    assert(counted(front[k], live));
                }
            }
        }
        if forall|k: int| 0 <= k < states.len() ==> counted(#[trigger] states[k], live) {
            assert(counted(states[states.len() - 1], live));
            assert forall|k: int| 0 <= k < front.len() implies counted(
                #[trigger] front[k],
                live,
            ) by {
                assert(counted(states[k], live));
            }
        }
        if tally(states, live) == 0 {
            assert forall|k: int| 0 <= k < states.len() implies !counted(
                #[trigger] states[k],
                live,
            ) by {
                if k < front.len() {
                    assert(!counted(front[k], live));
                }
            }
        }
        if forall|k: int| 0 <= k < states.len() ==> !counted(#[trigger] states[k], live) {
            assert(!counted(states[states.len() - 1], live));
            assert forall|k: int| 0 <= k < front.len() implies !counted(
                #[trigger] front[k],
                live,
            ) by {
                assert(!counted(states[k], live));
            }
        }
    }
}

/// Replacing the state of one slot changes a tally by what the old and the new state
/// count for.
pub proof fn lemma_tally_update<O>(states: Seq<SlotState<O>>, live: bool, i: int, s: SlotState<O>)
    requires
        0 <= i < states.len(),
    ensures
        tally(states.update(i, s), live) + (if counted(states[i], live) {
            1nat
        } else {
            0nat
        }) == tally(states, live) + (if counted(s, live) {
            1nat
        } else {
            0nat
        }),
    decreases states.len(),
{
    let next = states.update(i, s);
    if i == states.len() - 1 {
        assert(next.drop_last() =~= states.drop_last());
    } else {
        assert(next.drop_last() =~= states.drop_last().update(i, s));
        lemma_tally_update(states.drop_last(), live, i, s);
    }
}

/// Two groups whose slots are counted alike, slot by slot, have the same tally.
pub proof fn lemma_tally_alike<O>(a: Seq<SlotState<O>>, b: Seq<SlotState<O>>, live: bool)
    requires
        a.len() == b.len(),
        forall|k: int| 0 <= k < a.len() ==> counted(#[trigger] a[k], live) == counted(b[k], live),
    ensures
        tally(a, live) == tally(b, live),
    decreases a.len(),
{
    if a.len() > 0 {
        assert forall|k: int| 0 <= k < a.drop_last().len() implies counted(
            #[trigger] a.drop_last()[k],
            live,
        ) == counted(b.drop_last()[k], live) by {
            assert(counted(a[k], live) == counted(b[k], live));
        }
        lemma_tally_alike(a.drop_last(), b.drop_last(), live);
        assert(counted(a[a.len() - 1], live) == counted(b[a.len() - 1], live));
    }
}

/// A group in which exactly slot `i` is counted has a tally of one.
pub proof fn lemma_tally_single<O>(states: Seq<SlotState<O>>, live: bool, i: int)
    requires
        0 <= i < states.len(),
        counted(states[i], live),
        forall|k: int| 0 <= k < states.len() && k != i ==> !counted(#[trigger] states[k], live),
    ensures
        tally(states, live) == 1,
{
    let cleared = states.update(i, SlotState::<O>::Cancelled);
    lemma_tally_update(states, live, i, SlotState::<O>::Cancelled);
    lemma_tally_bounds(cleared, live);
}

} // verus!
