//! The wake dispatch table: one pending-wake flag per slot.

use vstd::prelude::*;

verus! {

/// Records, for each slot, whether a wake arrived since the slot was last picked up.
pub struct WakeTable {
    flags: Vec<bool>,
}

impl View for WakeTable {
    type V = Seq<bool>;

    closed spec fn view(&self) -> Seq<bool> {
        self.flags@
    }
}

/// The table after a wake of slot `i`: the flag is present, however often it is set.
pub open spec fn woken(flags: Seq<bool>, i: int) -> Seq<bool> {
    if 0 <= i < flags.len() {
        flags.update(i, true)
    } else {
        flags
    }
}

/// The table after slot `i` was picked up.
pub open spec fn taken(flags: Seq<bool>, i: int) -> Seq<bool> {
    if 0 <= i < flags.len() {
        flags.update(i, false)
    } else {
        flags
    }
}

/// Whether slot `i` has a wake pending.
pub open spec fn due(flags: Seq<bool>, i: int) -> bool {
    0 <= i < flags.len() && flags[i]
}

/// Whether any slot has a wake pending.
pub open spec fn any_pending(flags: Seq<bool>) -> bool {
    exists|i: int| due(flags, i)
}

/// The table after `k` wakes of slot `i` in a row.
pub open spec fn woken_times(flags: Seq<bool>, i: int, k: nat) -> Seq<bool>
    decreases k,
{
    if k == 0 {
        flags
    } else {
        woken(woken_times(flags, i, (k - 1) as nat), i)
    }
}

impl WakeTable {
    /// A table for `n` slots in which every flag is set, so that the first pass of a
    /// driver queries every slot once.
    pub fn new(n: usize) -> (t: Self)
        ensures
            t@ == Seq::new(n as nat, |i: int| true),
    {
        let mut flags: Vec<bool> = Vec::new();
        while flags.len() < n
            invariant
                flags.len() <= n,
                forall|j: int| 0 <= j < flags.len() ==> flags[j],
            decreases n - flags.len(),
        {
            flags.push(true);
        }
        assert(flags@ =~= Seq::new(n as nat, |i: int| true));
        WakeTable { flags }
    }

    pub fn len(&self) -> (n: usize)
        ensures
            n == self@.len(),
    {
        self.flags.len()
    }

    /// Delivers a wake to slot `i`. A wake of a slot that is already marked changes
    /// nothing, and neither does one of an index that the table does not have.
    pub fn wake(&mut self, i: usize)
        ensures
            final(self)@ == woken(old(self)@, i as int),
    {
        if i < self.flags.len() {
            self.flags[i] = true;
        }
    }

    /// Whether slot `i` has a wake pending.
    pub fn is_due(&self, i: usize) -> (b: bool)
        ensures
            b == due(self@, i as int),
    {
        i < self.flags.len() && self.flags[i]
    }

    /// Picks slot `i` up: reports whether it had a wake pending, and clears its flag.
    pub fn take(&mut self, i: usize) -> (b: bool)
        ensures
            b == due(old(self)@, i as int),
            final(self)@ == taken(old(self)@, i as int),
    {
        if i < self.flags.len() {
            let b = self.flags[i];
            self.flags[i] = false;
            b
        } else {
            false
        }
    }

    /// Whether any slot has a wake pending.
    pub fn any_due(&self) -> (b: bool)
        ensures
            b == any_pending(self@),
    {
        let mut i: usize = 0;
        while i < self.flags.len()
            invariant
                i <= self.flags.len(),
                forall|j: int| 0 <= j < i ==> !due(self@, j),
            decreases self.flags.len() - i,
        {
            if self.flags[i] {
                assert(due(self@, i as int));
                return true;
            }
            i += 1;
        }
        false
    }
}

/// A second wake of a slot that is already marked changes nothing.
pub proof fn lemma_wake_idempotent(flags: Seq<bool>, i: int)
    ensures
        woken(woken(flags, i), i) == woken(flags, i),
{
    assert(woken(woken(flags, i), i) =~= woken(flags, i));
}

/// Any number of wakes of one slot, at least one, leaves the table as a single wake
/// does: the table keeps presence, not a count.
pub proof fn lemma_wakes_coalesce(flags: Seq<bool>, i: int, k: nat)
    requires
        k >= 1,
    ensures
        woken_times(flags, i, k) == woken(flags, i),
    decreases k,
{
    if k > 1 {
        lemma_wakes_coalesce(flags, i, (k - 1) as nat);
        lemma_wake_idempotent(flags, i);
    } else {
        assert(woken_times(flags, i, 0) == flags);
    }
}

/// After any number of wakes of one slot, picking the slot up finds it due once, and a
/// second pick-up without a wake in between finds nothing.
pub proof fn lemma_one_pickup_per_burst(flags: Seq<bool>, i: int, k: nat)
    requires
        k >= 1,
        0 <= i < flags.len(),
    ensures
        due(woken_times(flags, i, k), i),
        !due(taken(woken_times(flags, i, k), i), i),
        taken(woken_times(flags, i, k), i) == taken(flags, i),
{
    lemma_wakes_coalesce(flags, i, k);
    assert(taken(woken(flags, i), i) =~= taken(flags, i));
}

} // verus!
