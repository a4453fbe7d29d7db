use vstd::prelude::*;

verus! {

/// Which slots of a pool are held: `true` for a slot that a caller holds.
pub struct SlotTable {
    busy: Vec<bool>,
}

/// The table after a claim on slot `i`, and whether the claim got the slot.
pub open spec fn claim(t: Seq<bool>, i: int) -> (bool, Seq<bool>) {
    (!t[i], t.update(i, true))
}

/// The table after slot `i` is given back.
pub open spec fn release(t: Seq<bool>, i: int) -> Seq<bool> {
    t.update(i, false)
}

/// How many slots of the table are held.
pub open spec fn held_count(t: Seq<bool>) -> nat
    decreases t.len(),
{
    if t.len() == 0 {
        0
    } else {
        held_count(t.drop_last()) + if t.last() {
            1nat
        } else {
            0nat
        }
    }
}

impl View for SlotTable {
    type V = Seq<bool>;

    closed spec fn view(&self) -> Seq<bool> {
        self.busy@
    }
}

impl SlotTable {
    /// A table of `slots` free slots.
    pub fn new(slots: usize) -> (r: SlotTable)
        requires
            slots > 0,
        ensures
            r@ == Seq::new(slots as nat, |i: int| false),
    {
        let mut busy: Vec<bool> = Vec::new();
        let mut i: usize = 0;
        while i < slots
            invariant
                i <= slots,
                busy@ == Seq::new(i as nat, |j: int| false),
            decreases slots - i,
        {
            busy.push(false);
            i = i + 1;
            assert(busy@ =~= Seq::new(i as nat, |j: int| false));
        }
        SlotTable { busy }
    }

    /// The number of slots.
    pub fn slots(&self) -> (r: usize)
        ensures
            r == self@.len(),
    {
        self.busy.len()
    }

    /// Tries to take slot `i` without waiting: succeeds exactly when the slot
    /// is free, and the slot is held afterwards either way.
    pub fn try_claim(&mut self, i: usize) -> (r: bool)
        requires
            i < old(self)@.len(),
        ensures
            (r, final(self)@) == claim(old(self)@, i as int),
    {
        let free = !self.busy[i];
        self.busy.set(i, true);
        free
    }

    /// Gives back held slot `i`.
    pub fn release(&mut self, i: usize)
        requires
            i < old(self)@.len(),
            old(self)@[i as int],
        ensures
            final(self)@ == release(old(self)@, i as int),
    {
        self.busy.set(i, false);
    }

    /// How many slots are held.
    pub fn holders(&self) -> (r: usize)
        ensures
            r == held_count(self@),
    {
        let mut n: usize = 0;
        let mut i: usize = 0;
        while i < self.busy.len()
            invariant
                i <= self.busy@.len(),
                n == held_count(self.busy@.subrange(0, i as int)),
                n <= i,
            decreases self.busy@.len() - i,
        {
            assert(self.busy@.subrange(0, i + 1).drop_last() =~= self.busy@.subrange(0, i as int));
            if self.busy[i] {
                n = n + 1;
            }
            i = i + 1;
        }
        assert(self.busy@.subrange(0, i as int) =~= self.busy@);
        n
    }
}

/// One caller's walk over the slots: the slot it tries next, and how many
/// tries in a row have failed in the current round.
pub struct Rotation {
    pub cursor: usize,
    pub misses: usize,
    pub slots: usize,
}

/// What a caller does after one try.
#[derive(Clone, Copy, Debug, PartialEq, Eq, Structural)]
pub enum Attempt {
    /// The caller holds this slot now.
    Acquired(usize),
    /// The slot was taken; try the next one at once.
    Retry,
    /// A whole round of slots was taken; wait a short while before the next round.
    Backoff,
}

impl Rotation {
    /// Well-formed: the cursor and the miss count stay below the slot count.
    pub open spec fn wf(&self) -> bool {
        &&& self.slots > 0
        &&& self.cursor < self.slots
        &&& self.misses < self.slots
    }

    /// A walk over `slots` slots that starts at the first one.
    pub fn new(slots: usize) -> (r: Rotation)
        requires
            slots > 0,
        ensures
            r.wf(),
            r.slots == slots,
            r.cursor == 0,
            r.misses == 0,
    {
        Rotation { cursor: 0, misses: 0, slots }
    }
}

/// The walk after a failed try: the cursor moves to the next slot, and a
/// round ends after as many failures in a row as there are slots.
pub open spec fn after_miss(r: Rotation) -> Rotation {
    Rotation {
        cursor: ((r.cursor + 1) % (r.slots as int)) as usize,
        misses: if r.misses + 1 == r.slots {
            0
        } else {
            (r.misses + 1) as usize
        },
        slots: r.slots,
    }
}

/// The walk after `k` failed tries in a row.
pub open spec fn after_misses(r: Rotation, k: nat) -> Rotation
    decreases k,
{
    if k == 0 {
        r
    } else {
        after_miss(after_misses(r, (k - 1) as nat))
    }
}

proof fn lemma_step_mod(c: int, k: int, n: int)
    requires
        n > 0,
        c >= 0,
        k >= 0,
    ensures
        ((c + k) % n + 1) % n == (c + k + 1) % n,
{
    vstd::arithmetic::div_mod::lemma_add_mod_noop(c + k, 1, n);
    if n > 1 {
        vstd::arithmetic::div_mod::lemma_small_mod(1, n as nat);
    } else {
        assert(((c + k) % n + 1) % n == 0 && (c + k + 1) % n == 0);
    }
}

/// Slot `j` is under the cursor at some try of the round that `r` starts.
pub open spec fn visited_in_round(r: Rotation, j: int) -> bool {
    exists|m: nat| m < r.slots && #[trigger] after_misses(r, m).cursor == j
}

/// A round tries every slot: from the start of a round, the `k`-th failure
/// in a row moves the cursor `k` slots on (wrapping around), no wait is asked
/// before the round is complete, and every slot is under the cursor at some
/// try of the round.
pub proof fn lemma_round_visits_every_slot(r: Rotation, k: nat)
    requires
        r.wf(),
        r.misses == 0,
        k < r.slots,
    ensures
        after_misses(r, k).wf(),
        after_misses(r, k).slots == r.slots,
        after_misses(r, k).cursor == (r.cursor + k) % (r.slots as int),
        after_misses(r, k).misses == k,
        forall|j: int| 0 <= j < r.slots ==> #[trigger] visited_in_round(r, j),
{
    let n = r.slots as int;
    lemma_cursor_after(r, k);
    assert forall|j: int| 0 <= j < n implies #[trigger] visited_in_round(r, j) by {
        let m: nat = if j >= r.cursor {
            (j - r.cursor) as nat
        } else {
            (j + n - r.cursor) as nat
        };
        lemma_cursor_after(r, m);
        if j >= r.cursor {
            vstd::arithmetic::div_mod::lemma_small_mod(j as nat, n as nat);
        } else {
            vstd::arithmetic::div_mod::lemma_mod_add_multiples_vanish(j, n);
            vstd::arithmetic::div_mod::lemma_small_mod(j as nat, n as nat);
        }
        assert(after_misses(r, m).cursor == j);
    }
}

proof fn lemma_cursor_after(r: Rotation, k: nat)
    requires
        r.wf(),
        r.misses == 0,
        k < r.slots,
    ensures
        after_misses(r, k).cursor == (r.cursor + k) % (r.slots as int),
        after_misses(r, k).misses == k,
        after_misses(r, k).wf(),
        after_misses(r, k).slots == r.slots,
    decreases k,
{
    let n = r.slots as int;
    if k > 0 {
        lemma_cursor_after(r, (k - 1) as nat);
        lemma_step_mod(r.cursor as int, k - 1, n);
        vstd::arithmetic::div_mod::lemma_mod_bound((r.cursor + k) as int, n);
    } else {
        vstd::arithmetic::div_mod::lemma_small_mod(r.cursor as nat, n as nat);
    }
}

/// One try of a caller that wants any slot: it claims the slot under its
/// cursor if that one is free; else it moves on, and asks to wait after a
/// whole round of failures.
pub fn acquire_step(table: &mut SlotTable, rot: &mut Rotation) -> (r: Attempt)
    requires
        old(rot).wf(),
        old(rot).slots == old(table)@.len(),
    ensures
        final(rot).wf(),
        final(rot).slots == old(rot).slots,
        !old(table)@[old(rot).cursor as int] ==> r == Attempt::Acquired(old(rot).cursor) && final(table)@ == claim(
            old(table)@,
            old(rot).cursor as int,
        ).1 && *final(rot) == *old(rot),
        old(table)@[old(rot).cursor as int] ==> final(table)@ == old(table)@ && *final(rot) == after_miss(*old(rot)) && (r
            == Attempt::Backoff <==> old(rot).misses + 1 == old(rot).slots) && (r == Attempt::Retry <==> old(rot).misses
            + 1 < old(rot).slots),
{
    let c = rot.cursor;
    let ghost before = table@;
    if table.try_claim(c) {
        Attempt::Acquired(c)
    } else {
        assert(table@ =~= before);
        assert((c + 1) % (rot.slots as int) == if c + 1 == rot.slots { 0 } else { c + 1 }) by (nonlinear_arith)
            requires
                c < rot.slots,
        ;
        rot.cursor = if c + 1 == rot.slots {
            0
        } else {
            c + 1
        };
        if rot.misses + 1 == rot.slots {
            rot.misses = 0;
            Attempt::Backoff
        } else {
            rot.misses = rot.misses + 1;
            Attempt::Retry
        }
    }
}

/// No more holders than slots: the pool never gives out more than it has.
pub proof fn lemma_holders_bounded(t: Seq<bool>)
    ensures
        held_count(t) <= t.len(),
    decreases t.len(),
{
    if t.len() > 0 {
        lemma_holders_bounded(t.drop_last());
    }
}

proof fn lemma_held_count_update(t: Seq<bool>, i: int, b: bool)
    requires
        0 <= i < t.len(),
    ensures
        held_count(t.update(i, b)) + (if t[i] { 1int } else { 0int }) == held_count(t) + (if b { 1int } else { 0int }),
    decreases t.len(),
{
    if i < t.len() - 1 {
        lemma_held_count_update(t.drop_last(), i, b);
        assert(t.update(i, b).drop_last() =~= t.drop_last().update(i, b));
    } else {
        assert(t.update(i, b).drop_last() =~= t.drop_last());
    }
}

/// A claim that succeeds adds exactly one holder, and a claim that fails
/// leaves the table as it was; giving a slot back removes exactly one holder,
/// and that slot is then free for the very next claim, which gets it and
/// restores the table.
pub proof fn lemma_claim_and_release(t: Seq<bool>, i: int)
    requires
        0 <= i < t.len(),
    ensures
        claim(t, i).0 ==> held_count(claim(t, i).1) == held_count(t) + 1,
        !claim(t, i).0 ==> claim(t, i).1 == t,
        t[i] ==> held_count(release(t, i)) + 1 == held_count(t),
        t[i] ==> claim(release(t, i), i) == (true, t),
{
    lemma_held_count_update(t, i, true);
    lemma_held_count_update(t, i, false);
    assert(!t[i] || t.update(i, true) =~= t);
    assert(t[i] ==> release(t, i).update(i, true) =~= t);
}

} // verus!
