use vstd::prelude::*;
use crate::aggregate::{flat, lemma_size_matches_flatten};
use crate::tree::{assemble_tree, tree_texts, Comment, Outcome};

verus! {

/// The number of nodes whose classification has completed in the current run.
pub struct ProgressCounter {
    count: usize,
}

impl View for ProgressCounter {
    type V = nat;

    closed spec fn view(&self) -> nat {
        self.count as nat
    }
}

/// How many outcomes are successes.
pub open spec fn count_ok(outs: Seq<Outcome>) -> nat
    decreases outs.len(),
{
    if outs.len() == 0 {
        0
    } else {
        count_ok(outs.drop_last()) + if outs.last() is Ok {
            1nat
        } else {
            0nat
        }
    }
}

impl ProgressCounter {
    /// A counter at 0.
    pub fn new() -> (r: ProgressCounter)
        ensures
            r@ == 0,
    {
        ProgressCounter { count: 0 }
    }

    /// Starts a new run from 0.
    pub fn reset(&mut self)
        ensures
            final(self)@ == 0,
    {
        self.count = 0;
    }

    /// Counts one more completed node.
    pub fn increment(&mut self)
        requires
            old(self)@ < usize::MAX,
        ensures
            final(self)@ == old(self)@ + 1,
    {
        self.count = self.count + 1;
    }

    /// The number of completed nodes so far.
    pub fn read(&self) -> (r: usize)
        ensures
            r == self@,
    {
        self.count
    }

    /// Counts the node whose classification ended with `outcome`, where it
    /// succeeded; a failed classification completes no node.
    pub fn record(&mut self, outcome: &Outcome)
        requires
            outcome is Ok ==> old(self)@ < usize::MAX,
        ensures
            final(self)@ == old(self)@ + if outcome is Ok {
                1nat
            } else {
                0nat
            },
    {
        if outcome.is_ok() {
            self.count = self.count + 1;
        }
    }
}

proof fn lemma_all_ok_count(outs: Seq<Outcome>)
    requires
        forall|i: int| 0 <= i < outs.len() ==> (#[trigger] outs[i]) is Ok,
    ensures
        count_ok(outs) == outs.len(),
    decreases outs.len(),
{
    if outs.len() > 0 {
        lemma_all_ok_count(outs.drop_last());
    }
}

proof fn lemma_count_ok_concat(a: Seq<Outcome>, b: Seq<Outcome>)
    ensures
        count_ok(a + b) == count_ok(a) + count_ok(b),
    decreases b.len(),
{
    if b.len() == 0 {
        assert(a + b =~= a);
    } else {
        lemma_count_ok_concat(a, b.drop_last());
        assert((a + b).drop_last() =~= a + b.drop_last());
    }
}

/// The progress of a run does not depend on the order in which workers
/// finish: recording two batches of outcomes in either order counts the same.
pub proof fn lemma_progress_order_free(a: Seq<Outcome>, b: Seq<Outcome>)
    ensures
        count_ok(a + b) == count_ok(b + a),
{
    lemma_count_ok_concat(a, b);
    lemma_count_ok_concat(b, a);
}

/// A run that starts from 0 and records the outcome of every kept node of a
/// tree ends at the tree's size, where every classification succeeded; that
/// is also the number of analyses in the result tree.
pub proof fn lemma_progress_reaches_size(text: Seq<char>, replies: Seq<Comment>, outs: Seq<Outcome>)
    requires
        outs.len() == tree_texts(text, replies).len(),
        forall|i: int| 0 <= i < outs.len() ==> (#[trigger] outs[i]) is Ok,
    ensures
        count_ok(outs) == tree_texts(text, replies).len(),
        count_ok(outs) == flat(assemble_tree(replies, outs)->Some_0).len(),
{
    lemma_all_ok_count(outs);
    lemma_size_matches_flatten(text, replies, outs);
}

} // verus!
