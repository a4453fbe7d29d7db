use vstd::prelude::*;
use crate::classify::Analysis;
use crate::schema::{
    attitude_agreement, attitude_at, attitude_index, attitude_positivity, lemma_attitude_index,
    lemma_subject_index, subject_at, subject_index, Attitude, Subject, SCORE_SCALE, WEIGHT_SCALE,
};
use crate::tree::{
    assemble_replies, assemble_tree, capped, replies_texts, tree_texts, tree_views, AnalysisTree,
    Comment, Outcome, SubmissionAnalysis,
};

verus! {

/// The analyses of a classified tree, each node after the nodes under it.
pub open spec fn flat(t: AnalysisTree) -> Seq<Analysis>
    decreases t, 1nat,
{
    flat_all(t.children) + seq![t.analysis]
}

/// The analyses of a sequence of classified trees, tree after tree.
pub open spec fn flat_all(ts: Seq<AnalysisTree>) -> Seq<Analysis>
    decreases ts, 0nat,
{
    if ts.len() == 0 {
        Seq::empty()
    } else {
        flat_all(ts.drop_last()) + flat(ts.last())
    }
}

proof fn lemma_view_children(t: &SubmissionAnalysis)
    ensures
        t@.children == tree_views(t.children@),
        t@.analysis == t.analysis,
{
    assert(t@.children =~= tree_views(t.children@));
}

/// Appends the analyses of `t`, each node after the nodes under it.
fn flatten_into(t: &SubmissionAnalysis, out: &mut Vec<Analysis>)
    ensures
        final(out)@ == old(out)@ + flat(t@),
    decreases t,
{
    let ghost start = out@;
    proof {
        lemma_view_children(t);
    }
    let mut i: usize = 0;
    assert(tree_views(t.children@).subrange(0, 0) =~= Seq::<AnalysisTree>::empty());
    assert(out@ =~= start + flat_all(tree_views(t.children@).subrange(0, 0)));
    while i < t.children.len()
        invariant
            0 <= i <= t.children@.len(),
            t@.children == tree_views(t.children@),
            out@ == start + flat_all(tree_views(t.children@).subrange(0, i as int)),
        decreases t.children@.len() - i,
    {
        let ghost views = tree_views(t.children@);
        proof {
            assert(views.subrange(0, i + 1).drop_last() =~= views.subrange(0, i as int));
            assert(views.subrange(0, i + 1).last() == t.children@[i as int]@);
            assert(decreases_to!(t => t.children));
        }
        flatten_into(&t.children[i], out);
        i = i + 1;
    }
    assert(tree_views(t.children@).subrange(0, i as int) =~= t@.children);
    out.push(t.analysis);
    assert(out@ =~= start + flat(t@));
}

/// The analyses of a forest of classified trees, tree after tree, each node
/// after the nodes under it.
pub fn flatten_forest(forest: &Vec<SubmissionAnalysis>) -> (r: Vec<Analysis>)
    ensures
        r@ == flat_all(tree_views(forest@)),
{
    let mut out: Vec<Analysis> = Vec::new();
    let mut i: usize = 0;
    assert(tree_views(forest@).subrange(0, 0) =~= Seq::<AnalysisTree>::empty());
    while i < forest.len()
        invariant
            0 <= i <= forest@.len(),
            out@ == flat_all(tree_views(forest@).subrange(0, i as int)),
        decreases forest@.len() - i,
    {
        let ghost views = tree_views(forest@);
        proof {
            assert(views.subrange(0, i + 1).drop_last() =~= views.subrange(0, i as int));
            assert(views.subrange(0, i + 1).last() == forest@[i as int]@);
        }
        flatten_into(&forest[i], &mut out);
        i = i + 1;
    }
    assert(tree_views(forest@).subrange(0, i as int) =~= tree_views(forest@));
    out
}

impl SubmissionAnalysis {
    /// The analyses of this tree, each node after the nodes under it.
    pub fn flatten(&self) -> (r: Vec<Analysis>)
        ensures
            r@ == flat(self@),
    {
        let mut out: Vec<Analysis> = Vec::new();
        flatten_into(self, &mut out);
        assert(out@ =~= flat(self@));
        out
    }
}

proof fn lemma_flat_all_push(ts: Seq<AnalysisTree>, t: AnalysisTree)
    ensures
        flat_all(ts.push(t)) == flat_all(ts) + flat(t),
{
    assert(ts.push(t).drop_last() =~= ts);
}

proof fn lemma_all_ok_tree(replies: Seq<Comment>, outs: Seq<Outcome>)
    requires
        outs.len() == 1 + replies_texts(replies).len(),
        forall|i: int| 0 <= i < outs.len() ==> (#[trigger] outs[i]) is Ok,
    ensures
        assemble_tree(replies, outs) is Some,
        flat(assemble_tree(replies, outs)->Some_0).len() == outs.len(),
    decreases replies, 1nat,
{
    let rest = outs.subrange(1, outs.len() as int);
    assert(outs[0] is Ok);
    lemma_all_ok_replies(replies, rest);
}

proof fn lemma_all_ok_replies(replies: Seq<Comment>, outs: Seq<Outcome>)
    requires
        outs.len() == replies_texts(replies).len(),
        forall|i: int| 0 <= i < outs.len() ==> (#[trigger] outs[i]) is Ok,
    ensures
        flat_all(assemble_replies(replies, outs)).len() == outs.len(),
    decreases replies, 0nat,
{
    if replies.len() > 0 {
        let front = replies.drop_last();
        let k = replies_texts(front).len() as int;
        let last = replies.last();
        let head = outs.subrange(0, k);
        let tail = outs.subrange(k, outs.len() as int);
        lemma_all_ok_replies(front, head);
        if last.body@.len() > 0 {
            assert(tree_texts(last.body@, last.comments@) == seq![last.body@] + replies_texts(last.comments@));
            lemma_all_ok_tree(last.comments@, tail);
            lemma_flat_all_push(assemble_replies(front, head), assemble_tree(last.comments@, tail)->Some_0);
        }
    }
}

/// Where every kept node of a tree was classified, the result tree holds
/// exactly as many analyses as the tree has kept nodes: `size` of the tree
/// equals the length of `flatten` of its analysis.
pub proof fn lemma_size_matches_flatten(text: Seq<char>, replies: Seq<Comment>, outs: Seq<Outcome>)
    requires
        outs.len() == tree_texts(text, replies).len(),
        forall|i: int| 0 <= i < outs.len() ==> (#[trigger] outs[i]) is Ok,
    ensures
        assemble_tree(replies, outs) is Some,
        flat(assemble_tree(replies, outs)->Some_0).len() == tree_texts(text, replies).len(),
{
    lemma_all_ok_tree(replies, outs);
}

/// An exact non-negative fraction `numer / denom`.
#[derive(Clone, Copy, Debug, PartialEq, Eq, Structural)]
pub struct Ratio {
    pub numer: u128,
    pub denom: u128,
}

/// Sum over the roots of `ch` of positivity times attitude confidence.
pub open spec fn positivity_sum(ch: Seq<AnalysisTree>) -> nat
    decreases ch.len(),
{
    if ch.len() == 0 {
        0
    } else {
        let a = ch.last().analysis;
        positivity_sum(ch.drop_last()) + (attitude_positivity(a.attitude) * a.attitude_confidence) as nat
    }
}

/// Sum over the roots of `ch` of agreement times attitude confidence.
pub open spec fn agreement_sum(ch: Seq<AnalysisTree>) -> nat
    decreases ch.len(),
{
    if ch.len() == 0 {
        0
    } else {
        let a = ch.last().analysis;
        agreement_sum(ch.drop_last()) + (attitude_agreement(a.attitude) * a.attitude_confidence) as nat
    }
}

/// How many roots of `ch` agree: their agreement is above one half.
pub open spec fn agreeing(ch: Seq<AnalysisTree>) -> nat
    decreases ch.len(),
{
    if ch.len() == 0 {
        0
    } else {
        agreeing(ch.drop_last()) + if attitude_agreement(ch.last().analysis.attitude) > 50 {
            1nat
        } else {
            0nat
        }
    }
}

/// How many roots of `ch` disagree: their agreement is below one half.
pub open spec fn disagreeing(ch: Seq<AnalysisTree>) -> nat
    decreases ch.len(),
{
    if ch.len() == 0 {
        0
    } else {
        disagreeing(ch.drop_last()) + if attitude_agreement(ch.last().analysis.attitude) < 50 {
            1nat
        } else {
            0nat
        }
    }
}

/// The largest weight times the largest confidence.
pub open spec fn max_weighted() -> nat {
    (100 * u32::MAX) as nat
}

impl SubmissionAnalysis {
    /// The number of nodes of this tree, up to `usize::MAX`.
    pub fn size(&self) -> (r: usize)
        ensures
            r == capped(flat(self@).len()),
        decreases self,
    {
        proof {
            lemma_view_children(self);
        }
        let mut total: usize = 0;
        let mut i: usize = 0;
        while i < self.children.len()
            invariant
                0 <= i <= self.children@.len(),
                self@.children == tree_views(self.children@),
                total == capped(flat_all(tree_views(self.children@).subrange(0, i as int)).len()),
            decreases self.children@.len() - i,
        {
            let ghost views = tree_views(self.children@);
            proof {
                assert(views.subrange(0, i + 1).drop_last() =~= views.subrange(0, i as int));
                assert(views.subrange(0, i + 1).last() == self.children@[i as int]@);
                assert(decreases_to!(self => self.children));
            }
            let below = self.children[i].size();
            total = total.saturating_add(below);
            i = i + 1;
        }
        assert(tree_views(self.children@).subrange(0, i as int) =~= self@.children);
        total.saturating_add(1)
    }

    /// How positive the replies are: the mean over the children of
    /// positivity times attitude confidence, as a fraction of one.
    pub fn reply_positivity(&self) -> (r: Ratio)
        requires
            self.children@.len() > 0,
        ensures
            r.numer == positivity_sum(self@.children),
            r.denom == self.children@.len() * WEIGHT_SCALE * SCORE_SCALE,
    {
        proof {
            lemma_view_children(self);
        }
        let mut sum: u128 = 0;
        let mut i: usize = 0;
        while i < self.children.len()
            invariant
                0 <= i <= self.children@.len(),
                self@.children == tree_views(self.children@),
                sum == positivity_sum(tree_views(self.children@).subrange(0, i as int)),
                sum <= i * max_weighted(),
            decreases self.children@.len() - i,
        {
            let ghost views = tree_views(self.children@);
            let a = self.children[i].analysis;
            proof {
                assert(views.subrange(0, i + 1).drop_last() =~= views.subrange(0, i as int));
                assert(views.subrange(0, i + 1).last().analysis == a);
            }
            let p = a.attitude.positivity();
            let term: u128 = (p as u128) * (a.attitude_confidence as u128);
            assert(term <= max_weighted()) by (nonlinear_arith)
                requires
                    term == p * a.attitude_confidence,
                    p <= 100,
                    a.attitude_confidence <= u32::MAX,
            ;
            assert((i + 1) * max_weighted() == i * max_weighted() + max_weighted()) by (nonlinear_arith);
            assert((i + 1) * max_weighted() <= 0x1_0000_0000_0000_0000 * max_weighted()) by (nonlinear_arith)
                requires
                    i < 0x1_0000_0000_0000_0000,
            ;
            sum = sum + term;
            i = i + 1;
        }
        assert(tree_views(self.children@).subrange(0, i as int) =~= self@.children);
        let n = self.children.len() as u128;
        Ratio { numer: sum, denom: n * (WEIGHT_SCALE as u128) * (SCORE_SCALE as u128) }
    }

    /// How much the replies agree: the mean over the children of agreement
    /// times attitude confidence, as a fraction of one.
    pub fn reply_agreement(&self) -> (r: Ratio)
        requires
            self.children@.len() > 0,
        ensures
            r.numer == agreement_sum(self@.children),
            r.denom == self.children@.len() * WEIGHT_SCALE * SCORE_SCALE,
    {
        proof {
            lemma_view_children(self);
        }
        let mut sum: u128 = 0;
        let mut i: usize = 0;
        while i < self.children.len()
            invariant
                0 <= i <= self.children@.len(),
                self@.children == tree_views(self.children@),
                sum == agreement_sum(tree_views(self.children@).subrange(0, i as int)),
                sum <= i * max_weighted(),
            decreases self.children@.len() - i,
        {
            let ghost views = tree_views(self.children@);
            let a = self.children[i].analysis;
            proof {
                assert(views.subrange(0, i + 1).drop_last() =~= views.subrange(0, i as int));
                assert(views.subrange(0, i + 1).last().analysis == a);
            }
            let w = a.attitude.agreement();
            let term: u128 = (w as u128) * (a.attitude_confidence as u128);
            assert(term <= max_weighted()) by (nonlinear_arith)
                requires
                    term == w * a.attitude_confidence,
                    w <= 100,
                    a.attitude_confidence <= u32::MAX,
            ;
            assert((i + 1) * max_weighted() == i * max_weighted() + max_weighted()) by (nonlinear_arith);
            assert((i + 1) * max_weighted() <= 0x1_0000_0000_0000_0000 * max_weighted()) by (nonlinear_arith)
                requires
                    i < 0x1_0000_0000_0000_0000,
            ;
            sum = sum + term;
            i = i + 1;
        }
        assert(tree_views(self.children@).subrange(0, i as int) =~= self@.children);
        let n = self.children.len() as u128;
        Ratio { numer: sum, denom: n * (WEIGHT_SCALE as u128) * (SCORE_SCALE as u128) }
    }

    /// How evenly the replies split between agreeing (agreement above one
    /// half) and disagreeing (below one half): 1 for a perfect split, 0 where
    /// all of them take one side, and 0 where none takes a side.
    pub fn divisiveness(&self) -> (r: Ratio)
        ensures
            ({
                let agree = agreeing(self@.children) as int;
                let disagree = disagreeing(self@.children) as int;
                if agree + disagree == 0 {
                    r == Ratio { numer: 0, denom: 1 }
                } else {
                    &&& r.denom == agree + disagree
                    &&& r.numer == agree + disagree - if agree >= disagree {
                        agree - disagree
                    } else {
                        disagree - agree
                    }
                }
            }),
    {
        proof {
            lemma_view_children(self);
        }
        let mut agree: usize = 0;
        let mut disagree: usize = 0;
        let mut i: usize = 0;
        while i < self.children.len()
            invariant
                0 <= i <= self.children@.len(),
                self@.children == tree_views(self.children@),
                agree == agreeing(tree_views(self.children@).subrange(0, i as int)),
                disagree == disagreeing(tree_views(self.children@).subrange(0, i as int)),
                agree + disagree <= i,
            decreases self.children@.len() - i,
        {
            let ghost views = tree_views(self.children@);
            let a = self.children[i].analysis;
            proof {
                assert(views.subrange(0, i + 1).drop_last() =~= views.subrange(0, i as int));
                assert(views.subrange(0, i + 1).last().analysis == a);
            }
            let w = a.attitude.agreement();
            if w > 50 {
                agree = agree + 1;
            } else if w < 50 {
                disagree = disagree + 1;
            }
            i = i + 1;
        }
        assert(tree_views(self.children@).subrange(0, i as int) =~= self@.children);
        let total = agree + disagree;
        if total == 0 {
            Ratio { numer: 0, denom: 1 }
        } else {
            let gap = if agree >= disagree {
                agree - disagree
            } else {
                disagree - agree
            };
            Ratio { numer: (total - gap) as u128, denom: total as u128 }
        }
    }
}

/// How many roots of `ch` have attitude `a`.
pub open spec fn attitude_count(ch: Seq<AnalysisTree>, a: Attitude) -> nat
    decreases ch.len(),
{
    if ch.len() == 0 {
        0
    } else {
        attitude_count(ch.drop_last(), a) + if ch.last().analysis.attitude == a {
            1nat
        } else {
            0nat
        }
    }
}

/// The summed attitude confidence of the roots of `ch` with attitude `a`.
pub open spec fn attitude_total(ch: Seq<AnalysisTree>, a: Attitude) -> nat
    decreases ch.len(),
{
    if ch.len() == 0 {
        0
    } else {
        attitude_total(ch.drop_last(), a) + if ch.last().analysis.attitude == a {
            ch.last().analysis.attitude_confidence as nat
        } else {
            0nat
        }
    }
}

/// How many roots of `ch` have subject `s`.
pub open spec fn subject_count(ch: Seq<AnalysisTree>, s: Subject) -> nat
    decreases ch.len(),
{
    if ch.len() == 0 {
        0
    } else {
        subject_count(ch.drop_last(), s) + if ch.last().analysis.subject == s {
            1nat
        } else {
            0nat
        }
    }
}

/// The summed subject confidence of the roots of `ch` with subject `s`.
pub open spec fn subject_total(ch: Seq<AnalysisTree>, s: Subject) -> nat
    decreases ch.len(),
{
    if ch.len() == 0 {
        0
    } else {
        subject_total(ch.drop_last(), s) + if ch.last().analysis.subject == s {
            ch.last().analysis.subject_confidence as nat
        } else {
            0nat
        }
    }
}

/// `a` is the consensus attitude of `ch`: a non-fallback attitude that some
/// root has, whose summed confidence no other such attitude exceeds, and the
/// last in declaration order among those with an equal sum.
pub open spec fn is_consensus_attitude(ch: Seq<AnalysisTree>, a: Attitude) -> bool {
    &&& a != Attitude::Neutral
    &&& attitude_count(ch, a) > 0
    &&& forall|b: Attitude|
        b != Attitude::Neutral && #[trigger] attitude_count(ch, b) > 0 ==> attitude_total(ch, b) < attitude_total(ch, a) || (
        attitude_total(ch, b) == attitude_total(ch, a) && attitude_index(b) <= attitude_index(a))
}

/// `s` is the consensus subject of `ch`: a non-fallback subject that some
/// root has, whose summed confidence no other such subject exceeds, and the
/// last in declaration order among those with an equal sum.
pub open spec fn is_consensus_subject(ch: Seq<AnalysisTree>, s: Subject) -> bool {
    &&& s != Subject::Other
    &&& subject_count(ch, s) > 0
    &&& forall|t: Subject|
        t != Subject::Other && #[trigger] subject_count(ch, t) > 0 ==> subject_total(ch, t) < subject_total(ch, s) || (
        subject_total(ch, t) == subject_total(ch, s) && subject_index(t) <= subject_index(s))
}

/// Position `b` below `limit` is counted, and no counted position below
/// `limit` has a greater total, nor an equal one after `b`.
pub open spec fn greatest_at(totals: Seq<u128>, counts: Seq<usize>, limit: int, b: int) -> bool {
    &&& 0 <= b < limit
    &&& counts[b] > 0
    &&& forall|j: int|
        0 <= j < limit && #[trigger] counts[j] > 0 ==> totals[j] < totals[b] || (totals[j] == totals[b] && j <= b)
}

/// The counted position below `limit` with the greatest total, the last
/// among equal totals; `None` where no position below `limit` is counted.
fn pick_greatest(totals: &Vec<u128>, counts: &Vec<usize>, limit: usize) -> (r: Option<usize>)
    requires
        limit <= totals@.len(),
        limit <= counts@.len(),
    ensures
        r is None <==> forall|j: int| 0 <= j < limit ==> counts@[j] == 0,
        r matches Some(b) ==> greatest_at(totals@, counts@, limit as int, b as int),
{
    let mut best: usize = 0;
    let mut found = false;
    let mut k: usize = 0;
    while k < limit
        invariant
            k <= limit,
            limit <= totals@.len(),
            limit <= counts@.len(),
            !found <==> forall|j: int| 0 <= j < k ==> counts@[j] == 0,
            found ==> greatest_at(totals@, counts@, k as int, best as int),
        decreases limit - k,
    {
        if counts[k] > 0 && (!found || totals[k] >= totals[best]) {
            best = k;
            found = true;
        }
        k = k + 1;
    }
    if found {
        Some(best)
    } else {
        None
    }
}

/// Per attitude, in declaration order: the summed confidence and the number
/// of the roots of `children` with that attitude.
fn attitude_tallies(children: &Vec<SubmissionAnalysis>) -> (r: (Vec<u128>, Vec<usize>))
    ensures
        r.0@.len() == 9,
        r.1@.len() == 9,
        forall|k: int| 0 <= k < 9 ==> #[trigger] r.0@[k] == attitude_total(tree_views(children@), attitude_at(k)),
        forall|k: int| 0 <= k < 9 ==> #[trigger] r.1@[k] == attitude_count(tree_views(children@), attitude_at(k)),
        forall|k: int| 0 <= k < 9 ==> #[trigger] r.0@[k] <= children@.len() * u32::MAX,
{
    let mut totals: Vec<u128> = vec![0, 0, 0, 0, 0, 0, 0, 0, 0];
    let mut counts: Vec<usize> = vec![0, 0, 0, 0, 0, 0, 0, 0, 0];
    let mut i: usize = 0;
    while i < children.len()
        invariant
            0 <= i <= children@.len(),
            totals@.len() == 9,
            counts@.len() == 9,
            forall|k: int| 0 <= k < 9 ==> #[trigger] totals@[k] == attitude_total(tree_views(children@).subrange(0, i as int), attitude_at(k)),
            forall|k: int| 0 <= k < 9 ==> #[trigger] counts@[k] == attitude_count(tree_views(children@).subrange(0, i as int), attitude_at(k)),
            forall|k: int| 0 <= k < 9 ==> #[trigger] totals@[k] <= i * u32::MAX,
            forall|k: int| 0 <= k < 9 ==> #[trigger] counts@[k] <= i,
        decreases children@.len() - i,
    {
        let ghost views = tree_views(children@);
        let ghost prefix = views.subrange(0, i as int);
        let ghost next = views.subrange(0, i + 1);
        let a = children[i].analysis;
        proof {
            assert(next.drop_last() =~= prefix);
            assert(next.last().analysis == a);
            lemma_attitude_index(a.attitude);
            assert((i + 1) * u32::MAX == i * u32::MAX + u32::MAX) by (nonlinear_arith);
            assert(i * u32::MAX <= 0x1_0000_0000_0000_0000 * u32::MAX) by (nonlinear_arith)
                requires
                    i < 0x1_0000_0000_0000_0000,
            ;
        }
        let at = a.attitude.index();
        let t = totals[at] + a.attitude_confidence as u128;
        totals.set(at, t);
        let c = counts[at] + 1;
        counts.set(at, c);
        i = i + 1;
    }
    assert(tree_views(children@).subrange(0, i as int) =~= tree_views(children@));
    (totals, counts)
}

/// Per subject, in declaration order: the summed confidence and the number
/// of the roots of `children` with that subject.
fn subject_tallies(children: &Vec<SubmissionAnalysis>) -> (r: (Vec<u128>, Vec<usize>))
    ensures
        r.0@.len() == 13,
        r.1@.len() == 13,
        forall|k: int| 0 <= k < 13 ==> #[trigger] r.0@[k] == subject_total(tree_views(children@), subject_at(k)),
        forall|k: int| 0 <= k < 13 ==> #[trigger] r.1@[k] == subject_count(tree_views(children@), subject_at(k)),
        forall|k: int| 0 <= k < 13 ==> #[trigger] r.0@[k] <= children@.len() * u32::MAX,
{
    let mut totals: Vec<u128> = vec![0, 0, 0, 0, 0, 0, 0, 0, 0, 0, 0, 0, 0];
    let mut counts: Vec<usize> = vec![0, 0, 0, 0, 0, 0, 0, 0, 0, 0, 0, 0, 0];
    let mut i: usize = 0;
    while i < children.len()
        invariant
            0 <= i <= children@.len(),
            totals@.len() == 13,
            counts@.len() == 13,
            forall|k: int| 0 <= k < 13 ==> #[trigger] totals@[k] == subject_total(tree_views(children@).subrange(0, i as int), subject_at(k)),
            forall|k: int| 0 <= k < 13 ==> #[trigger] counts@[k] == subject_count(tree_views(children@).subrange(0, i as int), subject_at(k)),
            forall|k: int| 0 <= k < 13 ==> #[trigger] totals@[k] <= i * u32::MAX,
            forall|k: int| 0 <= k < 13 ==> #[trigger] counts@[k] <= i,
        decreases children@.len() - i,
    {
        let ghost views = tree_views(children@);
        let ghost prefix = views.subrange(0, i as int);
        let ghost next = views.subrange(0, i + 1);
        let a = children[i].analysis;
        proof {
            assert(next.drop_last() =~= prefix);
            assert(next.last().analysis == a);
            lemma_subject_index(a.subject);
            assert((i + 1) * u32::MAX == i * u32::MAX + u32::MAX) by (nonlinear_arith);
            assert(i * u32::MAX <= 0x1_0000_0000_0000_0000 * u32::MAX) by (nonlinear_arith)
                requires
                    i < 0x1_0000_0000_0000_0000,
            ;
        }
        let at = a.subject.index();
        let t = totals[at] + a.subject_confidence as u128;
        totals.set(at, t);
        let c = counts[at] + 1;
        counts.set(at, c);
        i = i + 1;
    }
    assert(tree_views(children@).subrange(0, i as int) =~= tree_views(children@));
    (totals, counts)
}

fn mean_confidence(total: u128, n: usize) -> (r: u32)
    requires
        n > 0,
        total <= n * u32::MAX,
    ensures
        r == (total as nat) / (n as nat),
{
    assert((total as nat) / (n as nat) <= u32::MAX) by (nonlinear_arith)
        requires
            n > 0,
            total <= n * u32::MAX,
    ;
    (total / (n as u128)) as u32
}

impl SubmissionAnalysis {
    /// The consensus of the replies: for each schema, the non-fallback
    /// category whose summed confidence over the children is greatest (the
    /// last in declaration order among equal sums), with that sum divided by
    /// the number of children; the fallback with confidence 0 where no child
    /// has a non-fallback category.
    pub fn average_reply(&self) -> (r: Analysis)
        ensures
            (forall|b: Attitude| b != Attitude::Neutral ==> #[trigger] attitude_count(self@.children, b) == 0) ==> (r.attitude
                == Attitude::Neutral && r.attitude_confidence == 0),
            (exists|b: Attitude| b != Attitude::Neutral && #[trigger] attitude_count(self@.children, b) > 0) ==> (is_consensus_attitude(
                self@.children,
                r.attitude,
            ) && r.attitude_confidence == attitude_total(self@.children, r.attitude) / self@.children.len()),
            (forall|t: Subject| t != Subject::Other ==> #[trigger] subject_count(self@.children, t) == 0) ==> (r.subject
                == Subject::Other && r.subject_confidence == 0),
            (exists|t: Subject| t != Subject::Other && #[trigger] subject_count(self@.children, t) > 0) ==> (is_consensus_subject(
                self@.children,
                r.subject,
            ) && r.subject_confidence == subject_total(self@.children, r.subject) / self@.children.len()),
    {
        proof {
            lemma_view_children(self);
        }
        let ghost ch = self@.children;
        let n = self.children.len();
        let (a_totals, a_counts) = attitude_tallies(&self.children);
        let (s_totals, s_counts) = subject_tallies(&self.children);
        let picked_attitude = pick_greatest(&a_totals, &a_counts, 8);
        let picked_subject = pick_greatest(&s_totals, &s_counts, 12);
        let (attitude, attitude_confidence) = match picked_attitude {
            Some(b) => {
                let conf = mean_confidence(a_totals[b], n);
                (Attitude::at(b), conf)
            },
            None => (Attitude::Neutral, 0),
        };
        let (subject, subject_confidence) = match picked_subject {
            Some(b) => {
                let conf = mean_confidence(s_totals[b], n);
                (Subject::at(b), conf)
            },
            None => (Subject::Other, 0),
        };
        proof {
            assert forall|b: Attitude| b != Attitude::Neutral implies #[trigger] attitude_count(ch, b) == a_counts@[attitude_index(b) as int]
                && attitude_total(ch, b) == a_totals@[attitude_index(b) as int] && attitude_index(b) < 8 by {
                lemma_attitude_index(b);
            }
            assert forall|t: Subject| t != Subject::Other implies #[trigger] subject_count(ch, t) == s_counts@[subject_index(t) as int]
                && subject_total(ch, t) == s_totals@[subject_index(t) as int] && subject_index(t) < 12 by {
                lemma_subject_index(t);
            }
            lemma_attitude_index(attitude);
            lemma_subject_index(subject);
            if picked_attitude is None {
                assert forall|b: Attitude| b != Attitude::Neutral implies #[trigger] attitude_count(ch, b) == 0 by {
                    assert(a_counts@[attitude_index(b) as int] == 0);
                }
            }
            if picked_subject is None {
                assert forall|t: Subject| t != Subject::Other implies #[trigger] subject_count(ch, t) == 0 by {
                    assert(s_counts@[subject_index(t) as int] == 0);
                }
            }
        }
        Analysis { attitude, attitude_confidence, subject, subject_confidence }
    }
}

} // verus!
