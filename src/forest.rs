use vstd::prelude::*;
use crate::aggregate::{flat, flat_all, flatten_forest, Ratio};
use crate::classify::Analysis;
use crate::schema::{
    attitude_agreement, attitude_at, attitude_index, attitude_positivity, lemma_attitude_index,
    lemma_subject_index, subject_at, subject_index, Attitude, Subject,
};
use crate::tree::{tree_views, AnalysisTree, SubmissionAnalysis, Subreddit};

verus! {

/// A property of one analysis that statistics count.
#[derive(Clone, Copy, Debug, PartialEq, Eq, Structural)]
pub enum Criterion {
    /// Positivity above one half.
    Positive,
    /// Negativity above one half.
    Negative,
    /// Agreement above one half.
    Agreeing,
    /// One minus agreement above one half.
    Disagreeing,
    /// A mocking attitude or a joke for subject.
    Humorous,
    /// This subject.
    WithSubject(Subject),
    /// This attitude.
    WithAttitude(Attitude),
    /// This subject together with this attitude.
    WithPair(Subject, Attitude),
}

/// Whether analysis `a` meets criterion `c`.
pub open spec fn meets(c: Criterion, a: Analysis) -> bool {
    match c {
        Criterion::Positive => attitude_positivity(a.attitude) > 50,
        Criterion::Negative => 100 - attitude_positivity(a.attitude) > 50,
        Criterion::Agreeing => attitude_agreement(a.attitude) > 50,
        Criterion::Disagreeing => 100 - attitude_agreement(a.attitude) > 50,
        Criterion::Humorous => a.attitude == Attitude::Mocking || a.subject == Subject::Joke,
        Criterion::WithSubject(s) => a.subject == s,
        Criterion::WithAttitude(t) => a.attitude == t,
        Criterion::WithPair(s, t) => a.subject == s && a.attitude == t,
    }
}

/// How many analyses of `s` meet criterion `c`.
pub open spec fn count_meeting(s: Seq<Analysis>, c: Criterion) -> nat
    decreases s.len(),
{
    if s.len() == 0 {
        0
    } else {
        count_meeting(s.drop_last(), c) + if meets(c, s.last()) {
            1nat
        } else {
            0nat
        }
    }
}

impl Criterion {
    /// Whether analysis `a` meets this criterion.
    pub fn holds(&self, a: &Analysis) -> (r: bool)
        ensures
            r == meets(*self, *a),
    {
        match self {
            Criterion::Positive => a.attitude.positivity() > 50,
            Criterion::Negative => a.attitude.negativity() > 50,
            Criterion::Agreeing => a.attitude.agreement() > 50,
            Criterion::Disagreeing => 100 - a.attitude.agreement() > 50,
            Criterion::Humorous => a.attitude == Attitude::Mocking || a.subject == Subject::Joke,
            Criterion::WithSubject(s) => a.subject == *s,
            Criterion::WithAttitude(t) => a.attitude == *t,
            Criterion::WithPair(s, t) => a.subject == *s && a.attitude == *t,
        }
    }
}

proof fn lemma_count_bounded(s: Seq<Analysis>, c: Criterion)
    ensures
        count_meeting(s, c) <= s.len(),
    decreases s.len(),
{
    if s.len() > 0 {
        lemma_count_bounded(s.drop_last(), c);
    }
}

/// How many analyses of `v` meet criterion `c`.
pub fn count_matching(v: &Vec<Analysis>, c: Criterion) -> (r: usize)
    ensures
        r == count_meeting(v@, c),
{
    let mut n: usize = 0;
    let mut i: usize = 0;
    while i < v.len()
        invariant
            0 <= i <= v@.len(),
            n == count_meeting(v@.subrange(0, i as int), c),
        decreases v@.len() - i,
    {
        proof {
            assert(v@.subrange(0, i + 1).drop_last() =~= v@.subrange(0, i as int));
            lemma_count_bounded(v@.subrange(0, i as int), c);
        }
        if c.holds(&v[i]) {
            n = n + 1;
        }
        i = i + 1;
    }
    assert(v@.subrange(0, i as int) =~= v@);
    n
}

/// A subreddit together with the classified reply trees of its posts.
#[derive(Debug)]
pub struct SubredditData {
    pub subreddit: Subreddit,
    pub analysis: Vec<SubmissionAnalysis>,
}

/// The analyses of every node of a forest of classified trees.
pub open spec fn forest_analyses(forest: Seq<SubmissionAnalysis>) -> Seq<Analysis> {
    flat_all(tree_views(forest))
}

impl SubredditData {
    /// The number of classified nodes over all trees.
    pub fn total_comments(&self) -> (r: usize)
        ensures
            r == forest_analyses(self.analysis@).len(),
    {
        flatten_forest(&self.analysis).len()
    }

    /// The number of nodes whose positivity is above one half.
    pub fn total_positive_comments(&self) -> (r: usize)
        ensures
            r == count_meeting(forest_analyses(self.analysis@), Criterion::Positive),
    {
        count_matching(&flatten_forest(&self.analysis), Criterion::Positive)
    }

    /// The number of nodes whose negativity is above one half.
    pub fn total_negative_comments(&self) -> (r: usize)
        ensures
            r == count_meeting(forest_analyses(self.analysis@), Criterion::Negative),
    {
        count_matching(&flatten_forest(&self.analysis), Criterion::Negative)
    }

    /// The number of nodes whose agreement is above one half.
    pub fn total_agreeability(&self) -> (r: usize)
        ensures
            r == count_meeting(forest_analyses(self.analysis@), Criterion::Agreeing),
    {
        count_matching(&flatten_forest(&self.analysis), Criterion::Agreeing)
    }

    /// The number of nodes whose agreement is below one half.
    pub fn total_disagreeability(&self) -> (r: usize)
        ensures
            r == count_meeting(forest_analyses(self.analysis@), Criterion::Disagreeing),
    {
        count_matching(&flatten_forest(&self.analysis), Criterion::Disagreeing)
    }

    /// How evenly all nodes split between agreeing and disagreeing: one minus
    /// the gap between the two counts over their sum; `None` where no node
    /// takes a side, as the quotient is then undefined.
    pub fn total_divisiveness(&self) -> (r: Option<Ratio>)
        ensures
            ({
                let agree = count_meeting(forest_analyses(self.analysis@), Criterion::Agreeing) as int;
                let disagree = count_meeting(forest_analyses(self.analysis@), Criterion::Disagreeing) as int;
                if agree + disagree == 0 {
                    r is None
                } else {
                    &&& r matches Some(q)
                    &&& q.denom == agree + disagree
                    &&& q.numer == agree + disagree - if agree >= disagree {
                        agree - disagree
                    } else {
                        disagree - agree
                    }
                }
            }),
    {
        let all = flatten_forest(&self.analysis);
        let agree = count_matching(&all, Criterion::Agreeing);
        let disagree = count_matching(&all, Criterion::Disagreeing);
        let total = agree as u128 + disagree as u128;
        if total == 0 {
            None
        } else {
            let gap: u128 = if agree >= disagree {
                (agree - disagree) as u128
            } else {
                (disagree - agree) as u128
            };
            Some(Ratio { numer: total - gap, denom: total })
        }
    }

    /// The number of nodes that mock or whose subject is a joke.
    pub fn total_jokes(&self) -> (r: usize)
        ensures
            r == count_meeting(forest_analyses(self.analysis@), Criterion::Humorous),
    {
        count_matching(&flatten_forest(&self.analysis), Criterion::Humorous)
    }

    /// For each subject, in declaration order, the number of nodes with it;
    /// subjects no node has count 0.
    pub fn subject_distribution(&self) -> (r: Vec<usize>)
        ensures
            r@.len() == 13,
            forall|s: Subject| #[trigger] r@[subject_index(s) as int] == count_meeting(forest_analyses(self.analysis@), Criterion::WithSubject(s)),
    {
        let all = flatten_forest(&self.analysis);
        let mut r: Vec<usize> = Vec::new();
        let mut k: usize = 0;
        while k < 13
            invariant
                k <= 13,
                r@.len() == k,
                all@ == forest_analyses(self.analysis@),
                forall|j: int| 0 <= j < k ==> #[trigger] r@[j] == count_meeting(all@, Criterion::WithSubject(subject_at(j))),
            decreases 13 - k,
        {
            let s = Subject::at(k);
            r.push(count_matching(&all, Criterion::WithSubject(s)));
            k = k + 1;
        }
        proof {
            assert forall|s: Subject| #[trigger] r@[subject_index(s) as int] == count_meeting(all@, Criterion::WithSubject(s)) by {
                lemma_subject_index(s);
            }
        }
        r
    }

    /// For each attitude, in declaration order, the number of nodes with it;
    /// attitudes no node has count 0.
    pub fn attitude_distribution(&self) -> (r: Vec<usize>)
        ensures
            r@.len() == 9,
            forall|a: Attitude| #[trigger] r@[attitude_index(a) as int] == count_meeting(forest_analyses(self.analysis@), Criterion::WithAttitude(a)),
    {
        let all = flatten_forest(&self.analysis);
        let mut r: Vec<usize> = Vec::new();
        let mut k: usize = 0;
        while k < 9
            invariant
                k <= 9,
                r@.len() == k,
                all@ == forest_analyses(self.analysis@),
                forall|j: int| 0 <= j < k ==> #[trigger] r@[j] == count_meeting(all@, Criterion::WithAttitude(attitude_at(j))),
            decreases 9 - k,
        {
            let a = Attitude::at(k);
            r.push(count_matching(&all, Criterion::WithAttitude(a)));
            k = k + 1;
        }
        proof {
            assert forall|a: Attitude| #[trigger] r@[attitude_index(a) as int] == count_meeting(all@, Criterion::WithAttitude(a)) by {
                lemma_attitude_index(a);
            }
        }
        r
    }

    /// For each subject and, within it, each attitude, both in declaration
    /// order, the number of nodes with that pair; absent pairs count 0.
    pub fn attitude_per_subject_distribution(&self) -> (r: Vec<Vec<usize>>)
        ensures
            r@.len() == 13,
            forall|s: Subject| #[trigger] r@[subject_index(s) as int]@.len() == 9,
            forall|s: Subject, a: Attitude| #[trigger] r@[subject_index(s) as int]@[attitude_index(a) as int] == count_meeting(
                forest_analyses(self.analysis@),
                Criterion::WithPair(s, a),
            ),
    {
        let all = flatten_forest(&self.analysis);
        cross_tabulate(&all)
    }
}

/// The statistics of one subreddit that its charts show.
#[derive(Clone, Debug)]
pub struct Stats {
    pub subreddit_name: String,
    pub subscribers: u64,
    pub total_comments: usize,
    pub total_positive_comments: usize,
    pub total_negative_comments: usize,
    pub total_agreeability: usize,
    pub total_disagreeability: usize,
    pub divisiveness: Option<Ratio>,
    pub total_jokes: usize,
    pub subject_distribution: Vec<usize>,
    pub attitude_distribution: Vec<usize>,
    pub attitude_per_subject_distribution: Vec<Vec<usize>>,
}

impl Stats {
    /// The statistics of the subreddit named `subreddit_name`, from its data.
    pub fn new(subreddit_name: &str, data: &SubredditData) -> (r: Stats)
        ensures
            r.subreddit_name@ == subreddit_name@,
            r.subscribers == data.subreddit.subscribers,
            r.total_comments == forest_analyses(data.analysis@).len(),
            r.total_positive_comments == count_meeting(forest_analyses(data.analysis@), Criterion::Positive),
            r.total_negative_comments == count_meeting(forest_analyses(data.analysis@), Criterion::Negative),
            r.total_agreeability == count_meeting(forest_analyses(data.analysis@), Criterion::Agreeing),
            r.total_disagreeability == count_meeting(forest_analyses(data.analysis@), Criterion::Disagreeing),
            ({
                let agree = r.total_agreeability as int;
                let disagree = r.total_disagreeability as int;
                if agree + disagree == 0 {
                    r.divisiveness is None
                } else {
                    &&& r.divisiveness matches Some(q)
                    &&& q.denom == agree + disagree
                    &&& q.numer == agree + disagree - if agree >= disagree {
                        agree - disagree
                    } else {
                        disagree - agree
                    }
                }
            }),
            r.total_jokes == count_meeting(forest_analyses(data.analysis@), Criterion::Humorous),
            r.subject_distribution@.len() == 13,
            forall|s: Subject| #[trigger] r.subject_distribution@[subject_index(s) as int] == count_meeting(
                forest_analyses(data.analysis@),
                Criterion::WithSubject(s),
            ),
            r.attitude_distribution@.len() == 9,
            forall|a: Attitude| #[trigger] r.attitude_distribution@[attitude_index(a) as int] == count_meeting(
                forest_analyses(data.analysis@),
                Criterion::WithAttitude(a),
            ),
            r.attitude_per_subject_distribution@.len() == 13,
            forall|s: Subject| #[trigger] r.attitude_per_subject_distribution@[subject_index(s) as int]@.len() == 9,
            forall|s: Subject, a: Attitude| #[trigger] r.attitude_per_subject_distribution@[subject_index(s) as int]@[attitude_index(a) as int]
                == count_meeting(forest_analyses(data.analysis@), Criterion::WithPair(s, a)),
    {
        Stats {
            subreddit_name: subreddit_name.to_owned(),
            subscribers: data.subreddit.subscribers,
            total_comments: data.total_comments(),
            total_positive_comments: data.total_positive_comments(),
            total_negative_comments: data.total_negative_comments(),
            total_agreeability: data.total_agreeability(),
            total_disagreeability: data.total_disagreeability(),
            divisiveness: data.total_divisiveness(),
            total_jokes: data.total_jokes(),
            subject_distribution: data.subject_distribution(),
            attitude_distribution: data.attitude_distribution(),
            attitude_per_subject_distribution: data.attitude_per_subject_distribution(),
        }
    }
}

/// For each subject and each attitude, both in declaration order, the
/// number of analyses of `all` with that pair.
fn cross_tabulate(all: &Vec<Analysis>) -> (r: Vec<Vec<usize>>)
    ensures
        r@.len() == 13,
        forall|s: Subject| #[trigger] r@[subject_index(s) as int]@.len() == 9,
        forall|s: Subject, a: Attitude| #[trigger] r@[subject_index(s) as int]@[attitude_index(a) as int] == count_meeting(all@, Criterion::WithPair(s, a)),
{
    let mut r: Vec<Vec<usize>> = Vec::new();
    let mut k: usize = 0;
    while k < 13
        invariant
            k <= 13,
            r@.len() == k,
            forall|j: int| 0 <= j < k ==> (#[trigger] r@[j])@.len() == 9,
            forall|j: int, m: int| 0 <= j < k && 0 <= m < 9 ==> #[trigger] r@[j]@[m] == count_meeting(all@, Criterion::WithPair(subject_at(j), attitude_at(m))),
        decreases 13 - k,
    {
        let s = Subject::at(k);
        let mut row: Vec<usize> = Vec::new();
        let mut m: usize = 0;
        while m < 9
            invariant
                m <= 9,
                row@.len() == m,
                s == subject_at(k as int),
                forall|j: int| 0 <= j < m ==> #[trigger] row@[j] == count_meeting(all@, Criterion::WithPair(s, attitude_at(j))),
            decreases 9 - m,
        {
            let a = Attitude::at(m);
            row.push(count_matching(all, Criterion::WithPair(s, a)));
            m = m + 1;
        }
        r.push(row);
        k = k + 1;
    }
    proof {
        assert forall|s: Subject| #[trigger] r@[subject_index(s) as int]@.len() == 9 by {
            lemma_subject_index(s);
        }
        assert forall|s: Subject, a: Attitude| #[trigger] r@[subject_index(s) as int]@[attitude_index(a) as int] == count_meeting(all@, Criterion::WithPair(s, a)) by {
            lemma_subject_index(s);
            lemma_attitude_index(a);
        }
    }
    r
}

proof fn lemma_count_push(s: Seq<Analysis>, x: Analysis, c: Criterion)
    ensures
        count_meeting(s.push(x), c) == count_meeting(s, c) + if meets(c, x) {
            1nat
        } else {
            0nat
        },
{
    assert(s.push(x).drop_last() =~= s);
}

proof fn lemma_count_concat(s1: Seq<Analysis>, s2: Seq<Analysis>, c: Criterion)
    ensures
        count_meeting(s1 + s2, c) == count_meeting(s1, c) + count_meeting(s2, c),
    decreases s2.len(),
{
    if s2.len() == 0 {
        assert(s1 + s2 =~= s1);
    } else {
        lemma_count_concat(s1, s2.drop_last(), c);
        assert((s1 + s2).drop_last() =~= s1 + s2.drop_last());
    }
}

proof fn lemma_flat_all_concat(f1: Seq<AnalysisTree>, f2: Seq<AnalysisTree>)
    ensures
        flat_all(f1 + f2) == flat_all(f1) + flat_all(f2),
    decreases f2.len(),
{
    if f2.len() == 0 {
        assert(f1 + f2 =~= f1);
        assert(flat_all(f1) + flat_all(f2) =~= flat_all(f1));
    } else {
        lemma_flat_all_concat(f1, f2.drop_last());
        assert((f1 + f2).drop_last() =~= f1 + f2.drop_last());
        assert((f1 + f2).last() == f2.last());
        assert(flat_all(f1) + flat_all(f2.drop_last()) + flat(f2.last()) =~= flat_all(f1) + (flat_all(
            f2.drop_last(),
        ) + flat(f2.last())));
    }
}

/// Cross-tabulation adds up over a forest: for a forest made of two parts,
/// the count of every (subject, attitude) cell over the whole is the sum of
/// the counts over the parts, each taken over the flattened trees.
pub proof fn lemma_cross_tab_additive(
    f1: Seq<SubmissionAnalysis>,
    f2: Seq<SubmissionAnalysis>,
    s: Subject,
    a: Attitude,
)
    ensures
        count_meeting(forest_analyses(f1 + f2), Criterion::WithPair(s, a)) == count_meeting(
            forest_analyses(f1),
            Criterion::WithPair(s, a),
        ) + count_meeting(forest_analyses(f2), Criterion::WithPair(s, a)),
{
    assert(tree_views(f1 + f2) =~= tree_views(f1) + tree_views(f2));
    lemma_flat_all_concat(tree_views(f1), tree_views(f2));
    lemma_count_concat(forest_analyses(f1), forest_analyses(f2), Criterion::WithPair(s, a));
}

/// The counts of the attitudes before position `m`, with the subject at
/// position `j`.
pub open spec fn row_total(s: Seq<Analysis>, j: int, m: int) -> nat
    decreases m,
{
    if m <= 0 {
        0
    } else {
        row_total(s, j, m - 1) + count_meeting(s, Criterion::WithPair(subject_at(j), attitude_at(m - 1)))
    }
}

/// The counts of all cells whose subject is before position `j`.
pub open spec fn table_total(s: Seq<Analysis>, j: int) -> nat
    decreases j,
{
    if j <= 0 {
        0
    } else {
        table_total(s, j - 1) + row_total(s, j - 1, 9)
    }
}

proof fn lemma_row_push(s: Seq<Analysis>, x: Analysis, j: int, m: int)
    requires
        0 <= j < 13,
        0 <= m <= 9,
    ensures
        row_total(s.push(x), j, m) == row_total(s, j, m) + if subject_at(j) == x.subject && attitude_index(x.attitude) < m {
            1nat
        } else {
            0nat
        },
    decreases m,
{
    lemma_attitude_index(x.attitude);
    if m > 0 {
        lemma_row_push(s, x, j, m - 1);
        lemma_count_push(s, x, Criterion::WithPair(subject_at(j), attitude_at(m - 1)));
    }
}

proof fn lemma_table_push(s: Seq<Analysis>, x: Analysis, j: int)
    requires
        0 <= j <= 13,
    ensures
        table_total(s.push(x), j) == table_total(s, j) + if subject_index(x.subject) < j {
            1nat
        } else {
            0nat
        },
    decreases j,
{
    lemma_subject_index(x.subject);
    lemma_attitude_index(x.attitude);
    if j > 0 {
        lemma_table_push(s, x, j - 1);
        lemma_row_push(s, x, j - 1, 9);
    }
}

proof fn lemma_table_counts_all(s: Seq<Analysis>)
    ensures
        table_total(s, 13) == s.len(),
    decreases s.len(),
{
    if s.len() == 0 {
        assert forall|j: int| 0 <= j <= 13 implies #[trigger] table_total(s, j) == 0 by {
            lemma_table_zero(s, j);
        }
    } else {
        lemma_table_counts_all(s.drop_last());
        lemma_table_push(s.drop_last(), s.last(), 13);
        lemma_subject_index(s.last().subject);
        assert(s.drop_last().push(s.last()) =~= s);
    }
}

proof fn lemma_table_zero(s: Seq<Analysis>, j: int)
    requires
        s.len() == 0,
        0 <= j <= 13,
    ensures
        table_total(s, j) == 0,
    decreases j,
{
    if j > 0 {
        lemma_table_zero(s, j - 1);
        lemma_row_zero(s, j - 1, 9);
    }
}

proof fn lemma_row_zero(s: Seq<Analysis>, j: int, m: int)
    requires
        s.len() == 0,
        0 <= m <= 9,
    ensures
        row_total(s, j, m) == 0,
    decreases m,
{
    if m > 0 {
        lemma_row_zero(s, j, m - 1);
    }
}

/// Every classified node of a forest lands in exactly one (subject,
/// attitude) cell: the cells of the cross-tabulation add up to the number of
/// analyses in the flattened forest.
pub proof fn lemma_cross_tab_total(forest: Seq<SubmissionAnalysis>)
    ensures
        table_total(forest_analyses(forest), 13) == forest_analyses(forest).len(),
{
    lemma_table_counts_all(forest_analyses(forest));
}

} // verus!
