use vstd::prelude::*;
use crate::classify::{default_analysis, Analysis};
use crate::schema::AnalysisError;

verus! {

/// A reply in a discussion, with its own replies in order.
#[derive(Debug)]
pub struct Comment {
    /// The text of the comment.
    pub body: String,
    /// Upvotes minus downvotes.
    pub score: i32,
    /// The replies to the comment.
    pub comments: Vec<Comment>,
}

/// A classified reply tree, as a mathematical value.
pub struct AnalysisTree {
    pub analysis: Analysis,
    pub children: Seq<AnalysisTree>,
}

/// The classification of a submission and of the replies kept under it.
#[derive(Debug)]
pub struct SubmissionAnalysis {
    /// The analysis of the submission's own text.
    pub analysis: Analysis,
    /// The analyses of the replies that were kept, in their original order.
    pub children: Vec<SubmissionAnalysis>,
}

impl SubmissionAnalysis {
    /// This tree as a mathematical value.
    pub open spec fn view(&self) -> AnalysisTree
        decreases self,
    {
        AnalysisTree {
            analysis: self.analysis,
            children: Seq::new(self.children@.len(), |i: int|
                if 0 <= i < self.children@.len() {
                    self.children@[i].view()
                } else {
                    arbitrary()
                }),
        }
    }
}

impl Default for SubmissionAnalysis {
    fn default() -> (r: SubmissionAnalysis)
        ensures
            r.analysis == default_analysis(),
            r.children@.len() == 0,
    {
        SubmissionAnalysis { analysis: Analysis::default(), children: Vec::new() }
    }
}

/// Texts of the nodes that analysis keeps, in pre-order: the root, then each
/// reply with a non-empty text together with the nodes kept under it.
pub open spec fn tree_texts(text: Seq<char>, replies: Seq<Comment>) -> Seq<Seq<char>>
    decreases replies, 1nat,
{
    seq![text] + replies_texts(replies)
}

/// Texts of the nodes kept under a list of replies, in pre-order.
pub open spec fn replies_texts(replies: Seq<Comment>) -> Seq<Seq<char>>
    decreases replies, 0nat,
{
    if replies.len() == 0 {
        Seq::empty()
    } else {
        let last = replies.last();
        replies_texts(replies.drop_last()) + if last.body@.len() > 0 {
            tree_texts(last.body@, last.comments@)
        } else {
            Seq::empty()
        }
    }
}

/// The views of a sequence of strings.
pub open spec fn text_views(v: Seq<String>) -> Seq<Seq<char>> {
    v.map_values(|s: String| s@)
}

/// Gathers the texts of the kept nodes of a tree in pre-order.
fn collect_texts(text: &String, replies: &Vec<Comment>, out: &mut Vec<String>)
    ensures
        text_views(final(out)@) == text_views(old(out)@) + tree_texts(text@, replies@),
    decreases replies@,
{
    let ghost start = out@;
    out.push(text.clone());
    assert(text_views(out@) =~= text_views(start) + seq![text@]);
    let mut i: usize = 0;
    while i < replies.len()
        invariant
            0 <= i <= replies@.len(),
            text_views(out@) == text_views(start) + seq![text@] + replies_texts(replies@.subrange(0, i as int)),
        decreases replies@.len() - i,
    {
        let ghost before = out@;
        let reply = &replies[i];
        assert(replies@.subrange(0, i + 1).drop_last() =~= replies@.subrange(0, i as int));
        if !reply.body.as_str().is_empty() {
            proof {
                assert(decreases_to!(replies@ => replies@[i as int]));
            }
            collect_texts(&reply.body, &reply.comments, out);
        }
        proof {
            assert(replies@.subrange(0, i + 1).last() == replies@[i as int]);
        }
        i = i + 1;
    }
    assert(replies@.subrange(0, i as int) =~= replies@);
    assert(tree_texts(text@, replies@) == seq![text@] + replies_texts(replies@));
    assert(text_views(out@) =~= text_views(start) + tree_texts(text@, replies@));
}

/// The outcome of classifying one text.
pub type Outcome = Result<Analysis, AnalysisError>;

/// The views of a sequence of result trees.
pub open spec fn tree_views(v: Seq<SubmissionAnalysis>) -> Seq<AnalysisTree> {
    v.map_values(|t: SubmissionAnalysis| t@)
}

/// The tree assembled from the outcomes of classifying the kept nodes of a
/// tree in pre-order (`outs[0]` is the root's): `None` where the root's own
/// classification failed.
pub open spec fn assemble_tree(replies: Seq<Comment>, outs: Seq<Outcome>) -> Option<AnalysisTree>
    decreases replies, 1nat,
{
    if outs.len() > 0 && outs[0] is Ok {
        Some(
            AnalysisTree {
                analysis: outs[0]->Ok_0,
                children: assemble_replies(replies, outs.subrange(1, outs.len() as int)),
            },
        )
    } else {
        None
    }
}

/// The trees assembled under a list of replies from the outcomes of their
/// kept nodes in pre-order. A reply with an empty text is left out, and so is
/// one whose own classification failed, with everything under it.
pub open spec fn assemble_replies(replies: Seq<Comment>, outs: Seq<Outcome>) -> Seq<AnalysisTree>
    decreases replies, 0nat,
{
    if replies.len() == 0 {
        Seq::empty()
    } else {
        let front = replies.drop_last();
        let k = replies_texts(front).len() as int;
        let done = assemble_replies(front, outs.subrange(0, k));
        let last = replies.last();
        if last.body@.len() > 0 {
            match assemble_tree(last.comments@, outs.subrange(k, outs.len() as int)) {
                Some(t) => done.push(t),
                None => done,
            }
        } else {
            done
        }
    }
}

proof fn lemma_replies_texts_prefix(s: Seq<Comment>, i: int)
    requires
        0 <= i <= s.len(),
    ensures
        replies_texts(s.subrange(0, i)).len() <= replies_texts(s).len(),
    decreases s.len() - i,
{
    if i == s.len() {
        assert(s.subrange(0, i) =~= s);
    } else {
        lemma_replies_texts_prefix(s, i + 1);
        assert(s.subrange(0, i + 1).drop_last() =~= s.subrange(0, i));
    }
}

/// Assembles the result trees under `replies` from the outcomes that start
/// at `start`; also returns where the outcomes of what follows start.
fn assemble_children(replies: &Vec<Comment>, outs: &Vec<Outcome>, start: usize) -> (r: (Vec<SubmissionAnalysis>, usize))
    requires
        start + replies_texts(replies@).len() <= outs@.len(),
    ensures
        r.1 == start + replies_texts(replies@).len(),
        tree_views(r.0@) == assemble_replies(replies@, outs@.subrange(start as int, r.1 as int)),
    decreases replies@,
{
    let mut children: Vec<SubmissionAnalysis> = Vec::new();
    let mut pos: usize = start;
    let mut i: usize = 0;
    let n = outs.len();
    assert(tree_views(children@) =~= Seq::<AnalysisTree>::empty());
    while i < replies.len()
        invariant
            0 <= i <= replies@.len(),
            n == outs@.len(),
            start + replies_texts(replies@).len() <= outs@.len(),
            pos == start + replies_texts(replies@.subrange(0, i as int)).len(),
            pos <= n,
            tree_views(children@) == assemble_replies(replies@.subrange(0, i as int), outs@.subrange(start as int, pos as int)),
        decreases replies@.len() - i,
    {
        let ghost prefix = replies@.subrange(0, i as int);
        let ghost next_prefix = replies@.subrange(0, i + 1);
        let ghost before = children@;
        let ghost old_pos = pos;
        let ghost mut added: Option<AnalysisTree> = None;
        proof {
            assert(next_prefix.drop_last() =~= prefix);
            assert(next_prefix.last() == replies@[i as int]);
            lemma_replies_texts_prefix(replies@, i + 1);
        }
        let reply = &replies[i];
        if !reply.body.as_str().is_empty() {
            proof {
                assert(decreases_to!(replies@ => replies@[i as int]));
                assert(tree_texts(reply.body@, reply.comments@) == seq![reply.body@] + replies_texts(reply.comments@));
                assert(replies_texts(next_prefix) == replies_texts(prefix) + tree_texts(reply.body@, reply.comments@));
            }
            let (kids, next) = assemble_children(&reply.comments, outs, pos + 1);
            match &outs[pos] {
                Ok(a) => {
                    let node = SubmissionAnalysis { analysis: *a, children: kids };
                    assert(node@.children =~= tree_views(node.children@));
                    proof {
                        added = Some(node@);
                    }
                    children.push(node);
                },
                Err(_) => {},
            }
            pos = next;
        } else {
            assert(replies_texts(next_prefix) == replies_texts(prefix));
        }
        proof {
            let outs_next = outs@.subrange(start as int, pos as int);
            let k = replies_texts(prefix).len() as int;
            assert(k == old_pos - start);
            assert(outs_next.subrange(0, k) =~= outs@.subrange(start as int, old_pos as int));
            let sub = outs_next.subrange(k, outs_next.len() as int);
            assert(sub =~= outs@.subrange(old_pos as int, pos as int));
            if reply.body@.len() > 0 {
                assert(sub.subrange(1, sub.len() as int) =~= outs@.subrange(old_pos + 1, pos as int));
                assert(sub[0] == outs@[old_pos as int]);
                assert(assemble_tree(reply.comments@, sub) == added);
                if added is Some {
                    assert(tree_views(children@) =~= tree_views(before).push(added->Some_0));
                } else {
                    assert(children@ == before);
                }
            }
            assert(tree_views(children@) =~= assemble_replies(next_prefix, outs_next));
        }
        i = i + 1;
    }
    assert(replies@.subrange(0, i as int) =~= replies@);
    (children, pos)
}

/// Assembles the result tree of a root from the outcomes of its kept nodes.
fn assemble_root(replies: &Vec<Comment>, outs: &Vec<Outcome>) -> (r: Result<SubmissionAnalysis, AnalysisError>)
    requires
        outs@.len() == 1 + replies_texts(replies@).len(),
    ensures
        r is Ok <==> outs@[0] is Ok,
        r matches Ok(t) ==> assemble_tree(replies@, outs@) == Some(t@),
        r matches Err(e) ==> outs@[0] == Err::<Analysis, AnalysisError>(e),
{
    match &outs[0] {
        Ok(a) => {
            let (kids, end) = assemble_children(replies, outs, 1);
            let node = SubmissionAnalysis { analysis: *a, children: kids };
            assert(node@.children =~= tree_views(node.children@));
            assert(outs@.subrange(1, outs@.len() as int) =~= outs@.subrange(1, end as int));
            Ok(node)
        },
        Err(e) => Err(e.duplicate()),
    }
}

/// A count, or `usize::MAX` where the count does not fit.
pub open spec fn capped(n: nat) -> usize {
    if n > usize::MAX {
        usize::MAX
    } else {
        n as usize
    }
}

/// Counts the kept nodes under `replies`, up to `usize::MAX`.
fn count_kept(replies: &Vec<Comment>) -> (r: usize)
    ensures
        r == capped(replies_texts(replies@).len()),
    decreases replies@,
{
    let mut total: usize = 0;
    let mut i: usize = 0;
    while i < replies.len()
        invariant
            0 <= i <= replies@.len(),
            total == capped(replies_texts(replies@.subrange(0, i as int)).len()),
        decreases replies@.len() - i,
    {
        let ghost prefix = replies@.subrange(0, i as int);
        let ghost next_prefix = replies@.subrange(0, i + 1);
        proof {
            assert(next_prefix.drop_last() =~= prefix);
            assert(next_prefix.last() == replies@[i as int]);
        }
        let reply = &replies[i];
        if !reply.body.as_str().is_empty() {
            proof {
                assert(decreases_to!(replies@ => replies@[i as int]));
                assert(tree_texts(reply.body@, reply.comments@) == seq![reply.body@] + replies_texts(reply.comments@));
                assert(replies_texts(next_prefix) == replies_texts(prefix) + tree_texts(reply.body@, reply.comments@));
            }
            let below = count_kept(&reply.comments);
            total = total.saturating_add(1).saturating_add(below);
        } else {
            assert(replies_texts(next_prefix) == replies_texts(prefix));
        }
        i = i + 1;
    }
    assert(replies@.subrange(0, i as int) =~= replies@);
    total
}

/// A post or a comment: a text with the replies to it.
pub trait Submission {
    /// The text.
    spec fn text_view(&self) -> Seq<char>;

    /// The replies, in order.
    spec fn replies_view(&self) -> Seq<Comment>;

    /// Upvotes minus downvotes.
    spec fn score_view(&self) -> i32;

    /// The text.
    fn content(&self) -> (r: &str)
        ensures
            r@ == self.text_view(),
    ;

    /// Upvotes minus downvotes.
    fn score(&self) -> (r: i32)
        ensures
            r == self.score_view(),
    ;

    /// The replies, in order.
    fn replies(&self) -> (r: &[Comment])
        ensures
            r@ == self.replies_view(),
    ;

    /// The number of nodes that analysis keeps: this one and, under it, each
    /// reply with a non-empty text with what is kept under that reply.
    fn size(&self) -> (r: usize)
        ensures
            r == capped(tree_texts(self.text_view(), self.replies_view()).len()),
    ;
}

impl Submission for Comment {
    open spec fn text_view(&self) -> Seq<char> {
        self.body@
    }

    open spec fn replies_view(&self) -> Seq<Comment> {
        self.comments@
    }

    open spec fn score_view(&self) -> i32 {
        self.score
    }

    fn content(&self) -> (r: &str) {
        self.body.as_str()
    }

    fn score(&self) -> (r: i32) {
        self.score
    }

    fn replies(&self) -> (r: &[Comment]) {
        self.comments.as_slice()
    }

    fn size(&self) -> (r: usize) {
        count_kept(&self.comments).saturating_add(1)
    }
}

impl Submission for Post {
    open spec fn text_view(&self) -> Seq<char> {
        self.body@
    }

    open spec fn replies_view(&self) -> Seq<Comment> {
        self.comments@
    }

    open spec fn score_view(&self) -> i32 {
        self.score
    }

    fn content(&self) -> (r: &str) {
        self.body.as_str()
    }

    fn score(&self) -> (r: i32) {
        self.score
    }

    fn replies(&self) -> (r: &[Comment]) {
        self.comments.as_slice()
    }

    fn size(&self) -> (r: usize) {
        count_kept(&self.comments).saturating_add(1)
    }
}

/// A submission whose reply tree can be classified: the texts to classify
/// come out in pre-order, and the outcomes of classifying them, in the same
/// order, go back in to build the result tree.
pub trait AnalyzeSubmission: Submission {
    /// The texts that analysis classifies, in pre-order: this submission's
    /// own, then those of each reply with a non-empty text and of what is
    /// kept under it.
    fn texts_to_classify(&self) -> (r: Vec<String>)
        ensures
            text_views(r@) == tree_texts(self.text_view(), self.replies_view()),
    ;

    /// The result tree, from the outcomes of classifying
    /// `texts_to_classify()` in that order. Fails with the submission's own
    /// error where its own classification failed; a reply whose
    /// classification failed is left out with everything under it.
    fn analyze_submission(&self, outcomes: &Vec<Outcome>) -> (r: Result<SubmissionAnalysis, AnalysisError>)
        requires
            outcomes@.len() == tree_texts(self.text_view(), self.replies_view()).len(),
        ensures
            r is Ok <==> outcomes@[0] is Ok,
            r matches Ok(t) ==> assemble_tree(self.replies_view(), outcomes@) == Some(t@),
            r matches Err(e) ==> outcomes@[0] == Err::<Analysis, AnalysisError>(e),
    ;
}

fn texts_of(text: &String, replies: &Vec<Comment>) -> (r: Vec<String>)
    ensures
        text_views(r@) == tree_texts(text@, replies@),
{
    let mut out: Vec<String> = Vec::new();
    collect_texts(text, replies, &mut out);
    assert(text_views(Seq::<String>::empty()) =~= Seq::<Seq<char>>::empty());
    assert(text_views(out@) =~= tree_texts(text@, replies@));
    out
}

impl AnalyzeSubmission for Comment {
    fn texts_to_classify(&self) -> (r: Vec<String>) {
        texts_of(&self.body, &self.comments)
    }

    fn analyze_submission(&self, outcomes: &Vec<Outcome>) -> (r: Result<SubmissionAnalysis, AnalysisError>) {
        assemble_root(&self.comments, outcomes)
    }
}

impl AnalyzeSubmission for Post {
    fn texts_to_classify(&self) -> (r: Vec<String>) {
        texts_of(&self.body, &self.comments)
    }

    fn analyze_submission(&self, outcomes: &Vec<Outcome>) -> (r: Result<SubmissionAnalysis, AnalysisError>) {
        assemble_root(&self.comments, outcomes)
    }
}

impl Default for Comment {
    fn default() -> (r: Comment)
        ensures
            r.body@.len() == 0,
            r.score == 0,
            r.comments@.len() == 0,
    {
        Comment { body: String::new(), score: 0, comments: Vec::new() }
    }
}

/// A post: a titled submission with its comments.
#[derive(Debug)]
pub struct Post {
    /// The title of the post.
    pub title: String,
    /// Whether the post is marked not safe for work.
    pub not_safe_for_work: bool,
    /// Whether the moderators locked the post.
    pub locked: bool,
    /// The text of the post.
    pub body: String,
    /// Upvotes minus downvotes.
    pub score: i32,
    /// The comments on the post.
    pub comments: Vec<Comment>,
}

impl Default for Post {
    fn default() -> (r: Post)
        ensures
            r.title@.len() == 0,
            !r.not_safe_for_work,
            !r.locked,
            r.body@.len() == 0,
            r.score == 0,
            r.comments@.len() == 0,
    {
        Post {
            title: String::new(),
            not_safe_for_work: false,
            locked: false,
            body: String::new(),
            score: 0,
            comments: Vec::new(),
        }
    }
}

/// What can go wrong while collecting a subreddit.
#[derive(Clone, Debug)]
pub enum ScrapeError {
    /// The remote service failed; the message says how.
    RedditError(String),
    /// Nothing could be read for the subreddit with this name.
    CouldNotRead(String),
}

/// A subreddit with its posts.
#[derive(Debug)]
pub struct Subreddit {
    /// The subreddit's name, such as "r/rust".
    pub name: String,
    /// A short description written by the moderators.
    pub description: String,
    /// How many accounts subscribe to it.
    pub subscribers: u64,
    /// The posts collected from it.
    pub posts: Vec<Post>,
}

impl Default for Subreddit {
    fn default() -> (r: Subreddit)
        ensures
            r.name@.len() == 0,
            r.description@.len() == 0,
            r.subscribers == 0,
            r.posts@.len() == 0,
    {
        Subreddit { name: String::new(), description: String::new(), subscribers: 0, posts: Vec::new() }
    }
}

} // verus!
