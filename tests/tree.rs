use reddit_analyzer::{
    classify, AnalyzeSubmission, Analysis, AnalysisError, Attitude, Comment, Outcome, Post, ProgressCounter,
    ScoredLabel, Subject, Submission, SubmissionAnalysis,
};

fn comment(body: &str, comments: Vec<Comment>) -> Comment {
    Comment { body: body.to_string(), score: 1, comments }
}

fn post(body: &str, comments: Vec<Comment>) -> Post {
    Post {
        title: "title".to_string(),
        not_safe_for_work: false,
        locked: false,
        body: body.to_string(),
        score: 10,
        comments,
    }
}

fn analysis(attitude: Attitude, confidence: u32) -> Analysis {
    Analysis { attitude, attitude_confidence: confidence, subject: Subject::Other, subject_confidence: 0 }
}

fn ok_outcomes(n: usize) -> Vec<Outcome> {
    (0..n).map(|i| Ok(analysis(Attitude::Praise, i as u32))).collect()
}

#[test]
fn empty_reply_is_dropped_from_the_result() {
    let p = post("I love this", vec![comment("Totally agree!", vec![]), comment("", vec![])]);
    let texts = p.texts_to_classify();
    assert_eq!(texts, vec!["I love this".to_string(), "Totally agree!".to_string()]);
    assert_eq!(p.size(), 2);

    let outcomes: Vec<Outcome> = texts
        .iter()
        .map(|t| {
            let attitudes = vec![ScoredLabel { label: "agreement".to_string(), score: 700_000 }];
            let subjects = vec![ScoredLabel { label: "discussion".to_string(), score: 400_000 }];
            classify(t, &attitudes, &subjects)
        })
        .collect();
    let result = p.analyze_submission(&outcomes).unwrap();
    assert_eq!(result.children.len(), 1);
    assert_eq!(result.size(), 2);
    assert_eq!(result.flatten().len(), 2);
    assert_eq!(result.analysis.attitude, Attitude::Agreement);
    assert_eq!(result.children[0].analysis.subject, Subject::Discussion);
}

#[test]
fn size_counts_only_kept_nodes() {
    let c = comment(
        "root",
        vec![
            comment("a", vec![comment("a1", vec![]), comment("", vec![comment("hidden", vec![])])]),
            comment("", vec![comment("also hidden", vec![])]),
            comment("b", vec![]),
        ],
    );
    assert_eq!(c.size(), 4);
    assert_eq!(
        c.texts_to_classify(),
        vec!["root".to_string(), "a".to_string(), "a1".to_string(), "b".to_string()]
    );
    let result = c.analyze_submission(&ok_outcomes(4)).unwrap();
    assert_eq!(result.flatten().len(), c.size());
    assert_eq!(result.children.len(), 2);
    assert_eq!(result.children[0].children.len(), 1);
    assert_eq!(result.children[0].analysis.attitude_confidence, 1);
    assert_eq!(result.children[0].children[0].analysis.attitude_confidence, 2);
    assert_eq!(result.children[1].analysis.attitude_confidence, 3);
}

#[test]
fn root_with_empty_text_still_counts() {
    let p = post("", vec![comment("hello", vec![])]);
    assert_eq!(p.size(), 2);
    assert_eq!(p.texts_to_classify()[0], "");
}

#[test]
fn failed_reply_is_left_out_with_its_subtree() {
    let c = comment("root", vec![comment("a", vec![comment("a1", vec![])]), comment("b", vec![])]);
    let mut outcomes = ok_outcomes(4);
    outcomes[1] = Err(AnalysisError::ZeroShotError("down".to_string()));
    let result = c.analyze_submission(&outcomes).unwrap();
    assert_eq!(result.children.len(), 1);
    assert_eq!(result.children[0].analysis.attitude_confidence, 3);
    assert_eq!(result.size(), 2);
}

#[test]
fn failed_root_fails_the_tree() {
    let c = comment("root", vec![comment("a", vec![])]);
    let mut outcomes = ok_outcomes(2);
    outcomes[0] = Err(AnalysisError::LabelError("weird".to_string()));
    match c.analyze_submission(&outcomes) {
        Err(AnalysisError::LabelError(l)) => assert_eq!(l, "weird"),
        other => panic!("unexpected {:?}", other),
    }
}

#[test]
fn progress_reaches_the_tree_size() {
    let p = post("I love this", vec![comment("Totally agree!", vec![comment("yes", vec![])]), comment("", vec![])]);
    let outcomes = ok_outcomes(p.size());
    let mut counter = ProgressCounter::new();
    counter.increment();
    counter.reset();
    assert_eq!(counter.read(), 0);
    for o in outcomes.iter().rev() {
        counter.record(o);
    }
    assert_eq!(counter.read(), 3);
    assert_eq!(counter.read(), p.size());
    let failed: Outcome = Err(AnalysisError::SentimentError("x".to_string()));
    counter.record(&failed);
    assert_eq!(counter.read(), 3);
}

#[test]
fn submissions_expose_text_score_and_replies() {
    let p = post("body", vec![comment("a", vec![])]);
    assert_eq!(p.content(), "body");
    assert_eq!(Submission::score(&p), 10);
    assert_eq!(p.replies().len(), 1);
    let c = comment("x", vec![]);
    assert_eq!(c.content(), "x");
    assert_eq!(Submission::score(&c), 1);
    assert!(c.replies().is_empty());
}

#[test]
fn default_values_are_empty() {
    let c = Comment::default();
    assert_eq!(c.size(), 1);
    let p = Post::default();
    assert!(p.comments.is_empty());
    let s = reddit_analyzer::Subreddit::default();
    assert_eq!(s.subscribers, 0);
    let t = SubmissionAnalysis { analysis: Analysis::default(), children: vec![] };
    assert_eq!(t.size(), 1);
}
