use reddit_analyzer::{
    Analysis, Attitude, Ratio, Subject, SubmissionAnalysis, Subreddit, SubredditData, Stats,
};

fn leaf(attitude: Attitude, attitude_confidence: u32, subject: Subject, subject_confidence: u32) -> SubmissionAnalysis {
    SubmissionAnalysis {
        analysis: Analysis { attitude, attitude_confidence, subject, subject_confidence },
        children: vec![],
    }
}

fn node(children: Vec<SubmissionAnalysis>) -> SubmissionAnalysis {
    SubmissionAnalysis { analysis: Analysis::default(), children }
}

#[test]
fn divisiveness_of_a_perfect_split_is_one() {
    let t = node(vec![
        leaf(Attitude::Agreement, 900_000, Subject::Other, 0),
        leaf(Attitude::Disagreement, 900_000, Subject::Other, 0),
    ]);
    let d = t.divisiveness();
    assert_eq!(d.numer, d.denom);
    assert_eq!(d, Ratio { numer: 2, denom: 2 });
}

#[test]
fn divisiveness_of_unanimous_replies_is_zero() {
    let t = node(vec![
        leaf(Attitude::Agreement, 900_000, Subject::Other, 0),
        leaf(Attitude::Praise, 500_000, Subject::Other, 0),
        leaf(Attitude::Agreement, 100_000, Subject::Other, 0),
    ]);
    assert_eq!(t.divisiveness(), Ratio { numer: 0, denom: 3 });
}

#[test]
fn divisiveness_ignores_undecided_replies() {
    let t = node(vec![leaf(Attitude::Neutral, 1, Subject::Other, 0), leaf(Attitude::Mocking, 1, Subject::Other, 0)]);
    assert_eq!(t.divisiveness(), Ratio { numer: 0, denom: 1 });
    assert_eq!(node(vec![]).divisiveness(), Ratio { numer: 0, denom: 1 });
    let t = node(vec![
        leaf(Attitude::Agreement, 1, Subject::Other, 0),
        leaf(Attitude::Complaint, 1, Subject::Other, 0),
        leaf(Attitude::Annoyed, 1, Subject::Other, 0),
        leaf(Attitude::Neutral, 1, Subject::Other, 0),
    ]);
    assert_eq!(t.divisiveness(), Ratio { numer: 2, denom: 3 });
}

#[test]
fn reply_means_are_exact_fractions() {
    let t = node(vec![
        leaf(Attitude::Praise, 500_000, Subject::Other, 0),
        leaf(Attitude::Disagreement, 1_000_000, Subject::Other, 0),
    ]);
    assert_eq!(t.reply_positivity(), Ratio { numer: 100 * 500_000 + 25 * 1_000_000, denom: 2 * 100 * 1_000_000 });
    assert_eq!(t.reply_agreement(), Ratio { numer: 80 * 500_000, denom: 2 * 100 * 1_000_000 });
}

#[test]
fn average_reply_takes_the_greatest_summed_confidence() {
    let t = node(vec![
        leaf(Attitude::Praise, 400_000, Subject::Music, 900_000),
        leaf(Attitude::Praise, 400_000, Subject::Food, 500_000),
        leaf(Attitude::Mocking, 700_000, Subject::Food, 500_000),
        leaf(Attitude::Neutral, 1_000_000, Subject::Other, 1_000_000),
    ]);
    let r = t.average_reply();
    assert_eq!(r.attitude, Attitude::Praise);
    assert_eq!(r.attitude_confidence, 200_000);
    assert_eq!(r.subject, Subject::Food);
    assert_eq!(r.subject_confidence, 250_000);
}

#[test]
fn average_reply_breaks_ties_towards_the_later_category() {
    let t = node(vec![
        leaf(Attitude::Inquisitive, 600_000, Subject::Politics, 600_000),
        leaf(Attitude::Annoyed, 600_000, Subject::Personal, 600_000),
    ]);
    let r = t.average_reply();
    assert_eq!(r.attitude, Attitude::Annoyed);
    assert_eq!(r.subject, Subject::Personal);
    assert_eq!(r.attitude_confidence, 300_000);
}

#[test]
fn average_reply_falls_back_without_categories() {
    let r = node(vec![]).average_reply();
    assert_eq!(r, Analysis::default());
    let r = node(vec![leaf(Attitude::Neutral, 900_000, Subject::Other, 900_000)]).average_reply();
    assert_eq!(r, Analysis::default());
    let r = node(vec![leaf(Attitude::Praise, 0, Subject::Other, 900_000)]).average_reply();
    assert_eq!(r.attitude, Attitude::Praise);
    assert_eq!(r.attitude_confidence, 0);
    assert_eq!(r.subject, Subject::Other);
}

#[test]
fn flatten_lists_children_before_their_parent() {
    let t = SubmissionAnalysis {
        analysis: Analysis { attitude: Attitude::Praise, attitude_confidence: 1, subject: Subject::Joke, subject_confidence: 1 },
        children: vec![node(vec![leaf(Attitude::Mocking, 2, Subject::Food, 2)]), leaf(Attitude::Annoyed, 3, Subject::Music, 3)],
    };
    let f = t.flatten();
    let attitudes: Vec<Attitude> = f.iter().map(|a| a.attitude).collect();
    assert_eq!(attitudes, vec![Attitude::Mocking, Attitude::Neutral, Attitude::Annoyed, Attitude::Praise]);
    assert_eq!(t.size(), 4);
}

fn forest() -> Vec<SubmissionAnalysis> {
    vec![
        SubmissionAnalysis {
            analysis: Analysis { attitude: Attitude::Praise, attitude_confidence: 1, subject: Subject::Joke, subject_confidence: 1 },
            children: vec![leaf(Attitude::Mocking, 1, Subject::Food, 1), leaf(Attitude::Disagreement, 1, Subject::Joke, 1)],
        },
        node(vec![leaf(Attitude::Praise, 1, Subject::Joke, 1)]),
    ]
}

fn data(analysis: Vec<SubmissionAnalysis>) -> SubredditData {
    SubredditData {
        subreddit: Subreddit { name: "rust".to_string(), description: String::new(), subscribers: 42, posts: vec![] },
        analysis,
    }
}

#[test]
fn forest_totals() {
    let d = data(forest());
    assert_eq!(d.total_comments(), 5);
    assert_eq!(d.total_positive_comments(), 2);
    assert_eq!(d.total_negative_comments(), 2);
    assert_eq!(d.total_agreeability(), 2);
    assert_eq!(d.total_disagreeability(), 1);
    assert_eq!(d.total_jokes(), 4);
    assert_eq!(d.total_divisiveness(), Some(Ratio { numer: 2, denom: 3 }));
}

#[test]
fn distributions_seed_every_category() {
    let d = data(forest());
    let subjects = d.subject_distribution();
    assert_eq!(subjects.len(), 13);
    assert_eq!(subjects[Subject::Joke.index()], 3);
    assert_eq!(subjects[Subject::Food.index()], 1);
    assert_eq!(subjects[Subject::Other.index()], 1);
    assert_eq!(subjects[Subject::Music.index()], 0);
    let attitudes = d.attitude_distribution();
    assert_eq!(attitudes.len(), 9);
    assert_eq!(attitudes[Attitude::Praise.index()], 2);
    assert_eq!(attitudes[Attitude::Neutral.index()], 1);
    assert_eq!(attitudes[Attitude::Agreement.index()], 0);
}

#[test]
fn cross_tabulation_adds_up_over_the_forest() {
    let whole = data(forest()).attitude_per_subject_distribution();
    let trees = forest();
    let mut parts: Vec<Vec<Vec<usize>>> = vec![];
    for t in trees {
        parts.push(data(vec![t]).attitude_per_subject_distribution());
    }
    let mut total = 0;
    for s in 0..13 {
        assert_eq!(whole[s].len(), 9);
        for a in 0..9 {
            assert_eq!(whole[s][a], parts[0][s][a] + parts[1][s][a]);
            total += whole[s][a];
        }
    }
    assert_eq!(total, data(forest()).total_comments());
    assert_eq!(whole[Subject::Joke.index()][Attitude::Praise.index()], 2);
    assert_eq!(whole[Subject::Other.index()][Attitude::Neutral.index()], 1);
}

#[test]
fn forest_without_sides_has_no_divisiveness() {
    let d = data(vec![node(vec![leaf(Attitude::Neutral, 1, Subject::Other, 1)])]);
    assert_eq!(d.total_divisiveness(), None);
    assert_eq!(data(vec![]).total_comments(), 0);
}

#[test]
fn stats_collect_every_figure() {
    let d = data(forest());
    let s = Stats::new("rust", &d);
    assert_eq!(s.subreddit_name, "rust");
    assert_eq!(s.subscribers, 42);
    assert_eq!(s.total_comments, 5);
    assert_eq!(s.total_jokes, 4);
    assert_eq!(s.divisiveness, Some(Ratio { numer: 2, denom: 3 }));
    assert_eq!(s.subject_distribution[Subject::Joke.index()], 3);
    assert_eq!(s.attitude_per_subject_distribution[Subject::Food.index()][Attitude::Mocking.index()], 1);
}
