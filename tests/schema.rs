use reddit_analyzer::{
    classify, decide_attitude, decide_subject, needs_scoring, Analysis, AnalysisError, Attitude,
    ScoredLabel, Subject, SCORE_SCALE, THRESHOLD,
};

fn scored(label: &str, score: u32) -> ScoredLabel {
    ScoredLabel { label: label.to_string(), score }
}

#[test]
fn attitude_labels_round_trip() {
    for a in Attitude::values() {
        match a.label() {
            Some(l) => assert_eq!(Attitude::from_label(l).unwrap(), a),
            None => assert_eq!(a, Attitude::Neutral),
        }
    }
    assert_eq!(Attitude::labels().len(), 8);
}

#[test]
fn subject_labels_round_trip() {
    for s in Subject::values() {
        match s.label() {
            Some(l) => assert_eq!(Subject::from_label(l).unwrap(), s),
            None => assert_eq!(s, Subject::Other),
        }
    }
    assert_eq!(Subject::labels().len(), 12);
    assert_eq!(Subject::from_label("me").unwrap(), Subject::Personal);
}

#[test]
fn unknown_labels_are_errors() {
    match Attitude::from_label("neutral") {
        Err(AnalysisError::LabelError(l)) => assert_eq!(l, "neutral"),
        other => panic!("unexpected {:?}", other),
    }
    match Subject::from_label("weather") {
        Err(AnalysisError::LabelError(l)) => assert_eq!(l, "weather"),
        other => panic!("unexpected {:?}", other),
    }
    assert!(Subject::from_label("other").is_err());
    assert!(Attitude::from_label("").is_err());
}

#[test]
fn attitude_weights() {
    assert_eq!(Attitude::Praise.positivity(), 100);
    assert_eq!(Attitude::Praise.negativity(), 0);
    assert_eq!(Attitude::Disagreement.positivity(), 25);
    assert_eq!(Attitude::Disagreement.negativity(), 75);
    assert_eq!(Attitude::Agreement.agreement(), 100);
    assert_eq!(Attitude::Complaint.agreement(), 30);
    assert_eq!(Attitude::Neutral.agreement(), 50);
    assert_eq!(Attitude::Annoyed.agreement(), 20);
}

#[test]
fn names_and_positions() {
    assert_eq!(Attitude::Mocking.to_string(), "Mocking");
    assert_eq!(Subject::Personal.to_string(), "Personal");
    assert_eq!(Attitude::Neutral.index(), 8);
    assert_eq!(Subject::Other.index(), 12);
    assert_eq!(Subject::at(8), Subject::Joke);
    assert_eq!(Attitude::at(0), Attitude::Inquisitive);
    assert_eq!(Attitude::values()[0], Attitude::Neutral);
    assert_eq!(Subject::values().len(), 13);
}

#[test]
fn top_label_above_threshold_is_taken() {
    let scores = vec![scored("praise", 200_000), scored("mocking", 650_000), scored("question", 100_000)];
    assert_eq!(decide_attitude(&scores).unwrap(), (Attitude::Mocking, 650_000));
}

#[test]
fn low_top_score_falls_back() {
    let scores = vec![scored("politics", 250_000), scored("food", 100_000)];
    assert_eq!(decide_subject(&scores).unwrap(), (Subject::Other, SCORE_SCALE - 250_000));
}

#[test]
fn score_at_threshold_falls_back() {
    let scores = vec![scored("joke", THRESHOLD)];
    assert_eq!(decide_subject(&scores).unwrap(), (Subject::Other, 700_000));
    let scores = vec![scored("joke", THRESHOLD + 1)];
    assert_eq!(decide_subject(&scores).unwrap(), (Subject::Joke, 300_001));
}

#[test]
fn equal_top_scores_take_the_first() {
    let scores = vec![scored("music", 400_000), scored("movies", 500_000), scored("sports", 500_000)];
    assert_eq!(decide_subject(&scores).unwrap(), (Subject::Movies, 500_000));
}

#[test]
fn empty_scores_are_a_decoding_error() {
    assert!(matches!(decide_attitude(&vec![]), Err(AnalysisError::ZeroShotError(_))));
    assert!(matches!(decide_subject(&vec![]), Err(AnalysisError::ZeroShotError(_))));
}

#[test]
fn unknown_top_label_is_an_error_only_above_threshold() {
    match decide_attitude(&vec![scored("sarcasm", 900_000), scored("praise", 50_000)]) {
        Err(AnalysisError::LabelError(l)) => assert_eq!(l, "sarcasm"),
        other => panic!("unexpected {:?}", other),
    }
    assert_eq!(decide_attitude(&vec![scored("sarcasm", 200_000)]).unwrap(), (Attitude::Neutral, 800_000));
}

#[test]
fn empty_text_gets_the_default_analysis() {
    let junk = vec![scored("sarcasm", 900_000)];
    let r = classify("", &junk, &vec![]).unwrap();
    assert_eq!(r, Analysis::default());
    assert_eq!(r.attitude, Attitude::Neutral);
    assert_eq!(r.subject, Subject::Other);
    assert_eq!(r.attitude_confidence, 0);
    assert_eq!(r.subject_confidence, 0);
    assert!(!needs_scoring(""));
    assert!(needs_scoring("hi"));
}

#[test]
fn classify_combines_both_decisions() {
    let attitudes = vec![scored("agreement", 800_000), scored("praise", 100_000)];
    let subjects = vec![scored("science", 100_000)];
    let r = classify("Totally agree!", &attitudes, &subjects).unwrap();
    assert_eq!(
        r,
        Analysis {
            attitude: Attitude::Agreement,
            attitude_confidence: 800_000,
            subject: Subject::Other,
            subject_confidence: 900_000,
        }
    );
}

#[test]
fn classify_reports_the_attitude_error_first() {
    let r = classify("x", &vec![], &vec![scored("bogus", 900_000)]);
    assert!(matches!(r, Err(AnalysisError::ZeroShotError(_))));
    let r = classify("x", &vec![scored("praise", 900_000)], &vec![scored("bogus", 900_000)]);
    match r {
        Err(AnalysisError::LabelError(l)) => assert_eq!(l, "bogus"),
        other => panic!("unexpected {:?}", other),
    }
}

#[test]
fn errors_duplicate_exactly() {
    let e = AnalysisError::LabelError("x".to_string());
    assert!(matches!(e.duplicate(), AnalysisError::LabelError(l) if l == "x"));
}
