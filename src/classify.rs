use vstd::prelude::*;
use crate::schema::{
    attitude_label, is_attitude_label, is_subject_label, lemma_attitude_label_round_trip,
    lemma_subject_label_round_trip, subject_label, AnalysisError, Attitude, Subject, SCORE_SCALE,
    THRESHOLD,
};

verus! {

/// The classification of one text: an attitude and a subject, each with a
/// confidence in units of `SCORE_SCALE`.
#[derive(Clone, Copy, Debug, PartialEq, Eq, Structural)]
pub struct Analysis {
    pub attitude: Attitude,
    pub attitude_confidence: u32,
    pub subject: Subject,
    pub subject_confidence: u32,
}

/// The analysis of a text that carries no signal.
pub open spec fn default_analysis() -> Analysis {
    Analysis {
        attitude: Attitude::Neutral,
        attitude_confidence: 0,
        subject: Subject::Other,
        subject_confidence: 0,
    }
}

impl Default for Analysis {
    fn default() -> (r: Analysis)
        ensures
            r == default_analysis(),
    {
        Analysis {
            attitude: Attitude::Neutral,
            attitude_confidence: 0,
            subject: Subject::Other,
            subject_confidence: 0,
        }
    }
}

/// One label with the score the scorer gave it, in units of `SCORE_SCALE`.
#[derive(Clone, Debug)]
pub struct ScoredLabel {
    pub label: String,
    pub score: u32,
}

/// Position of the first of the highest scores.
pub open spec fn top_position(s: Seq<ScoredLabel>) -> int
    decreases s.len(),
{
    if s.len() <= 1 {
        0
    } else {
        let p = top_position(s.drop_last());
        if s.last().score > s[p].score {
            s.len() - 1
        } else {
            p
        }
    }
}

/// The highest score.
pub open spec fn top_score(s: Seq<ScoredLabel>) -> u32 {
    s[top_position(s)].score
}

/// The label of the first of the highest scores.
pub open spec fn top_label(s: Seq<ScoredLabel>) -> Seq<char> {
    s[top_position(s)].label@
}

/// The attitude that a known attitude label names.
pub open spec fn attitude_for_label(l: Seq<char>) -> Attitude {
    choose|a: Attitude| a != Attitude::Neutral && attitude_label(a) == l
}

/// The subject that a known subject label names.
pub open spec fn subject_for_label(l: Seq<char>) -> Subject {
    choose|v: Subject| v != Subject::Other && subject_label(v) == l
}

/// The attitude and confidence decided from the scores, or `None` where the
/// scores are empty or a top score above the threshold has an unknown label.
pub open spec fn attitude_decision(s: Seq<ScoredLabel>) -> Option<(Attitude, u32)> {
    if s.len() == 0 {
        None
    } else if top_score(s) > THRESHOLD {
        if is_attitude_label(top_label(s)) {
            Some((attitude_for_label(top_label(s)), top_score(s)))
        } else {
            None
        }
    } else {
        Some((Attitude::Neutral, (SCORE_SCALE - top_score(s)) as u32))
    }
}

/// The subject and confidence decided from the scores, or `None` where the
/// scores are empty or a top score above the threshold has an unknown label.
pub open spec fn subject_decision(s: Seq<ScoredLabel>) -> Option<(Subject, u32)> {
    if s.len() == 0 {
        None
    } else if top_score(s) > THRESHOLD {
        if is_subject_label(top_label(s)) {
            Some((subject_for_label(top_label(s)), top_score(s)))
        } else {
            None
        }
    } else {
        Some((Subject::Other, (SCORE_SCALE - top_score(s)) as u32))
    }
}

/// The error that a failed decision on `s` reports: a decoding error for
/// empty scores, else the unknown top label.
pub open spec fn decision_failure(e: AnalysisError, s: Seq<ScoredLabel>) -> bool {
    if s.len() == 0 {
        e is ZeroShotError
    } else {
        e matches AnalysisError::LabelError(l) && l@ == top_label(s)
    }
}

/// The first of the highest scores is at `top_position`: no score is higher,
/// and every score before it is lower.
pub proof fn lemma_top_position(s: Seq<ScoredLabel>)
    requires
        s.len() > 0,
    ensures
        0 <= top_position(s) < s.len(),
        forall|j: int| 0 <= j < s.len() ==> s[j].score <= top_score(s),
        forall|j: int| 0 <= j < top_position(s) ==> s[j].score < top_score(s),
    decreases s.len(),
{
    if s.len() > 1 {
        let d = s.drop_last();
        lemma_top_position(d);
        assert forall|j: int| 0 <= j < d.len() implies s[j] == d[j] by {}
    }
}

/// Index of the first of the highest scores in a non-empty list.
fn top_index(scores: &Vec<ScoredLabel>) -> (r: usize)
    requires
        scores@.len() > 0,
    ensures
        r == top_position(scores@),
{
    let mut best: usize = 0;
    let mut i: usize = 1;
    while i < scores.len()
        invariant
            1 <= i <= scores@.len(),
            best == top_position(scores@.subrange(0, i as int)),
        decreases scores@.len() - i,
    {
        proof {
            lemma_top_position(scores@.subrange(0, i as int));
        }
        assert(scores@.subrange(0, i + 1).drop_last() =~= scores@.subrange(0, i as int));
        if scores[i].score > scores[best].score {
            best = i;
        }
        i = i + 1;
    }
    assert(scores@.subrange(0, i as int) =~= scores@);
    best
}

/// Decides the attitude of a text from the scores of the attitude labels.
pub fn decide_attitude(scores: &Vec<ScoredLabel>) -> (r: Result<(Attitude, u32), AnalysisError>)
    ensures
        r is Ok <==> attitude_decision(scores@) is Some,
        r matches Ok(d) ==> attitude_decision(scores@) == Some(d),
        r matches Err(e) ==> decision_failure(e, scores@),
{
    if scores.len() == 0 {
        return Err(AnalysisError::ZeroShotError("the scorer returned no attitude labels".to_owned()));
    }
    let t = top_index(scores);
    proof {
        lemma_top_position(scores@);
    }
    let top = &scores[t];
    if top.score > THRESHOLD {
        match Attitude::from_label(top.label.as_str()) {
            Ok(a) => {
                proof {
                    lemma_attitude_label_round_trip(a);
                }
                Ok((a, top.score))
            },
            Err(e) => Err(e),
        }
    } else {
        Ok((Attitude::Neutral, SCORE_SCALE - top.score))
    }
}

/// Decides the subject of a text from the scores of the subject labels.
pub fn decide_subject(scores: &Vec<ScoredLabel>) -> (r: Result<(Subject, u32), AnalysisError>)
    ensures
        r is Ok <==> subject_decision(scores@) is Some,
        r matches Ok(d) ==> subject_decision(scores@) == Some(d),
        r matches Err(e) ==> decision_failure(e, scores@),
{
    if scores.len() == 0 {
        return Err(AnalysisError::ZeroShotError("the scorer returned no subject labels".to_owned()));
    }
    let t = top_index(scores);
    proof {
        lemma_top_position(scores@);
    }
    let top = &scores[t];
    if top.score > THRESHOLD {
        match Subject::from_label(top.label.as_str()) {
            Ok(v) => {
                proof {
                    lemma_subject_label_round_trip(v);
                }
                Ok((v, top.score))
            },
            Err(e) => Err(e),
        }
    } else {
        Ok((Subject::Other, SCORE_SCALE - top.score))
    }
}

/// Classifies a text from the scores its attitude and subject labels got.
/// An empty text carries no signal: it gets the default analysis whatever
/// the scores, so no scorer needs to be asked about it.
pub fn classify(text: &str, attitudes: &Vec<ScoredLabel>, subjects: &Vec<ScoredLabel>) -> (r: Result<Analysis, AnalysisError>)
    ensures
        text@.len() == 0 ==> r == Ok::<Analysis, AnalysisError>(default_analysis()),
        text@.len() > 0 ==> (r is Ok <==> attitude_decision(attitudes@) is Some && subject_decision(subjects@) is Some),
        text@.len() > 0 ==> (r matches Ok(x) ==> attitude_decision(attitudes@) == Some((x.attitude, x.attitude_confidence))
            && subject_decision(subjects@) == Some((x.subject, x.subject_confidence))),
        text@.len() > 0 && attitude_decision(attitudes@) is None ==> (r matches Err(e) && decision_failure(e, attitudes@)),
        text@.len() > 0 && attitude_decision(attitudes@) is Some && subject_decision(subjects@) is None ==> (r matches Err(e)
            && decision_failure(e, subjects@)),
{
    if text.is_empty() {
        return Ok(Analysis::default());
    }
    let (attitude, attitude_confidence) = match decide_attitude(attitudes) {
        Ok(d) => d,
        Err(e) => return Err(e),
    };
    let (subject, subject_confidence) = match decide_subject(subjects) {
        Ok(d) => d,
        Err(e) => return Err(e),
    };
    Ok(Analysis { attitude, attitude_confidence, subject, subject_confidence })
}

/// Whether a text has to be scored before it can be classified.
pub fn needs_scoring(text: &str) -> (r: bool)
    ensures
        r == (text@.len() > 0),
{
    !text.is_empty()
}

} // verus!
