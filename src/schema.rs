use vstd::prelude::*;

verus! {

/// Scores and confidences are fixed-point numbers: this many units make 1.
pub const SCORE_SCALE: u32 = 1_000_000;

/// A top score must exceed this (0.3 of the scale) for its label to be taken.
pub const THRESHOLD: u32 = 300_000;

/// The attitude weights are fixed-point numbers: this many units make 1.
pub const WEIGHT_SCALE: u32 = 100;

/// What can go wrong while classifying a text.
#[derive(Clone, Debug)]
pub enum AnalysisError {
    /// A sentiment pass failed; the message says why.
    SentimentError(String),
    /// The label scorer failed or returned nothing to decide on.
    ZeroShotError(String),
    /// The scorer returned a label outside the schema; it carries that label.
    LabelError(String),
}

impl AnalysisError {
    /// A copy of this error.
    pub fn duplicate(&self) -> (r: AnalysisError)
        ensures
            r == *self,
    {
        match self {
            AnalysisError::SentimentError(m) => AnalysisError::SentimentError(m.clone()),
            AnalysisError::ZeroShotError(m) => AnalysisError::ZeroShotError(m.clone()),
            AnalysisError::LabelError(m) => AnalysisError::LabelError(m.clone()),
        }
    }
}

/// The rhetorical attitude of a text.
#[derive(Clone, Copy, Debug, PartialEq, Eq, Structural, PartialOrd, Ord, Hash)]
pub enum Attitude {
    Inquisitive,
    Praise,
    Condemnation,
    Agreement,
    Complaint,
    Mocking,
    Disagreement,
    Annoyed,
    Neutral,
}

/// The label string the scorer is asked about for a non-fallback attitude.
pub open spec fn attitude_label(a: Attitude) -> Seq<char> {
    match a {
        Attitude::Inquisitive => "question"@,
        Attitude::Praise => "praise"@,
        Attitude::Condemnation => "condemnation"@,
        Attitude::Agreement => "agreement"@,
        Attitude::Complaint => "complaint"@,
        Attitude::Mocking => "mocking"@,
        Attitude::Disagreement => "disagreement"@,
        Attitude::Annoyed => "annoyed"@,
        Attitude::Neutral => Seq::empty(),
    }
}

/// Position of an attitude in declaration order.
pub open spec fn attitude_index(a: Attitude) -> nat {
    match a {
        Attitude::Inquisitive => 0,
        Attitude::Praise => 1,
        Attitude::Condemnation => 2,
        Attitude::Agreement => 3,
        Attitude::Complaint => 4,
        Attitude::Mocking => 5,
        Attitude::Disagreement => 6,
        Attitude::Annoyed => 7,
        Attitude::Neutral => 8,
    }
}

/// The attitude at position `i` of declaration order.
pub open spec fn attitude_at(i: int) -> Attitude {
    if i == 0 {
        Attitude::Inquisitive
    } else if i == 1 {
        Attitude::Praise
    } else if i == 2 {
        Attitude::Condemnation
    } else if i == 3 {
        Attitude::Agreement
    } else if i == 4 {
        Attitude::Complaint
    } else if i == 5 {
        Attitude::Mocking
    } else if i == 6 {
        Attitude::Disagreement
    } else if i == 7 {
        Attitude::Annoyed
    } else {
        Attitude::Neutral
    }
}

/// How positive an attitude is, in hundredths.
pub open spec fn attitude_positivity(a: Attitude) -> u32 {
    match a {
        Attitude::Inquisitive => 50,
        Attitude::Praise => 100,
        Attitude::Condemnation => 0,
        Attitude::Agreement => 80,
        Attitude::Complaint => 0,
        Attitude::Mocking => 0,
        Attitude::Disagreement => 25,
        Attitude::Annoyed => 0,
        Attitude::Neutral => 50,
    }
}

/// How much an attitude agrees with what it replies to, in hundredths.
pub open spec fn attitude_agreement(a: Attitude) -> u32 {
    match a {
        Attitude::Inquisitive => 50,
        Attitude::Praise => 80,
        Attitude::Condemnation => 0,
        Attitude::Agreement => 100,
        Attitude::Complaint => 30,
        Attitude::Mocking => 50,
        Attitude::Disagreement => 0,
        Attitude::Annoyed => 20,
        Attitude::Neutral => 50,
    }
}

/// The name of an attitude as it is shown to people.
pub open spec fn attitude_name(a: Attitude) -> Seq<char> {
    match a {
        Attitude::Inquisitive => "Inquisitive"@,
        Attitude::Praise => "Praise"@,
        Attitude::Condemnation => "Condemnation"@,
        Attitude::Agreement => "Agreement"@,
        Attitude::Complaint => "Complaint"@,
        Attitude::Mocking => "Mocking"@,
        Attitude::Disagreement => "Disagreement"@,
        Attitude::Annoyed => "Annoyed"@,
        Attitude::Neutral => "Neutral"@,
    }
}

/// Whether `s` is the label of some non-fallback attitude.
pub open spec fn is_attitude_label(s: Seq<char>) -> bool {
    exists|a: Attitude| a != Attitude::Neutral && attitude_label(a) == s
}

fn same_text(a: &str, b: &str) -> (r: bool)
    ensures
        r == (a@ == b@),
{
    a.to_owned() == b.to_owned()
}

impl Attitude {
    /// Every attitude, the fallback first.
    pub fn values() -> (r: Vec<Attitude>)
        ensures
            r@ == seq![
                Attitude::Neutral,
                Attitude::Inquisitive,
                Attitude::Praise,
                Attitude::Condemnation,
                Attitude::Agreement,
                Attitude::Complaint,
                Attitude::Mocking,
                Attitude::Disagreement,
                Attitude::Annoyed,
            ],
    {
        let r = vec![
            Attitude::Neutral,
            Attitude::Inquisitive,
            Attitude::Praise,
            Attitude::Condemnation,
            Attitude::Agreement,
            Attitude::Complaint,
            Attitude::Mocking,
            Attitude::Disagreement,
            Attitude::Annoyed,
        ];
        assert(r@ =~= seq![
            Attitude::Neutral,
            Attitude::Inquisitive,
            Attitude::Praise,
            Attitude::Condemnation,
            Attitude::Agreement,
            Attitude::Complaint,
            Attitude::Mocking,
            Attitude::Disagreement,
            Attitude::Annoyed,
        ]);
        r
    }

    /// The labels of the non-fallback attitudes, in declaration order.
    pub fn labels() -> (r: Vec<&'static str>)
        ensures
            r@.len() == 8,
            forall|i: int| 0 <= i < 8 ==> (#[trigger] r@[i])@ == attitude_label(attitude_at(i)),
    {
        vec!["question", "praise", "condemnation", "agreement", "complaint", "mocking", "disagreement", "annoyed"]
    }

    /// The scorer label of this attitude; the fallback has none.
    pub fn label(&self) -> (r: Option<&'static str>)
        ensures
            *self == Attitude::Neutral <==> r is None,
            r matches Some(l) ==> l@ == attitude_label(*self),
    {
        match self {
            Attitude::Inquisitive => Some("question"),
            Attitude::Praise => Some("praise"),
            Attitude::Condemnation => Some("condemnation"),
            Attitude::Agreement => Some("agreement"),
            Attitude::Complaint => Some("complaint"),
            Attitude::Mocking => Some("mocking"),
            Attitude::Disagreement => Some("disagreement"),
            Attitude::Annoyed => Some("annoyed"),
            Attitude::Neutral => None,
        }
    }

    /// The attitude at position `i` of declaration order.
    pub fn at(i: usize) -> (r: Attitude)
        requires
            i < 9,
        ensures
            r == attitude_at(i as int),
    {
        match i {
            0 => Attitude::Inquisitive,
            1 => Attitude::Praise,
            2 => Attitude::Condemnation,
            3 => Attitude::Agreement,
            4 => Attitude::Complaint,
            5 => Attitude::Mocking,
            6 => Attitude::Disagreement,
            7 => Attitude::Annoyed,
            _ => Attitude::Neutral,
        }
    }

    /// Position of this attitude in declaration order.
    pub fn index(&self) -> (r: usize)
        ensures
            r == attitude_index(*self),
    {
        match self {
            Attitude::Inquisitive => 0,
            Attitude::Praise => 1,
            Attitude::Condemnation => 2,
            Attitude::Agreement => 3,
            Attitude::Complaint => 4,
            Attitude::Mocking => 5,
            Attitude::Disagreement => 6,
            Attitude::Annoyed => 7,
            Attitude::Neutral => 8,
        }
    }

    /// How much this attitude is associated with a positive stance, in hundredths.
    pub fn positivity(&self) -> (r: u32)
        ensures
            r == attitude_positivity(*self),
    {
        match self {
            Attitude::Inquisitive => 50,
            Attitude::Praise => 100,
            Attitude::Condemnation => 0,
            Attitude::Agreement => 80,
            Attitude::Complaint => 0,
            Attitude::Mocking => 0,
            Attitude::Disagreement => 25,
            Attitude::Annoyed => 0,
            Attitude::Neutral => 50,
        }
    }

    /// How much this attitude is associated with a negative stance, in hundredths.
    pub fn negativity(&self) -> (r: u32)
        ensures
            r == WEIGHT_SCALE - attitude_positivity(*self),
    {
        WEIGHT_SCALE - self.positivity()
    }

    /// How much this attitude agrees with what it replies to, in hundredths.
    pub fn agreement(&self) -> (r: u32)
        ensures
            r == attitude_agreement(*self),
    {
        match self {
            Attitude::Inquisitive => 50,
            Attitude::Praise => 80,
            Attitude::Condemnation => 0,
            Attitude::Agreement => 100,
            Attitude::Complaint => 30,
            Attitude::Mocking => 50,
            Attitude::Disagreement => 0,
            Attitude::Annoyed => 20,
            Attitude::Neutral => 50,
        }
    }

    /// The name of this attitude.
    pub fn to_string(&self) -> (r: String)
        ensures
            r@ == attitude_name(*self),
    {
        let name = match self {
            Attitude::Inquisitive => "Inquisitive",
            Attitude::Praise => "Praise",
            Attitude::Condemnation => "Condemnation",
            Attitude::Agreement => "Agreement",
            Attitude::Complaint => "Complaint",
            Attitude::Mocking => "Mocking",
            Attitude::Disagreement => "Disagreement",
            Attitude::Annoyed => "Annoyed",
            Attitude::Neutral => "Neutral",
        };
        name.to_owned()
    }

    /// The attitude that the scorer label `label` stands for.
    pub fn from_label(label: &str) -> (r: Result<Attitude, AnalysisError>)
        ensures
            is_attitude_label(label@) <==> r is Ok,
            r matches Ok(a) ==> a != Attitude::Neutral && attitude_label(a) == label@,
            r matches Err(e) ==> e matches AnalysisError::LabelError(s) && s@ == label@,
    {
        proof {
            reveal_strlit("question");
            reveal_strlit("praise");
            reveal_strlit("condemnation");
            reveal_strlit("agreement");
            reveal_strlit("complaint");
            reveal_strlit("mocking");
            reveal_strlit("disagreement");
            reveal_strlit("annoyed");
        }
        let r = if same_text(label, "question") {
            Ok(Attitude::Inquisitive)
        } else if same_text(label, "praise") {
            Ok(Attitude::Praise)
        } else if same_text(label, "condemnation") {
            Ok(Attitude::Condemnation)
        } else if same_text(label, "agreement") {
            Ok(Attitude::Agreement)
        } else if same_text(label, "complaint") {
            Ok(Attitude::Complaint)
        } else if same_text(label, "mocking") {
            Ok(Attitude::Mocking)
        } else if same_text(label, "disagreement") {
            Ok(Attitude::Disagreement)
        } else if same_text(label, "annoyed") {
            Ok(Attitude::Annoyed)
        } else {
            assert forall|a: Attitude| a != Attitude::Neutral implies attitude_label(a) != label@ by {
                match a {
                    _ => {},
                }
            }
            Err(AnalysisError::LabelError(label.to_owned()))
        };
        proof {
            if let Ok(a) = r {
                assert(attitude_label(a) == label@);
            }
        }
        r
    }
}

/// The topic of a text.
#[derive(Clone, Copy, Debug, PartialEq, Eq, Structural, PartialOrd, Ord, Hash)]
pub enum Subject {
    Politics,
    Religion,
    Science,
    Food,
    Animals,
    Sports,
    Music,
    Movies,
    Joke,
    Technology,
    Discussion,
    Personal,
    Other,
}

/// The label string the scorer is asked about for a non-fallback subject.
pub open spec fn subject_label(s: Subject) -> Seq<char> {
    match s {
        Subject::Politics => "politics"@,
        Subject::Religion => "religion"@,
        Subject::Science => "science"@,
        Subject::Food => "food"@,
        Subject::Animals => "animals"@,
        Subject::Sports => "sports"@,
        Subject::Music => "music"@,
        Subject::Movies => "movies"@,
        Subject::Joke => "joke"@,
        Subject::Technology => "technology"@,
        Subject::Discussion => "discussion"@,
        Subject::Personal => "me"@,
        Subject::Other => Seq::empty(),
    }
}

/// Position of a subject in declaration order.
pub open spec fn subject_index(s: Subject) -> nat {
    match s {
        Subject::Politics => 0,
        Subject::Religion => 1,
        Subject::Science => 2,
        Subject::Food => 3,
        Subject::Animals => 4,
        Subject::Sports => 5,
        Subject::Music => 6,
        Subject::Movies => 7,
        Subject::Joke => 8,
        Subject::Technology => 9,
        Subject::Discussion => 10,
        Subject::Personal => 11,
        Subject::Other => 12,
    }
}

/// The subject at position `i` of declaration order.
pub open spec fn subject_at(i: int) -> Subject {
    if i == 0 {
        Subject::Politics
    } else if i == 1 {
        Subject::Religion
    } else if i == 2 {
        Subject::Science
    } else if i == 3 {
        Subject::Food
    } else if i == 4 {
        Subject::Animals
    } else if i == 5 {
        Subject::Sports
    } else if i == 6 {
        Subject::Music
    } else if i == 7 {
        Subject::Movies
    } else if i == 8 {
        Subject::Joke
    } else if i == 9 {
        Subject::Technology
    } else if i == 10 {
        Subject::Discussion
    } else if i == 11 {
        Subject::Personal
    } else {
        Subject::Other
    }
}

/// The name of a subject as it is shown to people.
pub open spec fn subject_name(s: Subject) -> Seq<char> {
    match s {
        Subject::Politics => "Politics"@,
        Subject::Religion => "Religion"@,
        Subject::Science => "Science"@,
        Subject::Food => "Food"@,
        Subject::Animals => "Animals"@,
        Subject::Sports => "Sports"@,
        Subject::Music => "Music"@,
        Subject::Movies => "Movies"@,
        Subject::Joke => "Joke"@,
        Subject::Technology => "Technology"@,
        Subject::Discussion => "Discussion"@,
        Subject::Personal => "Personal"@,
        Subject::Other => "Other"@,
    }
}

/// Whether `s` is the label of some non-fallback subject.
pub open spec fn is_subject_label(s: Seq<char>) -> bool {
    exists|v: Subject| v != Subject::Other && subject_label(v) == s
}

impl Subject {
    /// Every subject, the fallback first.
    pub fn values() -> (r: Vec<Subject>)
        ensures
            r@ == seq![Subject::Other, Subject::Politics, Subject::Religion, Subject::Science, Subject::Food, Subject::Animals, Subject::Sports, Subject::Music, Subject::Movies, Subject::Joke, Subject::Technology, Subject::Discussion, Subject::Personal],
    {
        let r = vec![Subject::Other, Subject::Politics, Subject::Religion, Subject::Science, Subject::Food, Subject::Animals, Subject::Sports, Subject::Music, Subject::Movies, Subject::Joke, Subject::Technology, Subject::Discussion, Subject::Personal];
        assert(r@ =~= seq![Subject::Other, Subject::Politics, Subject::Religion, Subject::Science, Subject::Food, Subject::Animals, Subject::Sports, Subject::Music, Subject::Movies, Subject::Joke, Subject::Technology, Subject::Discussion, Subject::Personal]);
        r
    }

    /// The labels of the non-fallback subjects, in declaration order.
    pub fn labels() -> (r: Vec<&'static str>)
        ensures
            r@.len() == 12,
            forall|i: int| 0 <= i < 12 ==> (#[trigger] r@[i])@ == subject_label(subject_at(i)),
    {
        vec!["politics", "religion", "science", "food", "animals", "sports", "music", "movies", "joke", "technology", "discussion", "me"]
    }

    /// The scorer label of this subject; the fallback has none.
    pub fn label(&self) -> (r: Option<&'static str>)
        ensures
            *self == Subject::Other <==> r is None,
            r matches Some(l) ==> l@ == subject_label(*self),
    {
        match self {
            Subject::Politics => Some("politics"),
            Subject::Religion => Some("religion"),
            Subject::Science => Some("science"),
            Subject::Food => Some("food"),
            Subject::Animals => Some("animals"),
            Subject::Sports => Some("sports"),
            Subject::Music => Some("music"),
            Subject::Movies => Some("movies"),
            Subject::Joke => Some("joke"),
            Subject::Technology => Some("technology"),
            Subject::Discussion => Some("discussion"),
            Subject::Personal => Some("me"),
            Subject::Other => None,
        }
    }

    /// The subject at position `i` of declaration order.
    pub fn at(i: usize) -> (r: Subject)
        requires
            i < 13,
        ensures
            r == subject_at(i as int),
    {
        match i {
            0 => Subject::Politics,
            1 => Subject::Religion,
            2 => Subject::Science,
            3 => Subject::Food,
            4 => Subject::Animals,
            5 => Subject::Sports,
            6 => Subject::Music,
            7 => Subject::Movies,
            8 => Subject::Joke,
            9 => Subject::Technology,
            10 => Subject::Discussion,
            11 => Subject::Personal,
            _ => Subject::Other,
        }
    }

    /// Position of this subject in declaration order.
    pub fn index(&self) -> (r: usize)
        ensures
            r == subject_index(*self),
    {
        match self {
            Subject::Politics => 0,
            Subject::Religion => 1,
            Subject::Science => 2,
            Subject::Food => 3,
            Subject::Animals => 4,
            Subject::Sports => 5,
            Subject::Music => 6,
            Subject::Movies => 7,
            Subject::Joke => 8,
            Subject::Technology => 9,
            Subject::Discussion => 10,
            Subject::Personal => 11,
            Subject::Other => 12,
        }
    }

    /// The name of this subject.
    pub fn to_string(&self) -> (r: String)
        ensures
            r@ == subject_name(*self),
    {
        let name = match self {
            Subject::Politics => "Politics",
            Subject::Religion => "Religion",
            Subject::Science => "Science",
            Subject::Food => "Food",
            Subject::Animals => "Animals",
            Subject::Sports => "Sports",
            Subject::Music => "Music",
            Subject::Movies => "Movies",
            Subject::Joke => "Joke",
            Subject::Technology => "Technology",
            Subject::Discussion => "Discussion",
            Subject::Personal => "Personal",
            Subject::Other => "Other",
        };
        name.to_owned()
    }

    /// The subject that the scorer label `label` stands for.
    pub fn from_label(label: &str) -> (r: Result<Subject, AnalysisError>)
        ensures
            is_subject_label(label@) <==> r is Ok,
            r matches Ok(v) ==> v != Subject::Other && subject_label(v) == label@,
            r matches Err(e) ==> e matches AnalysisError::LabelError(s) && s@ == label@,
    {
        proof {
            reveal_strlit("politics");
            reveal_strlit("religion");
            reveal_strlit("science");
            reveal_strlit("food");
            reveal_strlit("animals");
            reveal_strlit("sports");
            reveal_strlit("music");
            reveal_strlit("movies");
            reveal_strlit("joke");
            reveal_strlit("technology");
            reveal_strlit("discussion");
            reveal_strlit("me");
        }
        let r = if same_text(label, "politics") {
            Ok(Subject::Politics)
        } else if same_text(label, "religion") {
            Ok(Subject::Religion)
        } else if same_text(label, "science") {
            Ok(Subject::Science)
        } else if same_text(label, "food") {
            Ok(Subject::Food)
        } else if same_text(label, "animals") {
            Ok(Subject::Animals)
        } else if same_text(label, "sports") {
            Ok(Subject::Sports)
        } else if same_text(label, "music") {
            Ok(Subject::Music)
        } else if same_text(label, "movies") {
            Ok(Subject::Movies)
        } else if same_text(label, "joke") {
            Ok(Subject::Joke)
        } else if same_text(label, "technology") {
            Ok(Subject::Technology)
        } else if same_text(label, "discussion") {
            Ok(Subject::Discussion)
        } else if same_text(label, "me") {
            Ok(Subject::Personal)
        } else {
            assert forall|v: Subject| v != Subject::Other implies subject_label(v) != label@ by {
                match v {
                    _ => {},
                }
            }
            Err(AnalysisError::LabelError(label.to_owned()))
        };
        proof {
            if let Ok(v) = r {
                assert(subject_label(v) == label@);
            }
        }
        r
    }
}

/// Label lookup inverts label naming: the label of a non-fallback attitude
/// names that attitude and no other, so `Attitude::from_label` maps it back.
pub proof fn lemma_attitude_label_round_trip(a: Attitude)
    requires
        a != Attitude::Neutral,
    ensures
        is_attitude_label(attitude_label(a)),
        forall|b: Attitude| b != Attitude::Neutral && #[trigger] attitude_label(b) == attitude_label(a) ==> b == a,
{
    reveal_strlit("question");
    reveal_strlit("praise");
    reveal_strlit("condemnation");
    reveal_strlit("agreement");
    reveal_strlit("complaint");
    reveal_strlit("mocking");
    reveal_strlit("disagreement");
    reveal_strlit("annoyed");
    assert(attitude_label(a) == attitude_label(a));
    assert forall|b: Attitude| b != Attitude::Neutral && #[trigger] attitude_label(b) == attitude_label(a) implies b == a by {
        assert(attitude_label(b).len() == attitude_label(a).len());
        assert(attitude_label(b)[0] == attitude_label(a)[0]);
    }
}

/// Label lookup inverts label naming: the label of a non-fallback subject
/// names that subject and no other, so `Subject::from_label` maps it back.
pub proof fn lemma_subject_label_round_trip(s: Subject)
    requires
        s != Subject::Other,
    ensures
        is_subject_label(subject_label(s)),
        forall|t: Subject| t != Subject::Other && #[trigger] subject_label(t) == subject_label(s) ==> t == s,
{
    reveal_strlit("politics");
    reveal_strlit("religion");
    reveal_strlit("science");
    reveal_strlit("food");
    reveal_strlit("animals");
    reveal_strlit("sports");
    reveal_strlit("music");
    reveal_strlit("movies");
    reveal_strlit("joke");
    reveal_strlit("technology");
    reveal_strlit("discussion");
    reveal_strlit("me");
    assert(subject_label(s) == subject_label(s));
    assert forall|t: Subject| t != Subject::Other && #[trigger] subject_label(t) == subject_label(s) implies t == s by {
        assert(subject_label(t).len() == subject_label(s).len());
        assert(subject_label(t)[0] == subject_label(s)[0]);
    }
}

/// Declaration order numbers the attitudes one to one.
pub proof fn lemma_attitude_index(a: Attitude)
    ensures
        attitude_index(a) < 9,
        attitude_at(attitude_index(a) as int) == a,
        forall|i: int| 0 <= i < 9 ==> attitude_index(#[trigger] attitude_at(i)) == i,
{
}

/// Declaration order numbers the subjects one to one.
pub proof fn lemma_subject_index(s: Subject)
    ensures
        subject_index(s) < 13,
        subject_at(subject_index(s) as int) == s,
        forall|i: int| 0 <= i < 13 ==> subject_index(#[trigger] subject_at(i)) == i,
{
}

} // verus!
