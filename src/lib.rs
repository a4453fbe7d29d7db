//! Classification of reply trees: label schemas, the threshold decision rule,
//! the scorer pool's slot arbitration, the progress counter, assembly of the
//! result tree and statistics over classified trees.

mod aggregate;
mod classify;
mod forest;
mod pool;
mod progress;
mod schema;
mod tree;

pub use schema::{
    attitude_agreement, attitude_at, attitude_index, attitude_label, attitude_name,
    attitude_positivity, is_attitude_label, is_subject_label, lemma_attitude_index,
    lemma_attitude_label_round_trip, lemma_subject_index, lemma_subject_label_round_trip,
    subject_at, subject_index, subject_label, subject_name, AnalysisError, Attitude, Subject,
    SCORE_SCALE, THRESHOLD, WEIGHT_SCALE,
};
pub use classify::{
    attitude_decision, attitude_for_label, classify, decide_attitude, decide_subject, decision_failure,
    default_analysis, lemma_top_position, needs_scoring, subject_decision, subject_for_label, top_label,
    top_position, top_score, Analysis, ScoredLabel,
};
pub use tree::{
    assemble_replies, assemble_tree, capped, replies_texts, text_views, tree_texts, tree_views,
    AnalysisTree, AnalyzeSubmission, Comment, Outcome, Post, ScrapeError, Submission,
    SubmissionAnalysis, Subreddit,
};
pub use aggregate::{
    agreeing, agreement_sum, attitude_count, attitude_total, disagreeing, flat, flat_all,
    flatten_forest, greatest_at, is_consensus_attitude, is_consensus_subject,
    lemma_size_matches_flatten, max_weighted, positivity_sum, subject_count, subject_total, Ratio,
};
pub use forest::{
    count_matching, count_meeting, forest_analyses, lemma_cross_tab_additive, lemma_cross_tab_total,
    meets, row_total, table_total, Criterion, Stats, SubredditData,
};
pub use pool::{
    acquire_step, after_miss, after_misses, claim, held_count, lemma_claim_and_release,
    lemma_holders_bounded, lemma_round_visits_every_slot, release, visited_in_round, Attempt,
    Rotation, SlotTable,
};
pub use progress::{count_ok, lemma_progress_order_free, lemma_progress_reaches_size, ProgressCounter};
