//! Mutation scores: where an output may give one, and what comes of it.
//!
//! The texts and shares of an output are turned into percentages by the caller; which of
//! them is the score is decided here.
use vstd::prelude::*;

use crate::percent;
use crate::percent::Percent;
use crate::process::ProcessOutput;
use crate::report::{LayerMetrics, LayerStatus};
use crate::text;

verus! {

/// A place in an output where a score may stand.
#[derive(Debug)]
#[allow(inconsistent_fields)]
pub enum Candidate {
    /// The share of `hit` in `hit` and `missed` together. It is the score.
    Counts { hit: u64, missed: u64 },
    /// A percentage. It is the score where the text is a number.
    Text(String),
    /// A percentage. It is the score where the text is a number of at most 100.
    Bounded(String),
    /// A percentage. There is no other score, also where the text is no number.
    Final(String),
    /// A share of one. A hundred times it is the score, where the text is a number.
    Share(String),
}

/// The model of a `Candidate`.
pub enum CandidateV {
    Counts { hit: u64, missed: u64 },
    Text(Seq<char>),
    Bounded(Seq<char>),
    Final(Seq<char>),
    Share(Seq<char>),
}

impl View for Candidate {
    type V = CandidateV;

    open spec fn view(&self) -> CandidateV {
        match *self {
            Candidate::Counts { hit, missed } => CandidateV::Counts { hit, missed },
            Candidate::Text(s) => CandidateV::Text(s@),
            Candidate::Bounded(s) => CandidateV::Bounded(s@),
            Candidate::Final(s) => CandidateV::Final(s@),
            Candidate::Share(s) => CandidateV::Share(s@),
        }
    }
}

/// The models of a list of candidates.
pub open spec fn candidates_view(v: Seq<Candidate>) -> Seq<CandidateV> {
    v.map_values(|c: Candidate| c@)
}

/// The candidate, with the number that its text is, ends the search for a score.
pub open spec fn is_settled(c: CandidateV, value: Option<Percent>) -> bool {
    match c {
        CandidateV::Counts { .. } => true,
        CandidateV::Final(_) => true,
        CandidateV::Text(_) => value is Some,
        CandidateV::Share(_) => value is Some,
        CandidateV::Bounded(_) => match value {
            Some(v) => (Percent { bits: percent::HUNDRED }).reaches(v),
            None => false,
        },
    }
}

pub fn settled(c: &Candidate, value: Option<Percent>) -> (r: bool)
    ensures
        r == is_settled(c@, value),
{
    match c {
        Candidate::Counts { .. } => true,
        Candidate::Final(_) => true,
        Candidate::Text(_) => value.is_some(),
        Candidate::Share(_) => value.is_some(),
        Candidate::Bounded(_) => match value {
            Some(v) => (Percent { bits: percent::HUNDRED }).at_least(v),
            None => false,
        },
    }
}

/// The value of the first candidate that ends the search, from position `i` on.
pub open spec fn score_from(
    candidates: Seq<CandidateV>,
    values: Seq<Option<Percent>>,
    i: int,
) -> Option<Percent>
    decreases candidates.len() - i,
{
    if i < 0 || i >= candidates.len() || i >= values.len() {
        None
    } else if is_settled(candidates[i], values[i]) {
        values[i]
    } else {
        score_from(candidates, values, i + 1)
    }
}

/// The score, by the values that the candidates have.
pub fn pick(candidates: &Vec<Candidate>, values: &Vec<Option<Percent>>) -> (r: Option<Percent>)
    ensures
        r == score_from(candidates_view(candidates@), values@, 0),
{
    let ghost all = candidates_view(candidates@);
    let mut i: usize = 0;
    while i < candidates.len() && i < values.len()
        invariant
            i <= candidates@.len(),
            all == candidates_view(candidates@),
            score_from(all, values@, i as int) == score_from(all, values@, 0),
        decreases candidates@.len() - i,
    {
        assert(all[i as int] == candidates@[i as int]@);
        if settled(&candidates[i], values[i]) {
            return values[i];
        }
        i += 1;
    }
    None
}

/// What comes after the first candidate that ends the search does not matter.
pub proof fn law_first_score_counts(
    candidates: Seq<CandidateV>,
    more: Seq<CandidateV>,
    values: Seq<Option<Percent>>,
    others: Seq<Option<Percent>>,
    n: int,
)
    requires
        candidates.len() == values.len(),
        more.len() == others.len(),
        0 <= n < candidates.len(),
        is_settled(candidates[n], values[n]),
        forall|k: int| 0 <= k < n ==> !is_settled(#[trigger] candidates[k], values[k]),
    ensures
        score_from(candidates + more, values + others, 0) == values[n],
{
    lemma_skips(candidates + more, values + others, 0, n);
}

proof fn lemma_skips(c: Seq<CandidateV>, v: Seq<Option<Percent>>, i: int, n: int)
    requires
        0 <= i <= n < c.len(),
        n < v.len(),
        forall|k: int| i <= k < n ==> !is_settled(#[trigger] c[k], v[k]),
    ensures
        score_from(c, v, i) == score_from(c, v, n),
    decreases n - i,
{
    if i < n {
        assert(!is_settled(c[i], v[i]));
        lemma_skips(c, v, i + 1, n);
    }
}

/// A score and its threshold, as a message shows them.
#[derive(Debug)]
pub struct ScoreTexts {
    /// The score, with one decimal.
    pub score: String,
    /// The threshold, without decimals.
    pub threshold: String,
    /// What the score leaves of a hundred, with one decimal.
    pub survived: String,
}

/// "Mutation score is ... of mutants survived".
pub open spec fn survival_message(t: ScoreTexts) -> Seq<char> {
    "Mutation score is "@ + t.score@ + "% (target ≥"@ + t.threshold@ + "%) — "@ + t.survived@
        + "% of mutants survived"@
}

pub fn survival_text(t: &ScoreTexts) -> (r: String)
    ensures
        r@ == survival_message(*t),
{
    let head = text::cat5(
        "Mutation score is ",
        t.score.as_str(),
        "% (target ≥",
        t.threshold.as_str(),
        "%) — ",
    );
    text::cat3(head.as_str(), t.survived.as_str(), "% of mutants survived")
}

/// The metrics of a run with a score.
pub open spec fn scored(score: Option<Percent>) -> LayerMetrics {
    LayerMetrics { tests_run: 0, passed: 0, failed: 0, coverage: None, mutation_score: score }
}

/// A run of a mutation tool: its outcome, where it may give a score, and its duration.
#[derive(Debug)]
pub struct ScoreRun {
    pub outcome: Result<ProcessOutput, String>,
    pub candidates: Vec<Candidate>,
    pub duration_ms: u64,
}

/// The status where a run without a score counts as partial.
pub open spec fn lenient_status(score: Option<Percent>, threshold: Percent) -> LayerStatus {
    match score {
        Some(s) => if s.reaches(threshold) {
            LayerStatus::Pass
        } else {
            LayerStatus::Partial
        },
        None => LayerStatus::Partial,
    }
}

pub fn status_of_score(score: Option<Percent>, threshold: Percent) -> (r: LayerStatus)
    ensures
        r == lenient_status(score, threshold),
{
    match score {
        Some(s) => if s.at_least(threshold) {
            LayerStatus::Pass
        } else {
            LayerStatus::Partial
        },
        None => LayerStatus::Partial,
    }
}

/// The status where a run that failed without a score counts as failed.
pub open spec fn strict_status(score: Option<Percent>, threshold: Percent, success: bool) -> LayerStatus {
    if score is None && !success {
        LayerStatus::Fail
    } else {
        lenient_status(score, threshold)
    }
}

pub fn status_of_run(score: Option<Percent>, threshold: Percent, success: bool) -> (r: LayerStatus)
    ensures
        r == strict_status(score, threshold, success),
{
    if score.is_none() && !success {
        LayerStatus::Fail
    } else {
        status_of_score(score, threshold)
    }
}

/// A lower threshold passes whatever a higher one passes.
pub proof fn law_lower_thresholds_pass_more(score: Option<Percent>, low: Percent, high: Percent)
    requires
        high.reaches(low),
        lenient_status(score, high) == LayerStatus::Pass,
    ensures
        lenient_status(score, low) == LayerStatus::Pass,
{
}

/// A score that reaches the threshold passes; one under it, or none, leaves the layer
/// partial, and none of a run that did not succeed fails it.
pub proof fn law_threshold_decides(score: Option<Percent>, threshold: Percent, success: bool)
    ensures
        score matches Some(s) ==> (s.reaches(threshold) ==> lenient_status(score, threshold)
            == LayerStatus::Pass && strict_status(score, threshold, success) == LayerStatus::Pass),
        score matches Some(s) ==> (s.under(threshold) ==> lenient_status(score, threshold)
            == LayerStatus::Partial && strict_status(score, threshold, success)
            == LayerStatus::Partial),
        score is None ==> lenient_status(score, threshold) == LayerStatus::Partial,
        score is None && success ==> strict_status(score, threshold, success)
            == LayerStatus::Partial,
        score is None && !success ==> strict_status(score, threshold, success)
            == LayerStatus::Fail,
        scored(score).mutation_score == score,
        scored(score).coverage is None,
        scored(score).failed == 0,
{
}

/// Counts and final texts end the search for a score; a text does where it is a number, a
/// bounded one where the number is at most a hundred.
pub proof fn law_what_ends_the_search(t: Seq<char>, hit: u64, missed: u64, v: Percent)
    ensures
        is_settled(CandidateV::Counts { hit, missed }, None),
        is_settled(CandidateV::Final(t), None),
        !is_settled(CandidateV::Text(t), None) && is_settled(CandidateV::Text(t), Some(v)),
        !is_settled(CandidateV::Share(t), None) && is_settled(CandidateV::Share(t), Some(v)),
        !is_settled(CandidateV::Bounded(t), None),
        v.bits <= 0x4059_0000_0000_0000 ==> is_settled(CandidateV::Bounded(t), Some(v)),
        0x4059_0000_0000_0000 < v.bits <= 0x7ff0_0000_0000_0000 ==> !is_settled(
            CandidateV::Bounded(t),
            Some(v),
        ),
{
}

/// Without a candidate that ends the search there is no score.
pub proof fn law_nothing_settled_is_no_score(
    candidates: Seq<CandidateV>,
    values: Seq<Option<Percent>>,
    i: int,
)
    requires
        0 <= i,
        candidates.len() == values.len(),
        forall|k: int| 0 <= k < candidates.len() ==> !is_settled(#[trigger] candidates[k], values[k]),
    ensures
        score_from(candidates, values, i) is None,
    decreases candidates.len() - i,
{
    if i < candidates.len() {
        assert(!is_settled(candidates[i], values[i]));
        law_nothing_settled_is_no_score(candidates, values, i + 1);
    }
}

/// What is said of mutants that survived.
pub proof fn law_what_survivors_are_told_as(t: ScoreTexts)
    ensures
        survival_message(t) == "Mutation score is "@ + t.score@ + "% (target ≥"@ + t.threshold@
            + "%) — "@ + t.survived@ + "% of mutants survived"@,
{
}

} // verus!
