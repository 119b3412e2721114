//! cargo-mutants: mutation testing of Rust projects.
use vstd::prelude::*;

use crate::detect::{Language, ProjectInfo};
use crate::percent;
use crate::percent::Percent;
use crate::plugin::{Layer, TestRunner};
use crate::process;
use crate::process::{ProcessOutput, SubprocessRunner};
use crate::report::{FindingV, LayerMetrics, LayerResult, LayerResultV, LayerStatus, Severity};
use crate::runners::parts;
use crate::runners::score;
use crate::runners::score::{Candidate, CandidateV, ScoreRun, ScoreTexts};
use crate::text;
use crate::time;

verus! {

#[derive(Debug)]
pub struct MutantsRunner {
    pub mutation_threshold: Percent,
    pub timeout_seconds: u32,
}

pub const SKIP: &'static str = "cargo-mutants not installed — run `cargo install cargo-mutants` to enable mutation testing (target: ≥95% mutation score)";

pub const MISSED_HINT: &'static str = "Check mutants.out/missed.txt. Add tests for boundary conditions.";

pub const COMPLETE: &'static str = "Mutation testing completed — check mutants.out/ for details";

impl Default for MutantsRunner {
    fn default() -> (r: Self)
        ensures
            r.mutation_threshold.bits == percent::NINETY_FIVE,
            r.timeout_seconds == 30,
    {
        MutantsRunner {
            mutation_threshold: Percent { bits: percent::NINETY_FIVE },
            timeout_seconds: 30,
        }
    }
}

impl TestRunner for MutantsRunner {
    fn name(&self) -> (r: &'static str)
        ensures
            r@ == "cargo-mutants"@,
    {
        "cargo-mutants"
    }

    fn layer(&self) -> (r: Layer)
        ensures
            r == Layer::Structure,
    {
        Layer::Structure
    }

    fn skip_message(&self) -> (r: &'static str)
        ensures
            r@ == SKIP@,
    {
        SKIP
    }
}

// ── output ──────────────────────────────────────────────────────────────────

pub open spec fn opt_strip_back(s: Option<Seq<char>>, c: char) -> Option<Seq<char>> {
    match s {
        Some(t) => Some(text::strip_back(t, c)),
        None => None,
    }
}

/// The number before `label`, with the commas behind it left aside; 0 where there is none.
pub open spec fn label_count(line: Seq<char>, label: Seq<char>) -> u64 {
    text::number_of(opt_strip_back(text::word_ahead_of(line, label), ','))
}

pub fn count_before_label(line: &str, label: &str) -> (r: u64)
    ensures
        r == label_count(line@, label@),
{
    match text::word_ahead(line, label) {
        Some(w) => text::number_or_none(&Some(text::trim_end_char(w.as_str(), ','))),
        None => 0,
    }
}

/// The scores that a line may give.
pub open spec fn line_candidates(line: Seq<char>) -> Seq<CandidateV> {
    let hit = label_count(line, "caught"@);
    let missed = label_count(line, "missed"@);
    let counts = if text::has(line, "mutants tested"@) && text::has(line, "caught"@) && (hit > 0
        || missed > 0) {
        seq![CandidateV::Counts { hit, missed }]
    } else {
        Seq::empty()
    };
    if text::has(line, "mutation score"@) && line.contains('%') {
        match text::last_word_of(text::before(line, '%')) {
            Some(w) => counts.push(CandidateV::Text(w)),
            None => counts,
        }
    } else {
        counts
    }
}

pub open spec fn candidates_in(lines: Seq<Seq<char>>) -> Seq<CandidateV>
    decreases lines.len(),
{
    if lines.len() == 0 {
        Seq::empty()
    } else {
        candidates_in(lines.drop_last()) + line_candidates(lines.last())
    }
}

/// The scores that an output may give, in order.
pub fn parse_mutation_score(output: &str) -> (r: Vec<Candidate>)
    ensures
        score::candidates_view(r@) == candidates_in(text::lines_of(output@)),
{
    let lines = text::lines(output);
    let ghost all = text::lines_of(output@);
    let mut r: Vec<Candidate> = Vec::new();
    let mut i: usize = 0;
    assert(all.subrange(0, 0) =~= Seq::<Seq<char>>::empty());
    assert(score::candidates_view(r@) =~= Seq::<CandidateV>::empty());
    while i < lines.len()
        invariant
            i <= lines@.len(),
            all == text::views(lines@),
            score::candidates_view(r@) == candidates_in(all.subrange(0, i as int)),
        decreases lines@.len() - i,
    {
        proof {
            let next = all.subrange(0, i + 1);
            assert(next.drop_last() =~= all.subrange(0, i as int));
            assert(next.last() == lines@[i as int]@);
        }
        let ghost before = score::candidates_view(r@);
        let line = lines[i].as_str();
        if text::contains(line, "mutants tested") && text::contains(line, "caught") {
            let hit = count_before_label(line, "caught");
            let missed = count_before_label(line, "missed");
            if hit > 0 || missed > 0 {
                r.push(Candidate::Counts { hit, missed });
            }
        }
        if text::contains(line, "mutation score") && text::contains_char(line, '%') {
            match text::last_word(text::before_char(line, '%').as_str()) {
                Some(w) => {
                    r.push(Candidate::Text(w));
                },
                None => {},
            }
        }
        assert(score::candidates_view(r@) =~= before + line_candidates(line@));
        i += 1;
    }
    assert(all.subrange(0, i as int) =~= all);
    r
}

// ── the result ──────────────────────────────────────────────────────────────

/// The findings of a run with a score.
pub open spec fn score_findings(score: Option<Percent>, threshold: Percent, texts: ScoreTexts) -> Seq<
    FindingV,
> {
    match score {
        Some(s) => if s.under(threshold) {
            seq![
                parts::found(
                    Severity::High,
                    "LOW_MUTATION_SCORE"@,
                    score::survival_message(texts),
                    Some("cargo mutants 2>&1 | tail -20"@),
                    Some(MISSED_HINT@),
                ),
            ]
        } else {
            Seq::empty()
        },
        None => seq![
            parts::found(
                Severity::Info,
                "MUTATION_RUN_COMPLETE"@,
                COMPLETE@,
                Some("cargo mutants 2>&1"@),
                None,
            ),
        ],
    }
}

/// The result of running cargo-mutants, with the score that it gave.
pub open spec fn reported(
    outcome: Result<ProcessOutput, String>,
    score: Option<Percent>,
    threshold: Percent,
    texts: ScoreTexts,
    duration_ms: u64,
) -> LayerResultV {
    match outcome {
        Ok(_) => parts::result_of(
            Layer::Structure,
            "cargo-mutants"@,
            score::lenient_status(score, threshold),
            score_findings(score, threshold, texts),
            score::scored(score),
            duration_ms,
        ),
        Err(e) => parts::failure_of(
            Layer::Structure,
            "cargo-mutants"@,
            parts::found(
                Severity::Critical,
                "MUTATION_EXECUTION_FAILED"@,
                "Failed to run cargo-mutants: "@ + e@,
                Some("cargo mutants 2>&1"@),
                Some("Install: `cargo install cargo-mutants`"@),
            ),
            duration_ms,
        ),
    }
}

pub open spec fn mutants_args(timeout_seconds: u32) -> Seq<Seq<char>> {
    seq!["mutants"@, "--timeout"@, text::decimal(timeout_seconds as nat), "--no-shuffle"@]
}

/// The scores that an outcome may give.
pub open spec fn outcome_candidates(outcome: Result<ProcessOutput, String>) -> Seq<CandidateV> {
    match outcome {
        Ok(out) => candidates_in(text::lines_of(out.both())),
        Err(_) => Seq::empty(),
    }
}

impl MutantsRunner {
    pub fn with_threshold(mutation_threshold: Percent) -> (r: Self)
        ensures
            r.mutation_threshold == mutation_threshold,
            r.timeout_seconds == 30,
    {
        MutantsRunner { mutation_threshold, timeout_seconds: 30 }
    }

    pub fn is_available<P: SubprocessRunner>(&self, proc: &mut P, project: &ProjectInfo) -> (r: bool)
        ensures
            if project.language != Language::Rust {
                !r && *final(proc) == *old(proc)
            } else {
                process::is_probed(*old(proc), "cargo"@, seq!["mutants"@, "--version"@], r, *final(proc))
            },
    {
        if project.language != Language::Rust {
            return false;
        }
        let args = vec!["mutants".to_string(), "--version".to_string()];
        assert(text::views(args@) =~= seq!["mutants"@, "--version"@]);
        proc.is_available("cargo", &args)
    }

    /// Runs the tool. `report_mutants` makes the result, with the score that the caller has
    /// picked among the candidates.
    pub fn run<P: SubprocessRunner>(&self, proc: &mut P, project: &ProjectInfo) -> (r: ScoreRun)
        ensures
            old(proc).answers(
                "cargo"@,
                mutants_args(self.timeout_seconds),
                project.root@,
                r.outcome,
                *final(proc),
            ),
            score::candidates_view(r.candidates@) == outcome_candidates(r.outcome),
    {
        let start = time::started();
        let args = vec![
            "mutants".to_string(),
            "--timeout".to_string(),
            text::number(self.timeout_seconds as u64),
            "--no-shuffle".to_string(),
        ];
        assert(text::views(args@) =~= mutants_args(self.timeout_seconds));
        let outcome = proc.run("cargo", &args, project.root.as_str());
        let duration_ms = time::elapsed_ms(&start);
        let candidates = match &outcome {
            Ok(out) => parse_mutation_score(out.combined().as_str()),
            Err(_) => Vec::new(),
        };
        assert(outcome is Err ==> score::candidates_view(candidates@) =~= Seq::empty());
        ScoreRun { outcome, candidates, duration_ms }
    }

    /// The result of running cargo-mutants, with the score that it gave.
    pub fn report_mutants(
        &self,
        outcome: &Result<ProcessOutput, String>,
        score: Option<Percent>,
        texts: &ScoreTexts,
        duration_ms: u64,
    ) -> (r: LayerResult)
        ensures
            r@ == reported(*outcome, score, self.mutation_threshold, *texts, duration_ms),
    {
        match outcome {
            Ok(_) => {
                let findings = match score {
                    Some(s) => if s.below(self.mutation_threshold) {
                        let message = score::survival_text(texts);
                        parts::one(
                            parts::finding(
                                Severity::High,
                                "LOW_MUTATION_SCORE",
                                message.as_str(),
                                Some("cargo mutants 2>&1 | tail -20"),
                                Some(MISSED_HINT),
                            ),
                        )
                    } else {
                        parts::nothing()
                    },
                    None => parts::one(
                        parts::finding(
                            Severity::Info,
                            "MUTATION_RUN_COMPLETE",
                            COMPLETE,
                            Some("cargo mutants 2>&1"),
                            None,
                        ),
                    ),
                };
                let metrics = LayerMetrics {
                    tests_run: 0,
                    passed: 0,
                    failed: 0,
                    coverage: None,
                    mutation_score: score,
                };
                parts::layer_result(
                    Layer::Structure,
                    "cargo-mutants",
                    score::status_of_score(score, self.mutation_threshold),
                    findings,
                    metrics,
                    duration_ms,
                )
            },
            Err(e) => {
                let message = text::cat("Failed to run cargo-mutants: ", e.as_str());
                let f = parts::finding(
                    Severity::Critical,
                    "MUTATION_EXECUTION_FAILED",
                    message.as_str(),
                    Some("cargo mutants 2>&1"),
                    Some("Install: `cargo install cargo-mutants`"),
                );
                parts::failure(Layer::Structure, "cargo-mutants", f, duration_ms)
            },
        }
    }
}

// ── laws ────────────────────────────────────────────────────────────────────

/// A score that reaches the threshold passes without a finding; one under it is partial,
/// with a high finding. Without a score there is an informational one, and the layer is partial.
pub proof fn law_threshold_decides(
    out: ProcessOutput,
    score: Option<Percent>,
    threshold: Percent,
    texts: ScoreTexts,
    ms: u64,
    e: String,
)
    ensures
        ({
            let r = reported(Ok(out), score, threshold, texts, ms);
            &&& r.name == "structural"@ && r.runner == "cargo-mutants"@ && r.duration_ms == ms
            &&& r.metrics.mutation_score == score
            &&& score matches Some(s) ==> (s.reaches(threshold) ==> r.status == LayerStatus::Pass
                && r.findings.len() == 0)
            &&& score matches Some(s) ==> (s.under(threshold) ==> r.status == LayerStatus::Partial
                && r.findings.len() == 1 && r.findings[0].severity == Severity::High
                && r.findings[0].code == "LOW_MUTATION_SCORE"@)
            &&& score is None ==> r.findings.len() == 1 && r.findings[0].severity == Severity::Info
            &&& score is None ==> r.status == LayerStatus::Partial
        }),
        ({
            let r = reported(Err(e), score, threshold, texts, ms);
            &&& r.status == LayerStatus::Fail && r.findings.len() == 1 && r.findings[0].severity
                == Severity::Critical && r.metrics.failed == 1 && r.runner == "cargo-mutants"@
        }),
{
}

/// A line that tells of tested mutants states how many were caught and missed; one that
/// tells of a score states a percentage. Both are looked at, line by line and in order.
pub proof fn law_lines_state_the_score(lines: Seq<Seq<char>>, line: Seq<char>)
    ensures
        candidates_in(Seq::empty()) == Seq::<CandidateV>::empty(),
        candidates_in(lines.push(line)) == candidates_in(lines) + line_candidates(line),
        text::has(line, "mutants tested"@) && text::has(line, "caught"@) && !text::has(
            line,
            "mutation score"@,
        ) && (label_count(line, "caught"@) > 0 || label_count(line, "missed"@) > 0)
            ==> line_candidates(line) == seq![
            CandidateV::Counts {
                hit: label_count(line, "caught"@),
                missed: label_count(line, "missed"@),
            },
        ],
        !text::has(line, "mutants tested"@) && !text::has(line, "mutation score"@)
            ==> line_candidates(line) == Seq::<CandidateV>::empty(),
        !text::has(line, "mutation score"@) && label_count(line, "caught"@) == 0 && label_count(
            line,
            "missed"@,
        ) == 0 ==> line_candidates(line) == Seq::<CandidateV>::empty(),
        !text::has(line, "mutants tested"@) && text::has(line, "mutation score"@) && line.contains(
            '%',
        ) ==> (text::last_word_of(text::before(line, '%')) matches Some(w) ==> line_candidates(line)
            == seq![CandidateV::Text(w)]),
{
    assert(lines.push(line).drop_last() =~= lines);
    assert(Seq::<CandidateV>::empty().push(CandidateV::Text(Seq::empty())) =~= seq![
        CandidateV::Text(Seq::empty()),
    ]);
    match text::last_word_of(text::before(line, '%')) {
        Some(w) => {
            assert(Seq::<CandidateV>::empty().push(CandidateV::Text(w)) =~= seq![
                CandidateV::Text(w),
            ]);
        },
        None => {},
    }
}

/// A number that stands before a label, with a comma behind it or not, is the one that is
/// counted.
pub proof fn law_labels_are_counted(
    front: Seq<char>,
    n: u64,
    label: Seq<char>,
    rest: Seq<char>,
)
    requires
        front.len() > 0 ==> text::is_space(front.last()),
        forall|j: int|
            0 <= j < front.len() + text::decimal(n as nat).len() + 1 ==> !text::occurs_at(
                front + text::decimal(n as nat) + seq![' '] + label + rest,
                label,
                j,
            ),
    ensures
        label_count(front + text::decimal(n as nat) + seq![' '] + label + rest, label) == n,
{
    let digits = text::decimal(n as nat);
    let ahead = front + digits + seq![' '];
    let line = ahead + label + rest;
    assert(line =~= front + digits + seq![' '] + label + rest);
    text::law_text_is_found(ahead, label, rest);
    text::lemma_find_from(line, label, 0);
    let i = text::find_text(line, label)->0;
    assert(i == ahead.len()) by {
        if i < ahead.len() {
            assert(!text::occurs_at(front + digits + seq![' '] + label + rest, label, i));
        }
    }
    assert(line.subrange(0, i) =~= ahead);
    text::lemma_decimal_reads_back(n as nat);
    text::lemma_number_round_trip(n);
    text::law_last_word_before_space(front, digits);
    assert(text::is_digit(digits[digits.len() - 1]));
    text::lemma_strip_back_is(digits, ',', digits.len() as int);
    assert(digits.subrange(0, digits.len() as int) =~= digits);
}

/// How the tool is called.
pub proof fn law_how_it_is_called(timeout_seconds: u32)
    ensures
        mutants_args(timeout_seconds).len() == 4,
        mutants_args(timeout_seconds)[0] == "mutants"@,
        mutants_args(timeout_seconds)[1] == "--timeout"@,
        mutants_args(timeout_seconds)[2] == text::decimal(timeout_seconds as nat),
        mutants_args(timeout_seconds)[3] == "--no-shuffle"@,
{
}

/// What is said where the tool cannot be run.
pub proof fn law_what_a_failed_start_says(e: String, score: Option<Percent>, threshold: Percent, texts: ScoreTexts, ms: u64)
    ensures
        ({
            let r = reported(Err(e), score, threshold, texts, ms);
            &&& r.runner == "cargo-mutants"@ && r.status == LayerStatus::Fail && r.findings.len() == 1
            &&& r.findings[0].severity == Severity::Critical
            &&& r.findings[0].code == "MUTATION_EXECUTION_FAILED"@
            &&& r.findings[0].message == "Failed to run cargo-mutants: "@ + e@
            &&& r.findings[0].reproduce_cmd == Some("cargo mutants 2>&1"@)
            &&& r.findings[0].suggestion == Some("Install: `cargo install cargo-mutants`"@)
        }),
{
}

/// What is said of a low score and of none.
pub proof fn law_what_a_score_says(score: Percent, threshold: Percent, texts: ScoreTexts)
    ensures
        score.under(threshold) ==> score_findings(Some(score), threshold, texts).len() == 1
            && score_findings(Some(score), threshold, texts)[0].message == score::survival_message(texts)
            && score_findings(Some(score), threshold, texts)[0].reproduce_cmd == Some("cargo mutants 2>&1 | tail -20"@),
        score_findings(None, threshold, texts).len() == 1 && score_findings(
            None,
            threshold,
            texts,
        )[0].severity == Severity::Info && score_findings(None, threshold, texts)[0].code == "MUTATION_RUN_COMPLETE"@
            && score_findings(None, threshold, texts)[0].reproduce_cmd == Some("cargo mutants 2>&1"@),
{
}

/// A number with a comma behind it counts too.
pub proof fn law_commas_do_not_count(front: Seq<char>, n: u64, label: Seq<char>, rest: Seq<char>)
    requires
        front.len() > 0 ==> text::is_space(front.last()),
        forall|j: int|
            0 <= j < front.len() + text::decimal(n as nat).len() + 2 ==> !text::occurs_at(
                front + (text::decimal(n as nat) + seq![',']) + seq![' '] + label + rest,
                label,
                j,
            ),
    ensures
        label_count(
            front + (text::decimal(n as nat) + seq![',']) + seq![' '] + label + rest,
            label,
        ) == n,
{
    let digits = text::decimal(n as nat);
    let word = digits + seq![','];
    let ahead = front + word + seq![' '];
    let line = ahead + label + rest;
    assert(line =~= front + word + seq![' '] + label + rest);
    text::law_text_is_found(ahead, label, rest);
    text::lemma_find_from(line, label, 0);
    let i = text::find_text(line, label)->0;
    assert(i == ahead.len()) by {
        if i < ahead.len() {
            assert(!text::occurs_at(front + word + seq![' '] + label + rest, label, i));
        }
    }
    assert(line.subrange(0, i) =~= ahead);
    text::lemma_decimal_reads_back(n as nat);
    text::lemma_number_round_trip(n);
    assert forall|k: int| 0 <= k < word.len() implies !text::is_space(#[trigger] word[k]) by {
        if k < digits.len() {
            assert(text::is_digit(digits[k]));
        }
    }
    text::law_last_word_before_space(front, word);
    assert(text::is_digit(digits[0]) && text::is_digit(digits[digits.len() - 1]));
    assert(word[0] == digits[0]);
    text::lemma_strip_front_is(word, ',', 0);
    assert(word.subrange(0, word.len() as int) =~= word);
    text::lemma_strip_back_is(word, ',', digits.len() as int);
    assert(word.subrange(0, digits.len() as int) =~= digits);
}

/// A result belongs to the layer and the runner that it is of, whatever came out.
pub proof fn law_where_results_belong(outcome: Result<ProcessOutput, String>, score: Option<Percent>, threshold: Percent, texts: ScoreTexts, duration_ms: u64)
    ensures
        reported(outcome, score, threshold, texts, duration_ms).name == "structural"@,
        reported(outcome, score, threshold, texts, duration_ms).runner == "cargo-mutants"@,
        reported(outcome, score, threshold, texts, duration_ms).duration_ms == duration_ms,
{
}

} // verus!
