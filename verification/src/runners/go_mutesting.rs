//! go-mutesting: mutation testing of Go projects.
use vstd::prelude::*;

use crate::detect::{Language, ProjectInfo};
use crate::percent;
use crate::percent::Percent;
use crate::plugin::{Layer, TestRunner};
use crate::process::{ProcessOutput, SubprocessRunner};
use crate::report;
use crate::report::{Finding, FindingV, LayerMetrics, LayerResult, LayerResultV, LayerStatus, Severity};
use crate::runners::parts;
use crate::runners::score;
use crate::runners::score::{Candidate, CandidateV, ScoreRun, ScoreTexts};
use crate::text;
use crate::time;

verus! {

#[derive(Debug)]
pub struct GoMutestingRunner {
    pub mutation_threshold: Percent,
}

pub const SKIP: &'static str = "go-mutesting not installed — run `go install github.com/zimmski/go-mutesting/cmd/go-mutesting@latest` to enable mutation testing (target: ≥95% mutation score)";

pub const SURVIVORS_HINT: &'static str = "Add test cases that exercise boundary conditions. Look for survived mutants (operators changed without test failures).";

pub const NO_SCORE: &'static str = "go-mutesting ran but could not determine mutation score";

pub const INSTALL_HINT: &'static str = "Install: `go install github.com/zimmski/go-mutesting/cmd/go-mutesting@latest`";

impl Default for GoMutestingRunner {
    fn default() -> (r: Self)
        ensures
            r.mutation_threshold.bits == percent::NINETY_FIVE,
    {
        GoMutestingRunner { mutation_threshold: Percent { bits: percent::NINETY_FIVE } }
    }
}

impl TestRunner for GoMutestingRunner {
    fn name(&self) -> (r: &'static str)
        ensures
            r@ == "go-mutesting"@,
    {
        "go-mutesting"
    }

    fn layer(&self) -> (r: Layer)
        ensures
            r == Layer::Structure,
    {
        Layer::Structure
    }

    fn skip_message(&self) -> (r: &'static str)
        ensures
            r@ == SKIP@,
    {
        SKIP
    }
}

// ── output ──────────────────────────────────────────────────────────────────

/// The word behind the first word `is`, from position `i` on.
pub open spec fn word_after_is(words: Seq<Seq<char>>, i: int) -> Option<Seq<char>>
    decreases words.len() - i,
{
    if i < 0 || i >= words.len() {
        None
    } else if words[i] == "is"@ {
        if i + 1 < words.len() {
            Some(words[i + 1])
        } else {
            None
        }
    } else {
        word_after_is(words, i + 1)
    }
}

fn find_word_after_is(words: &Vec<String>) -> (r: Option<String>)
    ensures
        text::opt_view(r) == word_after_is(text::views(words@), 0),
{
    let ghost all = text::views(words@);
    let total: usize = words.len();
    let mut i: usize = 0;
    while i < total
        invariant
            i <= total == words@.len(),
            all == text::views(words@),
            word_after_is(all, i as int) == word_after_is(all, 0),
        decreases total - i,
    {
        assert(all[i as int] == words@[i as int]@);
        if text::same(words[i].as_str(), "is") {
            if i < total - 1 {
                assert(all[i + 1] == words@[i + 1]@);
                return Some(words[i + 1].clone());
            }
            return None;
        }
        i += 1;
    }
    None
}

/// The scores that a line may give: a share behind `is`, or a percentage.
pub open spec fn line_candidates(line: Seq<char>) -> Seq<CandidateV> {
    let share = if text::has(line, "mutation score is"@) {
        match word_after_is(text::words_of(line), 0) {
            Some(w) => seq![CandidateV::Share(text::strip_back(w, '('))],
            None => Seq::empty(),
        }
    } else {
        Seq::empty()
    };
    if line.contains('%') && (text::has(line, "PASS"@) || text::has(line, "score"@)) {
        match text::last_word_of(text::before(line, '%')) {
            Some(w) => share.push(CandidateV::Bounded(w)),
            None => share,
        }
    } else {
        share
    }
}

pub open spec fn candidates_in(lines: Seq<Seq<char>>) -> Seq<CandidateV>
    decreases lines.len(),
{
    if lines.len() == 0 {
        Seq::empty()
    } else {
        candidates_in(lines.drop_last()) + line_candidates(lines.last())
    }
}

/// The scores that an output may give, in order.
pub fn parse_go_mutesting_score(output: &str) -> (r: Vec<Candidate>)
    ensures
        score::candidates_view(r@) == candidates_in(text::lines_of(output@)),
{
    let lines = text::lines(output);
    let ghost all = text::lines_of(output@);
    let mut r: Vec<Candidate> = Vec::new();
    let mut i: usize = 0;
    assert(all.subrange(0, 0) =~= Seq::<Seq<char>>::empty());
    assert(score::candidates_view(r@) =~= Seq::<CandidateV>::empty());
    while i < lines.len()
        invariant
            i <= lines@.len(),
            all == text::views(lines@),
            score::candidates_view(r@) == candidates_in(all.subrange(0, i as int)),
        decreases lines@.len() - i,
    {
        proof {
            let next = all.subrange(0, i + 1);
            assert(next.drop_last() =~= all.subrange(0, i as int));
            assert(next.last() == lines@[i as int]@);
        }
        let ghost before = score::candidates_view(r@);
        let line = lines[i].as_str();
        if text::contains(line, "mutation score is") {
            let words = text::words(line);
            match find_word_after_is(&words) {
                Some(w) => {
                    r.push(Candidate::Share(text::trim_end_char(w.as_str(), '(')));
                },
                None => {},
            }
        }
        if text::contains_char(line, '%') && (text::contains(line, "PASS") || text::contains(
            line,
            "score",
        )) {
            match text::last_word(text::before_char(line, '%').as_str()) {
                Some(w) => {
                    r.push(Candidate::Bounded(w));
                },
                None => {},
            }
        }
        assert(score::candidates_view(r@) =~= before + line_candidates(line@));
        i += 1;
    }
    assert(all.subrange(0, i as int) =~= all);
    r
}

// ── the result ──────────────────────────────────────────────────────────────

/// The findings of a run with a score.
pub open spec fn score_findings(score: Option<Percent>, threshold: Percent, texts: ScoreTexts) -> Seq<
    FindingV,
> {
    match score {
        Some(s) => if s.reaches(threshold) {
            Seq::empty()
        } else {
            seq![
                parts::found(
                    Severity::High,
                    "LOW_MUTATION_SCORE"@,
                    score::survival_message(texts),
                    Some("go-mutesting ./... 2>&1 | grep FAIL"@),
                    Some(SURVIVORS_HINT@),
                ),
            ]
        },
        None => seq![
            parts::found(
                Severity::Info,
                "MUTATION_NO_SCORE"@,
                NO_SCORE@,
                Some("go-mutesting ./... 2>&1"@),
                None,
            ),
        ],
    }
}

pub fn build_findings(score: Option<Percent>, threshold: Percent, texts: &ScoreTexts) -> (r: Vec<Finding>)
    ensures
        report::findings_view(r@) == score_findings(score, threshold, *texts),
{
    match score {
        Some(s) => if s.at_least(threshold) {
            parts::nothing()
        } else {
            let message = score::survival_text(texts);
            parts::one(
                parts::finding(
                    Severity::High,
                    "LOW_MUTATION_SCORE",
                    message.as_str(),
                    Some("go-mutesting ./... 2>&1 | grep FAIL"),
                    Some(SURVIVORS_HINT),
                ),
            )
        },
        None => parts::one(
            parts::finding(
                Severity::Info,
                "MUTATION_NO_SCORE",
                NO_SCORE,
                Some("go-mutesting ./... 2>&1"),
                None,
            ),
        ),
    }
}

/// The result of running go-mutesting, with the score that it gave.
pub open spec fn reported(
    outcome: Result<ProcessOutput, String>,
    score: Option<Percent>,
    threshold: Percent,
    texts: ScoreTexts,
    duration_ms: u64,
) -> LayerResultV {
    match outcome {
        Ok(out) => parts::result_of(
            Layer::Structure,
            "go-mutesting"@,
            score::strict_status(score, threshold, out.success),
            score_findings(score, threshold, texts),
            score::scored(score),
            duration_ms,
        ),
        Err(e) => parts::failure_of(
            Layer::Structure,
            "go-mutesting"@,
            parts::found(
                Severity::Critical,
                "GO_MUTESTING_FAILED"@,
                "Failed to run go-mutesting: "@ + e@,
                Some("go-mutesting ./... 2>&1"@),
                Some(INSTALL_HINT@),
            ),
            duration_ms,
        ),
    }
}

pub open spec fn help_args() -> Seq<Seq<char>> {
    seq!["--help"@]
}

pub open spec fn mutesting_args() -> Seq<Seq<char>> {
    seq!["./..."@]
}

/// The scores that an outcome may give.
pub open spec fn outcome_candidates(outcome: Result<ProcessOutput, String>) -> Seq<CandidateV> {
    match outcome {
        Ok(out) => candidates_in(text::lines_of(out.both())),
        Err(_) => Seq::empty(),
    }
}

impl GoMutestingRunner {
    pub fn with_threshold(mutation_threshold: Percent) -> (r: Self)
        ensures
            r.mutation_threshold == mutation_threshold,
    {
        GoMutestingRunner { mutation_threshold }
    }

    /// Whether the tool can be run at all: asked for help it succeeds or not, but there it
    /// is.
    pub fn is_available<P: SubprocessRunner>(&self, proc: &mut P, project: &ProjectInfo) -> (r: bool)
        ensures
            if project.language != Language::Go {
                !r && *final(proc) == *old(proc)
            } else {
                exists|o: Result<ProcessOutput, String>| #[trigger]
                    old(proc).answers("go-mutesting"@, help_args(), "."@, o, *final(proc)) && r == (
                    o is Ok)
            },
    {
        if project.language != Language::Go {
            return false;
        }
        let args = vec!["--help".to_string()];
        assert(text::views(args@) =~= help_args());
        let outcome = proc.run("go-mutesting", &args, ".");
        let r = outcome.is_ok();
        assert(old(proc).answers("go-mutesting"@, help_args(), "."@, outcome, *proc));
        r
    }

    /// Runs the tool. `report_go_mutesting` makes the result, with the score that the caller
    /// has picked among the candidates.
    pub fn run<P: SubprocessRunner>(&self, proc: &mut P, project: &ProjectInfo) -> (r: ScoreRun)
        ensures
            old(proc).answers(
                "go-mutesting"@,
                mutesting_args(),
                project.root@,
                r.outcome,
                *final(proc),
            ),
            score::candidates_view(r.candidates@) == outcome_candidates(r.outcome),
    {
        let start = time::started();
        let args = vec!["./...".to_string()];
        assert(text::views(args@) =~= mutesting_args());
        let outcome = proc.run("go-mutesting", &args, project.root.as_str());
        let duration_ms = time::elapsed_ms(&start);
        let candidates = match &outcome {
            Ok(out) => parse_go_mutesting_score(out.combined().as_str()),
            Err(_) => Vec::new(),
        };
        assert(outcome is Err ==> score::candidates_view(candidates@) =~= Seq::empty());
        ScoreRun { outcome, candidates, duration_ms }
    }

    /// The result of running go-mutesting, with the score that it gave.
    pub fn report_go_mutesting(
        &self,
        outcome: &Result<ProcessOutput, String>,
        score: Option<Percent>,
        texts: &ScoreTexts,
        duration_ms: u64,
    ) -> (r: LayerResult)
        ensures
            r@ == reported(*outcome, score, self.mutation_threshold, *texts, duration_ms),
    {
        match outcome {
            Ok(out) => {
                let findings = build_findings(score, self.mutation_threshold, texts);
                let metrics = LayerMetrics {
                    tests_run: 0,
                    passed: 0,
                    failed: 0,
                    coverage: None,
                    mutation_score: score,
                };
                parts::layer_result(
                    Layer::Structure,
                    "go-mutesting",
                    score::status_of_run(score, self.mutation_threshold, out.success),
                    findings,
                    metrics,
                    duration_ms,
                )
            },
            Err(e) => {
                let message = text::cat("Failed to run go-mutesting: ", e.as_str());
                let f = parts::finding(
                    Severity::Critical,
                    "GO_MUTESTING_FAILED",
                    message.as_str(),
                    Some("go-mutesting ./... 2>&1"),
                    Some(INSTALL_HINT),
                );
                parts::failure(Layer::Structure, "go-mutesting", f, duration_ms)
            },
        }
    }
}

// ── laws ────────────────────────────────────────────────────────────────────

/// A score that reaches the threshold passes without a finding; one under it is partial,
/// with a high finding. Without a score there is an informational one, and a run that did not succeed fails.
pub proof fn law_threshold_decides(
    out: ProcessOutput,
    score: Option<Percent>,
    threshold: Percent,
    texts: ScoreTexts,
    ms: u64,
    e: String,
)
    ensures
        ({
            let r = reported(Ok(out), score, threshold, texts, ms);
            &&& r.name == "structural"@ && r.runner == "go-mutesting"@ && r.duration_ms == ms
            &&& r.metrics.mutation_score == score
            &&& score matches Some(s) ==> (s.reaches(threshold) ==> r.status == LayerStatus::Pass
                && r.findings.len() == 0)
            &&& score matches Some(s) ==> (s.under(threshold) ==> r.status == LayerStatus::Partial
                && r.findings.len() == 1 && r.findings[0].severity == Severity::High
                && r.findings[0].code == "LOW_MUTATION_SCORE"@)
            &&& score is None ==> r.findings.len() == 1 && r.findings[0].severity == Severity::Info
            &&& score is None && out.success ==> r.status == LayerStatus::Partial
            &&& score is None && !out.success ==> r.status == LayerStatus::Fail
        }),
        ({
            let r = reported(Err(e), score, threshold, texts, ms);
            &&& r.status == LayerStatus::Fail && r.findings.len() == 1 && r.findings[0].severity
                == Severity::Critical && r.metrics.failed == 1 && r.runner == "go-mutesting"@
        }),
{
}

/// A line that tells of the mutation score states it as a share behind `is`; one with a
/// percent sign may state a percentage. Both are looked at, line by line and in order.
pub proof fn law_lines_state_the_score(lines: Seq<Seq<char>>, line: Seq<char>, w: Seq<char>)
    ensures
        candidates_in(Seq::empty()) == Seq::<CandidateV>::empty(),
        candidates_in(lines.push(line)) == candidates_in(lines) + line_candidates(line),
        text::has(line, "mutation score is"@) && !line.contains('%') && word_after_is(
            text::words_of(line),
            0,
        ) == Some(w) ==> line_candidates(line) == seq![CandidateV::Share(text::strip_back(w, '('))],
        !text::has(line, "mutation score is"@) && line.contains('%') && (text::has(line, "PASS"@)
            || text::has(line, "score"@)) && text::last_word_of(text::before(line, '%')) == Some(w)
            ==> line_candidates(line) == seq![CandidateV::Bounded(w)],
        !text::has(line, "mutation score is"@) && !line.contains('%') ==> line_candidates(line)
            == Seq::<CandidateV>::empty(),
{
    assert(lines.push(line).drop_last() =~= lines);
    assert(Seq::<CandidateV>::empty().push(CandidateV::Bounded(w)) =~= seq![
        CandidateV::Bounded(w),
    ]);
}

/// The share is the word behind the first `is`.
pub proof fn law_share_stands_behind_is(words: Seq<Seq<char>>, i: int)
    requires
        0 <= i < words.len() - 1,
        words[i] == "is"@,
        forall|k: int| 0 <= k < i ==> #[trigger] words[k] != "is"@,
    ensures
        word_after_is(words, 0) == Some(words[i + 1]),
{
    lemma_is_at(words, 0, i);
}

proof fn lemma_is_at(words: Seq<Seq<char>>, from: int, i: int)
    requires
        0 <= from <= i < words.len(),
        words[i] == "is"@,
        forall|k: int| from <= k < i ==> #[trigger] words[k] != "is"@,
    ensures
        word_after_is(words, from) == word_after_is(words, i),
    decreases i - from,
{
    if from < i {
        assert(words[from] != "is"@);
        lemma_is_at(words, from + 1, i);
    }
}

/// How the tool is called.
pub proof fn law_arguments_of_the_tool()
    ensures
        help_args() == seq!["--help"@],
        mutesting_args() == seq!["./..."@],
{
}

/// What is said where the tool cannot be run.
pub proof fn law_what_a_failed_start_says(e: String, score: Option<Percent>, threshold: Percent, texts: ScoreTexts, ms: u64)
    ensures
        ({
            let r = reported(Err(e), score, threshold, texts, ms);
            &&& r.runner == "go-mutesting"@ && r.status == LayerStatus::Fail && r.findings.len() == 1
            &&& r.findings[0].severity == Severity::Critical
            &&& r.findings[0].code == "GO_MUTESTING_FAILED"@
            &&& r.findings[0].message == "Failed to run go-mutesting: "@ + e@
            &&& r.findings[0].reproduce_cmd == Some("go-mutesting ./... 2>&1"@)
        }),
{
}

/// What is said of a low score and of none.
pub proof fn law_what_a_score_says(score: Percent, threshold: Percent, texts: ScoreTexts)
    ensures
        score.under(threshold) ==> score_findings(Some(score), threshold, texts).len() == 1
            && score_findings(Some(score), threshold, texts)[0].message == score::survival_message(texts)
            && score_findings(Some(score), threshold, texts)[0].reproduce_cmd == Some("go-mutesting ./... 2>&1 | grep FAIL"@),
        score_findings(None, threshold, texts).len() == 1 && score_findings(
            None,
            threshold,
            texts,
        )[0].severity == Severity::Info && score_findings(None, threshold, texts)[0].code == "MUTATION_NO_SCORE"@
            && score_findings(None, threshold, texts)[0].reproduce_cmd == Some("go-mutesting ./... 2>&1"@),
{
}

/// A result belongs to the layer and the runner that it is of, whatever came out.
pub proof fn law_where_results_belong(outcome: Result<ProcessOutput, String>, score: Option<Percent>, threshold: Percent, texts: ScoreTexts, duration_ms: u64)
    ensures
        reported(outcome, score, threshold, texts, duration_ms).name == "structural"@,
        reported(outcome, score, threshold, texts, duration_ms).runner == "go-mutesting"@,
        reported(outcome, score, threshold, texts, duration_ms).duration_ms == duration_ms,
{
}

} // verus!
