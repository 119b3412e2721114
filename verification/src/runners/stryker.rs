//! Stryker: mutation testing of JavaScript projects.
use vstd::prelude::*;

use crate::data;
use crate::data::{Data, DataV};
use crate::detect::{Language, ProjectInfo};
use crate::files::Files;
use crate::percent;
use crate::percent::Percent;
use crate::plugin::{Layer, TestRunner};
use crate::process::{ProcessOutput, SubprocessRunner};
use crate::report;
use crate::report::{Finding, FindingV, LayerMetrics, LayerResult, LayerResultV, LayerStatus, Severity};
use crate::runners::parts;
use crate::runners::score;
use crate::runners::score::{Candidate, CandidateV, ScoreTexts};
use crate::text;
use crate::time;

verus! {

#[derive(Debug)]
pub struct StrykerRunner {
    pub mutation_threshold: Percent,
}

pub const SKIP: &'static str = "Stryker not configured — add `@stryker-mutator/core` and a stryker.config.mjs to enable mutation testing (target: ≥95% mutation score)";

pub const SURVIVORS_HINT: &'static str = "Open reports/mutation/mutation.html to see surviving mutants. Add test cases that specifically target the uncovered conditions.";

pub const NO_SCORE: &'static str = "Stryker ran but could not determine mutation score. Check reports/mutation/.";

impl Default for StrykerRunner {
    fn default() -> (r: Self)
        ensures
            r.mutation_threshold.bits == percent::NINETY_FIVE,
    {
        StrykerRunner { mutation_threshold: Percent { bits: percent::NINETY_FIVE } }
    }
}

impl TestRunner for StrykerRunner {
    fn name(&self) -> (r: &'static str)
        ensures
            r@ == "stryker"@,
    {
        "stryker"
    }

    fn layer(&self) -> (r: Layer)
        ensures
            r == Layer::Structure,
    {
        Layer::Structure
    }

    fn skip_message(&self) -> (r: &'static str)
        ensures
            r@ == SKIP@,
    {
        SKIP
    }
}

// ── the report ──────────────────────────────────────────────────────────────

/// How many mutants were killed, survived, and were not covered.
pub struct MutantsV {
    pub killed: nat,
    pub survived: nat,
    pub uncovered: nat,
}

impl MutantsV {
    pub open spec fn total(self) -> nat {
        self.killed + self.survived + self.uncovered
    }
}

pub open spec fn no_mutants() -> MutantsV {
    MutantsV { killed: 0, survived: 0, uncovered: 0 }
}

/// The counts with one more mutant.
pub open spec fn with_mutant(m: MutantsV, status: Option<Seq<char>>) -> MutantsV {
    match status {
        Some(s) => if s == "Killed"@ || s == "Timeout"@ {
            MutantsV { killed: m.killed + 1, ..m }
        } else if s == "Survived"@ {
            MutantsV { survived: m.survived + 1, ..m }
        } else if s == "NoCoverage"@ {
            MutantsV { uncovered: m.uncovered + 1, ..m }
        } else {
            m
        },
        None => m,
    }
}

/// The counts with the mutants of a file.
pub open spec fn with_mutants(m: MutantsV, mutants: Seq<DataV>) -> MutantsV
    decreases mutants.len(),
{
    if mutants.len() == 0 {
        m
    } else {
        with_mutant(with_mutants(m, mutants.drop_last()), mutants.last().text_at("status"@))
    }
}

/// The counts over some files; none where a file does not list its mutants.
pub open spec fn over_files(files: Seq<(Seq<char>, DataV)>) -> Option<MutantsV>
    decreases files.len(),
{
    if files.len() == 0 {
        Some(no_mutants())
    } else {
        match (over_files(files.drop_last()), files.last().1.list_at("mutants"@)) {
            (Some(m), Some(mutants)) => Some(with_mutants(m, mutants)),
            _ => None,
        }
    }
}

/// The counts in a report, if the document is one.
pub open spec fn mutants_in(doc: DataV) -> Option<MutantsV> {
    match doc.field("files"@) {
        Some(DataV::Fields(files)) => over_files(files),
        _ => None,
    }
}

proof fn lemma_totals_grow(m: MutantsV, mutants: Seq<DataV>, n: int)
    requires
        0 <= n <= mutants.len(),
    ensures
        m.total() <= with_mutants(m, mutants.subrange(0, n)).total() <= with_mutants(
            m,
            mutants,
        ).total(),
    decreases mutants.len(),
{
    if mutants.len() == 0 {
        assert(mutants.subrange(0, n) =~= mutants);
    } else if n == mutants.len() {
        assert(mutants.subrange(0, n) =~= mutants);
        lemma_totals_grow(m, mutants.drop_last(), n - 1);
    } else {
        lemma_totals_grow(m, mutants.drop_last(), n);
        assert(mutants.drop_last().subrange(0, n) =~= mutants.subrange(0, n));
    }
}

proof fn lemma_over_files(files: Seq<(Seq<char>, DataV)>, n: int)
    requires
        0 <= n <= files.len(),
        over_files(files) is Some,
    ensures
        over_files(files.subrange(0, n)) is Some,
        over_files(files.subrange(0, n))->0.total() <= over_files(files)->0.total(),
    decreases files.len(),
{
    if n == files.len() {
        assert(files.subrange(0, n) =~= files);
    } else {
        lemma_over_files(files.drop_last(), n);
        assert(files.drop_last().subrange(0, n) =~= files.subrange(0, n));
        let m = over_files(files.drop_last())->0;
        let mutants = files.last().1.list_at("mutants"@)->0;
        lemma_totals_grow(m, mutants, 0);
        assert(mutants.subrange(0, 0) =~= Seq::<DataV>::empty());
    }
}

/// Counts of mutants.
#[derive(Debug, Clone, Copy)]
pub struct Mutants {
    pub killed: u64,
    pub survived: u64,
    pub uncovered: u64,
}

impl View for Mutants {
    type V = MutantsV;

    open spec fn view(&self) -> MutantsV {
        MutantsV {
            killed: self.killed as nat,
            survived: self.survived as nat,
            uncovered: self.uncovered as nat,
        }
    }
}

/// The counts with the mutants of a file; none where they are too many to count.
fn count_file(from: Mutants, mutants: &Vec<Data>) -> (r: Option<Mutants>)
    requires
        from@.total() <= u64::MAX,
    ensures
        match r {
            Some(m) => m@ == with_mutants(from@, data::trees(mutants@)) && m@.total() <= u64::MAX,
            None => with_mutants(from@, data::trees(mutants@)).total() > u64::MAX,
        },
{
    let ghost all = data::trees(mutants@);
    let mut m = from;
    let mut i: usize = 0;
    assert(all.subrange(0, 0) =~= Seq::<DataV>::empty());
    while i < mutants.len()
        invariant
            i <= mutants@.len(),
            all == data::trees(mutants@),
            m@ == with_mutants(from@, all.subrange(0, i as int)),
            m@.total() <= u64::MAX,
        decreases mutants@.len() - i,
    {
        proof {
            let next = all.subrange(0, i + 1);
            assert(next.drop_last() =~= all.subrange(0, i as int));
            assert(next.last() == mutants@[i as int]@);
        }
        match mutants[i].get_str("status") {
            Some(s) => {
                let killed = text::same(s, "Killed") || text::same(s, "Timeout");
                let survived = text::same(s, "Survived");
                let uncovered = text::same(s, "NoCoverage");
                if killed || survived || uncovered {
                    if m.killed == u64::MAX - m.survived - m.uncovered {
                        proof {
                            lemma_totals_grow(from@, all, i + 1);
                        }
                        return None;
                    }
                    if killed {
                        m.killed = m.killed + 1;
                    } else if survived {
                        m.survived = m.survived + 1;
                    } else {
                        m.uncovered = m.uncovered + 1;
                    }
                }
            },
            None => {},
        }
        i += 1;
    }
    assert(all.subrange(0, i as int) =~= all);
    Some(m)
}

/// The counts in a report; none where the document is no report, or where the mutants are
/// too many to count.
pub fn count_mutants(doc: &Data) -> (r: Option<Mutants>)
    ensures
        match r {
            Some(m) => mutants_in(doc@) == Some(m@) && m@.total() <= u64::MAX,
            None => match mutants_in(doc@) {
                Some(m) => m.total() > u64::MAX,
                None => true,
            },
        },
{
    let files = match doc.get("files") {
        Some(f) => match f.as_object() {
            Some(files) => files,
            None => {
                return None;
            },
        },
        None => {
            return None;
        },
    };
    let ghost all = data::field_trees(files@);
    let mut m = Mutants { killed: 0, survived: 0, uncovered: 0 };
    let mut i: usize = 0;
    assert(all.subrange(0, 0) =~= Seq::<(Seq<char>, DataV)>::empty());
    while i < files.len()
        invariant
            i <= files@.len(),
            all == data::field_trees(files@),
            mutants_in(doc@) == over_files(all),
            over_files(all.subrange(0, i as int)) == Some(m@),
            m@.total() <= u64::MAX,
        decreases files@.len() - i,
    {
        proof {
            let next = all.subrange(0, i + 1);
            assert(next.drop_last() =~= all.subrange(0, i as int));
            assert(next.last().1 == files@[i as int].1@);
            if over_files(all) is Some {
                lemma_over_files(all, i + 1);
            }
        }
        let mutants = match files[i].1.get_array("mutants") {
            Some(v) => v,
            None => {
                return None;
            },
        };
        m = match count_file(m, mutants) {
            Some(next) => next,
            None => {
                return None;
            },
        };
        i += 1;
    }
    assert(all.subrange(0, i as int) =~= all);
    Some(m)
}

/// The score in a report: the share of killed mutants; none where there are no mutants.
pub open spec fn report_candidates(counts: Option<MutantsV>) -> Seq<CandidateV> {
    match counts {
        Some(m) => if 0 < m.total() <= u64::MAX {
            seq![
                CandidateV::Counts {
                    hit: m.killed as u64,
                    missed: (m.survived + m.uncovered) as u64,
                },
            ]
        } else {
            Seq::empty()
        },
        None => Seq::empty(),
    }
}

/// The counts that the text of a report gives.
pub open spec fn counts_in_text(content: Seq<char>) -> Option<MutantsV> {
    match data::json_parsed(content) {
        Some(doc) => mutants_in(doc),
        None => None,
    }
}

/// The score in a report: the share of killed mutants; none where there are no mutants.
pub fn candidates_of_report(doc: &Data) -> (r: Vec<Candidate>)
    ensures
        score::candidates_view(r@) == report_candidates(mutants_in(doc@)),
{
    let mut r: Vec<Candidate> = Vec::new();
    match count_mutants(doc) {
        Some(m) => {
            if m.killed > 0 || m.survived > 0 || m.uncovered > 0 {
                r.push(Candidate::Counts { hit: m.killed, missed: m.survived + m.uncovered });
            }
        },
        None => {},
    }
    assert(score::candidates_view(r@) =~= report_candidates(mutants_in(doc@)));
    r
}

/// The score that the text of a report gives.
pub fn parse_stryker_report(content: &str) -> (r: Vec<Candidate>)
    ensures
        score::candidates_view(r@) == report_candidates(counts_in_text(content@)),
{
    match data::parse_json(content) {
        Some(doc) => candidates_of_report(&doc),
        None => {
            let r: Vec<Candidate> = Vec::new();
            assert(score::candidates_view(r@) =~= Seq::<CandidateV>::empty());
            r
        },
    }
}

// ── output ──────────────────────────────────────────────────────────────────

/// The scores that a line may give.
pub open spec fn line_candidates(line: Seq<char>) -> Seq<CandidateV> {
    let stated = if text::has(line, "Mutation score"@) && line.contains('%') {
        match text::last_word_of(text::before(line, '%')) {
            Some(w) => seq![CandidateV::Final(w)],
            None => Seq::empty(),
        }
    } else {
        Seq::empty()
    };
    if line.contains('(') && line.contains('/') && line.contains(')') {
        match text::first_word_of(line) {
            Some(w) => stated.push(CandidateV::Bounded(w)),
            None => stated,
        }
    } else {
        stated
    }
}

pub open spec fn candidates_in(lines: Seq<Seq<char>>) -> Seq<CandidateV>
    decreases lines.len(),
{
    if lines.len() == 0 {
        Seq::empty()
    } else {
        candidates_in(lines.drop_last()) + line_candidates(lines.last())
    }
}

/// The scores that an output may give, in order.
pub fn parse_stryker_text_output(output: &str) -> (r: Vec<Candidate>)
    ensures
        score::candidates_view(r@) == candidates_in(text::lines_of(output@)),
{
    let lines = text::lines(output);
    let ghost all = text::lines_of(output@);
    let mut r: Vec<Candidate> = Vec::new();
    let mut i: usize = 0;
    assert(all.subrange(0, 0) =~= Seq::<Seq<char>>::empty());
    assert(score::candidates_view(r@) =~= Seq::<CandidateV>::empty());
    while i < lines.len()
        invariant
            i <= lines@.len(),
            all == text::views(lines@),
            score::candidates_view(r@) == candidates_in(all.subrange(0, i as int)),
        decreases lines@.len() - i,
    {
        proof {
            let next = all.subrange(0, i + 1);
            assert(next.drop_last() =~= all.subrange(0, i as int));
            assert(next.last() == lines@[i as int]@);
        }
        let ghost before = score::candidates_view(r@);
        let line = lines[i].as_str();
        if text::contains(line, "Mutation score") && text::contains_char(line, '%') {
            match text::last_word(text::before_char(line, '%').as_str()) {
                Some(w) => {
                    r.push(Candidate::Final(w));
                },
                None => {},
            }
        }
        if text::contains_char(line, '(') && text::contains_char(line, '/') && text::contains_char(
            line,
            ')',
        ) {
            match text::first_word(line) {
                Some(w) => {
                    r.push(Candidate::Bounded(w));
                },
                None => {},
            }
        }
        assert(score::candidates_view(r@) =~= before + line_candidates(line@));
        i += 1;
    }
    assert(all.subrange(0, i as int) =~= all);
    r
}

// ── the result ──────────────────────────────────────────────────────────────

/// The findings of a run with a score.
pub open spec fn score_findings(score: Option<Percent>, threshold: Percent, texts: ScoreTexts) -> Seq<
    FindingV,
> {
    match score {
        Some(s) => if s.reaches(threshold) {
            Seq::empty()
        } else {
            seq![
                parts::found(
                    Severity::High,
                    "LOW_MUTATION_SCORE"@,
                    score::survival_message(texts),
                    Some("npx stryker run"@),
                    Some(SURVIVORS_HINT@),
                ),
            ]
        },
        None => seq![
            parts::found(
                Severity::Info,
                "MUTATION_NO_SCORE"@,
                NO_SCORE@,
                Some("npx stryker run && open reports/mutation/mutation.html"@),
                None,
            ),
        ],
    }
}

pub fn build_stryker_findings(score: Option<Percent>, threshold: Percent, texts: &ScoreTexts) -> (r: Vec<
    Finding,
>)
    ensures
        report::findings_view(r@) == score_findings(score, threshold, *texts),
{
    match score {
        Some(s) => if s.at_least(threshold) {
            parts::nothing()
        } else {
            let message = score::survival_text(texts);
            parts::one(
                parts::finding(
                    Severity::High,
                    "LOW_MUTATION_SCORE",
                    message.as_str(),
                    Some("npx stryker run"),
                    Some(SURVIVORS_HINT),
                ),
            )
        },
        None => parts::one(
            parts::finding(
                Severity::Info,
                "MUTATION_NO_SCORE",
                NO_SCORE,
                Some("npx stryker run && open reports/mutation/mutation.html"),
                None,
            ),
        ),
    }
}

/// The result of running Stryker, with the score that it gave. `pm` is the package manager
/// of the project.
pub open spec fn reported(
    pm: Seq<char>,
    outcome: Result<ProcessOutput, String>,
    score: Option<Percent>,
    threshold: Percent,
    texts: ScoreTexts,
    duration_ms: u64,
) -> LayerResultV {
    match outcome {
        Ok(out) => parts::result_of(
            Layer::Structure,
            "stryker"@,
            score::strict_status(score, threshold, out.success),
            score_findings(score, threshold, texts),
            score::scored(score),
            duration_ms,
        ),
        Err(e) => parts::failure_of(
            Layer::Structure,
            "stryker"@,
            parts::found(
                Severity::Critical,
                "STRYKER_EXECUTION_FAILED"@,
                "Failed to run stryker: "@ + e@,
                Some("npx stryker run"@),
                Some(
                    "Install stryker: `"@ + pm
                        + " add -D @stryker-mutator/core @stryker-mutator/vitest-runner`"@,
                ),
            ),
            duration_ms,
        ),
    }
}

pub open spec fn stryker_args() -> Seq<Seq<char>> {
    seq!["stryker"@, "run"@, "--reporters"@, "json,clear-text"@]
}

/// The scores that a run may give: in its report where there is one, else in its output.
pub open spec fn run_candidates(
    report: Option<Seq<char>>,
    outcome: Result<ProcessOutput, String>,
) -> Seq<CandidateV> {
    match outcome {
        Ok(out) => match report {
            Some(content) => report_candidates(counts_in_text(content)),
            None => candidates_in(text::lines_of(out.both())),
        },
        Err(_) => Seq::empty(),
    }
}

/// The scores that a run may give: in its report where there is one, else in its output.
/// `report` is the text of `reports/mutation/mutation.json` after the run; a report that
/// cannot be read is as good as an empty one.
pub fn stryker_candidates(report: &Option<String>, outcome: &Result<ProcessOutput, String>) -> (r: Vec<
    Candidate,
>)
    ensures
        score::candidates_view(r@) == run_candidates(text::opt_view(*report), *outcome),
{
    match outcome {
        Ok(out) => match report {
            Some(content) => parse_stryker_report(content.as_str()),
            None => parse_stryker_text_output(out.combined().as_str()),
        },
        Err(_) => {
            let r: Vec<Candidate> = Vec::new();
            assert(score::candidates_view(r@) =~= Seq::<CandidateV>::empty());
            r
        },
    }
}

impl StrykerRunner {
    pub fn with_threshold(mutation_threshold: Percent) -> (r: Self)
        ensures
            r.mutation_threshold == mutation_threshold,
    {
        StrykerRunner { mutation_threshold }
    }

    pub fn is_available(&self, project: &ProjectInfo, files: &Files) -> (r: bool)
        ensures
            r == (project.language == Language::TypeScript && (files.has("stryker.conf.json"@)
                || files.has("stryker.config.js"@) || files.has("stryker.config.mjs"@) || files.has(
                "stryker.config.cjs"@,
            ) || text::has(files.content("package.json"@), "@stryker-mutator"@))),
    {
        if project.language != Language::TypeScript {
            return false;
        }
        if files.is_there("stryker.conf.json") || files.is_there("stryker.config.js")
            || files.is_there("stryker.config.mjs") || files.is_there("stryker.config.cjs") {
            return true;
        }
        let pkg = files.read("package.json");
        text::contains(pkg.as_str(), "@stryker-mutator")
    }

    /// Runs the tool, and says how long it took. `report_stryker` makes the result, with the
    /// score that the caller has picked among the candidates.
    pub fn run<P: SubprocessRunner>(&self, proc: &mut P, project: &ProjectInfo) -> (r: (
        Result<ProcessOutput, String>,
        u64,
    ))
        ensures
            old(proc).answers("npx"@, stryker_args(), project.root@, r.0, *final(proc)),
    {
        let start = time::started();
        let args = vec![
            "stryker".to_string(),
            "run".to_string(),
            "--reporters".to_string(),
            "json,clear-text".to_string(),
        ];
        assert(text::views(args@) =~= stryker_args());
        let outcome = proc.run("npx", &args, project.root.as_str());
        let ms = time::elapsed_ms(&start);
        (outcome, ms)
    }

    /// The result of running Stryker, with the score that it gave.
    pub fn report_stryker(
        &self,
        pm: &str,
        outcome: &Result<ProcessOutput, String>,
        score: Option<Percent>,
        texts: &ScoreTexts,
        duration_ms: u64,
    ) -> (r: LayerResult)
        ensures
            r@ == reported(pm@, *outcome, score, self.mutation_threshold, *texts, duration_ms),
    {
        match outcome {
            Ok(out) => {
                let findings = build_stryker_findings(score, self.mutation_threshold, texts);
                let metrics = LayerMetrics {
                    tests_run: 0,
                    passed: 0,
                    failed: 0,
                    coverage: None,
                    mutation_score: score,
                };
                parts::layer_result(
                    Layer::Structure,
                    "stryker",
                    score::status_of_run(score, self.mutation_threshold, out.success),
                    findings,
                    metrics,
                    duration_ms,
                )
            },
            Err(e) => {
                let message = text::cat("Failed to run stryker: ", e.as_str());
                let hint = text::cat3(
                    "Install stryker: `",
                    pm,
                    " add -D @stryker-mutator/core @stryker-mutator/vitest-runner`",
                );
                let f = parts::finding(
                    Severity::Critical,
                    "STRYKER_EXECUTION_FAILED",
                    message.as_str(),
                    Some("npx stryker run"),
                    Some(hint.as_str()),
                );
                parts::failure(Layer::Structure, "stryker", f, duration_ms)
            },
        }
    }
}

// ── laws ────────────────────────────────────────────────────────────────────

/// A score that reaches the threshold passes without a finding; one under it is partial,
/// with a high finding. Without a score there is an informational one, and a run that did not succeed fails.
pub proof fn law_threshold_decides(
    pm: Seq<char>,
    out: ProcessOutput,
    score: Option<Percent>,
    threshold: Percent,
    texts: ScoreTexts,
    ms: u64,
    e: String,
)
    ensures
        ({
            let r = reported(pm, Ok(out), score, threshold, texts, ms);
            &&& r.name == "structural"@ && r.runner == "stryker"@ && r.duration_ms == ms
            &&& r.metrics.mutation_score == score
            &&& score matches Some(s) ==> (s.reaches(threshold) ==> r.status == LayerStatus::Pass
                && r.findings.len() == 0)
            &&& score matches Some(s) ==> (s.under(threshold) ==> r.status == LayerStatus::Partial
                && r.findings.len() == 1 && r.findings[0].severity == Severity::High
                && r.findings[0].code == "LOW_MUTATION_SCORE"@)
            &&& score is None ==> r.findings.len() == 1 && r.findings[0].severity == Severity::Info
            &&& score is None && out.success ==> r.status == LayerStatus::Partial
            &&& score is None && !out.success ==> r.status == LayerStatus::Fail
        }),
        ({
            let r = reported(pm, Err(e), score, threshold, texts, ms);
            &&& r.status == LayerStatus::Fail && r.findings.len() == 1 && r.findings[0].severity
                == Severity::Critical && r.metrics.failed == 1 && r.runner == "stryker"@
        }),
{
}

/// A mutant that was killed or timed out counts as killed, one that survived as survived,
/// one that no test reaches as not covered; any other counts as nothing.
pub proof fn law_each_mutant_counts_once(m: MutantsV, mutants: Seq<DataV>, d: DataV)
    ensures
        ({
            let before = with_mutants(m, mutants);
            let after = with_mutants(m, mutants.push(d));
            let s = d.text_at("status"@);
            &&& s == Some("Killed"@) || s == Some("Timeout"@) ==> after.killed == before.killed + 1
                && after.survived == before.survived && after.uncovered == before.uncovered
            &&& s == Some("Survived"@) ==> after.survived == before.survived + 1 && after.killed
                == before.killed && after.uncovered == before.uncovered
            &&& s == Some("NoCoverage"@) ==> after.uncovered == before.uncovered + 1 && after.killed
                == before.killed && after.survived == before.survived
            &&& s != Some("Killed"@) && s != Some("Timeout"@) && s != Some("Survived"@) && s
                != Some("NoCoverage"@) ==> after == before
        }),
        with_mutants(m, Seq::empty()) == m,
        no_mutants().killed == 0 && no_mutants().survived == 0 && no_mutants().uncovered == 0,
{
    assert(mutants.push(d).drop_last() =~= mutants);
    reveal_strlit("Killed");
    reveal_strlit("Timeout");
    reveal_strlit("Survived");
    reveal_strlit("NoCoverage");
    assert("Survived"@.len() != "Killed"@.len() && "Survived"@.len() != "Timeout"@.len());
    assert("NoCoverage"@.len() != "Killed"@.len() && "NoCoverage"@.len() != "Timeout"@.len());
    assert("NoCoverage"@.len() != "Survived"@.len());
}

/// The mutants of all files are counted; a file that lists none makes the report unusable.
pub proof fn law_all_files_are_counted(
    files: Seq<(Seq<char>, DataV)>,
    file: (Seq<char>, DataV),
    mutants: Seq<DataV>,
)
    ensures
        over_files(Seq::empty()) == Some(no_mutants()),
        file.1.list_at("mutants"@) == Some(mutants) ==> over_files(files.push(file)) == (
        match over_files(files) {
            Some(m) => Some(with_mutants(m, mutants)),
            None => None,
        }),
        file.1.list_at("mutants"@) is None ==> over_files(files.push(file)) is None,
{
    assert(files.push(file).drop_last() =~= files);
}

/// The score of a report is the share of killed mutants in all that were killed, survived
/// or are not covered; a report without mutants has none.
pub proof fn law_killed_mutants_are_the_hits(m: MutantsV)
    requires
        m.killed + m.survived + m.uncovered <= u64::MAX,
    ensures
        m.killed + m.survived + m.uncovered > 0 ==> report_candidates(Some(m)) == seq![
            CandidateV::Counts { hit: m.killed as u64, missed: (m.survived + m.uncovered) as u64 },
        ],
        m.killed + m.survived + m.uncovered == 0 ==> report_candidates(Some(m)) == Seq::<
            CandidateV,
        >::empty(),
        report_candidates(None) == Seq::<CandidateV>::empty(),
{
}

/// The score is read from the report where there is one, else from the output, line by
/// line and in order.
pub proof fn law_report_counts_before_output(
    content: Seq<char>,
    out: ProcessOutput,
    e: String,
    lines: Seq<Seq<char>>,
    line: Seq<char>,
    w: Seq<char>,
)
    ensures
        run_candidates(Some(content), Ok(out)) == report_candidates(counts_in_text(content)),
        run_candidates(None, Ok(out)) == candidates_in(text::lines_of(out.both())),
        run_candidates(Some(content), Err(e)) == Seq::<CandidateV>::empty(),
        candidates_in(Seq::empty()) == Seq::<CandidateV>::empty(),
        candidates_in(lines.push(line)) == candidates_in(lines) + line_candidates(line),
        text::has(line, "Mutation score"@) && line.contains('%') && !line.contains('(')
            && text::last_word_of(text::before(line, '%')) == Some(w) ==> line_candidates(line)
            == seq![CandidateV::Final(w)],
        !text::has(line, "Mutation score"@) && line.contains('(') && line.contains('/')
            && line.contains(')') && text::first_word_of(line) == Some(w) ==> line_candidates(line)
            == seq![CandidateV::Bounded(w)],
{
    assert(lines.push(line).drop_last() =~= lines);
    assert(Seq::<CandidateV>::empty().push(CandidateV::Bounded(w)) =~= seq![
        CandidateV::Bounded(w),
    ]);
}

/// How the tool is called.
pub proof fn law_arguments_of_the_tool()
    ensures
        stryker_args() == seq!["stryker"@, "run"@, "--reporters"@, "json,clear-text"@],
{
}

/// What is said where the tool cannot be run.
pub proof fn law_what_a_failed_start_says(pm: Seq<char>, e: String, score: Option<Percent>, threshold: Percent, texts: ScoreTexts, ms: u64)
    ensures
        ({
            let r = reported(pm, Err(e), score, threshold, texts, ms);
            &&& r.runner == "stryker"@ && r.status == LayerStatus::Fail && r.findings.len() == 1
            &&& r.findings[0].severity == Severity::Critical
            &&& r.findings[0].code == "STRYKER_EXECUTION_FAILED"@
            &&& r.findings[0].message == "Failed to run stryker: "@ + e@
            &&& r.findings[0].reproduce_cmd == Some("npx stryker run"@)
            &&& r.findings[0].suggestion == Some("Install stryker: `"@ + pm + " add -D @stryker-mutator/core @stryker-mutator/vitest-runner`"@)
        }),
{
}

/// What is said of a low score and of none.
pub proof fn law_what_a_score_says(score: Percent, threshold: Percent, texts: ScoreTexts)
    ensures
        score.under(threshold) ==> score_findings(Some(score), threshold, texts).len() == 1
            && score_findings(Some(score), threshold, texts)[0].message == score::survival_message(texts)
            && score_findings(Some(score), threshold, texts)[0].reproduce_cmd == Some("npx stryker run"@),
        score_findings(None, threshold, texts).len() == 1 && score_findings(
            None,
            threshold,
            texts,
        )[0].severity == Severity::Info && score_findings(None, threshold, texts)[0].code == "MUTATION_NO_SCORE"@
            && score_findings(None, threshold, texts)[0].reproduce_cmd == Some("npx stryker run && open reports/mutation/mutation.html"@),
{
}

/// A result belongs to the layer and the runner that it is of, whatever came out.
pub proof fn law_where_results_belong(pm: Seq<char>, outcome: Result<ProcessOutput, String>, score: Option<Percent>, threshold: Percent, texts: ScoreTexts, duration_ms: u64)
    ensures
        reported(pm, outcome, score, threshold, texts, duration_ms).name == "structural"@,
        reported(pm, outcome, score, threshold, texts, duration_ms).runner == "stryker"@,
        reported(pm, outcome, score, threshold, texts, duration_ms).duration_ms == duration_ms,
{
}

} // verus!
