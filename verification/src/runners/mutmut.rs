//! mutmut: mutation testing of Python projects.
use vstd::prelude::*;

use crate::detect::{Language, ProjectInfo};
use crate::files::Files;
use crate::percent;
use crate::percent::Percent;
use crate::plugin::{Layer, TestRunner};
use crate::process;
use crate::process::{ProcessOutput, SubprocessRunner};
use crate::report::{FindingV, LayerMetrics, LayerResult, LayerResultV, LayerStatus, Severity};
use crate::runners::parts;
use crate::runners::python_venv;
use crate::runners::score;
use crate::runners::score::{Candidate, CandidateV, ScoreTexts};
use crate::text;
use crate::time;

verus! {

#[derive(Debug)]
pub struct MutmutRunner {
    pub mutation_threshold: Percent,
}

pub const SKIP: &'static str = "mutmut not installed — run `pip install mutmut` to enable Python mutation testing (target: ≥80%)";

pub const SHOW_HINT: &'static str = "Run `mutmut show <id>` to inspect surviving mutants. Add tests for boundary conditions and branching logic.";

pub const COMPLETE: &'static str = "mutmut run complete — check `.mutmut-cache` for surviving mutants";

pub const INSTALL_HINT: &'static str = "Install: `pip install mutmut` or `uv add --dev mutmut`. Ensure pytest passes before running mutation testing.";

impl Default for MutmutRunner {
    fn default() -> (r: Self)
        ensures
            r.mutation_threshold.bits == percent::EIGHTY,
    {
        MutmutRunner { mutation_threshold: Percent { bits: percent::EIGHTY } }
    }
}

impl TestRunner for MutmutRunner {
    fn name(&self) -> (r: &'static str)
        ensures
            r@ == "mutmut"@,
    {
        "mutmut"
    }

    fn layer(&self) -> (r: Layer)
        ensures
            r == Layer::Structure,
    {
        Layer::Structure
    }

    fn skip_message(&self) -> (r: &'static str)
        ensures
            r@ == SKIP@,
    {
        SKIP
    }
}

// ── output ──────────────────────────────────────────────────────────────────

/// The number in the second word of a line; 0 where there is none.
pub open spec fn line_count(line: Seq<char>) -> u64 {
    let w = text::words_of(line);
    if w.len() > 1 {
        text::number_of(Some(w[1]))
    } else {
        0
    }
}

pub fn extract_count_from_mutmut_line(line: &str) -> (r: u64)
    ensures
        r == line_count(line@),
{
    let w = text::words(line);
    assert(text::views(w@).len() == w@.len());
    if w.len() > 1 {
        assert(text::views(w@)[1] == w@[1]@);
        text::number_or_none(&Some(w[1].clone()))
    } else {
        0
    }
}

/// The counts of killed and surviving mutants after a line, whose upper case is `upper`.
pub open spec fn after_line(upper: Seq<char>, line: Seq<char>, counts: (u64, u64)) -> (u64, u64) {
    if text::begins(upper, "KILLED"@) {
        (line_count(line), counts.1)
    } else if text::begins(upper, "SURVIVED"@) {
        (counts.0, line_count(line))
    } else {
        counts
    }
}

pub fn read_line(upper: &str, line: &str, killed: u64, survived: u64) -> (r: (u64, u64))
    ensures
        r == after_line(upper@, line@, (killed, survived)),
{
    if text::starts_with(upper, "KILLED") {
        (extract_count_from_mutmut_line(line), survived)
    } else if text::starts_with(upper, "SURVIVED") {
        (killed, extract_count_from_mutmut_line(line))
    } else {
        (killed, survived)
    }
}

/// The counts of killed and surviving mutants, as the last lines about them give them.
pub open spec fn mutmut_counts(lines: Seq<Seq<char>>) -> (u64, u64)
    decreases lines.len(),
{
    if lines.len() == 0 {
        (0, 0)
    } else {
        after_line(
            text::uppercase(text::trimmed(lines.last())),
            lines.last(),
            mutmut_counts(lines.drop_last()),
        )
    }
}

/// The lines that may state a percentage.
pub open spec fn pct_lines(lines: Seq<Seq<char>>) -> Seq<Seq<char>> {
    parts::gathered(lines, |l: Seq<char>| pct_line(l))
}

pub open spec fn pct_line(l: Seq<char>) -> Seq<Seq<char>> {
    if text::has(l, "mutants killed"@) {
        seq![l]
    } else {
        Seq::empty()
    }
}

/// Where the score of a run stands.
#[derive(Debug)]
pub enum MutmutScore {
    /// The share of `killed` in `killed` and `survived` together.
    Counts { killed: u64, survived: u64 },
    /// The percentage in the first of these lines that states one.
    Lines(Vec<String>),
}

pub enum MutmutScoreV {
    Counts { killed: u64, survived: u64 },
    Lines(Seq<Seq<char>>),
}

impl View for MutmutScore {
    type V = MutmutScoreV;

    open spec fn view(&self) -> MutmutScoreV {
        match *self {
            MutmutScore::Counts { killed, survived } => MutmutScoreV::Counts { killed, survived },
            MutmutScore::Lines(v) => MutmutScoreV::Lines(text::views(v@)),
        }
    }
}

/// Where the score of an output stands: in its counts, unless both are 0, else in a line.
pub open spec fn score_in(output: Seq<char>) -> MutmutScoreV {
    let lines = text::lines_of(output);
    let (killed, survived) = mutmut_counts(lines);
    if killed > 0 || survived > 0 {
        MutmutScoreV::Counts { killed, survived }
    } else {
        MutmutScoreV::Lines(pct_lines(lines))
    }
}

fn read_counts(lines: &Vec<String>) -> (r: (u64, u64))
    ensures
        r == mutmut_counts(text::views(lines@)),
{
    let ghost all = text::views(lines@);
    let mut counts: (u64, u64) = (0, 0);
    let mut i: usize = 0;
    assert(all.subrange(0, 0) =~= Seq::<Seq<char>>::empty());
    while i < lines.len()
        invariant
            i <= lines@.len(),
            all == text::views(lines@),
            counts == mutmut_counts(all.subrange(0, i as int)),
        decreases lines@.len() - i,
    {
        proof {
            let next = all.subrange(0, i + 1);
            assert(next.drop_last() =~= all.subrange(0, i as int));
            assert(next.last() == lines@[i as int]@);
        }
        let upper = text::trim(lines[i].as_str()).as_str().to_uppercase();
        counts = read_line(upper.as_str(), lines[i].as_str(), counts.0, counts.1);
        i += 1;
    }
    assert(all.subrange(0, i as int) =~= all);
    counts
}

fn select_lines(lines: &Vec<String>) -> (r: Vec<String>)
    ensures
        text::views(r@) == pct_lines(text::views(lines@)),
{
    let ghost all = text::views(lines@);
    let ghost f = |l: Seq<char>| pct_line(l);
    let mut r: Vec<String> = Vec::new();
    let mut i: usize = 0;
    assert(all.subrange(0, 0) =~= Seq::<Seq<char>>::empty());
    assert(text::views(r@) =~= Seq::<Seq<char>>::empty());
    while i < lines.len()
        invariant
            i <= lines@.len(),
            all == text::views(lines@),
            f == (|l: Seq<char>| pct_line(l)),
            text::views(r@) == parts::gathered(all.subrange(0, i as int), f),
        decreases lines@.len() - i,
    {
        proof {
            let next = all.subrange(0, i + 1);
            assert(next.drop_last() =~= all.subrange(0, i as int));
            assert(next.last() == lines@[i as int]@);
        }
        let ghost before = text::views(r@);
        let ghost line = lines@[i as int]@;
        if text::contains(lines[i].as_str(), "mutants killed") {
            r.push(lines[i].clone());
        }
        assert(text::views(r@) =~= before + pct_line(line));
        i += 1;
    }
    assert(all.subrange(0, i as int) =~= all);
    r
}

/// Where the score of an output stands.
pub fn parse_mutmut_results(output: &str) -> (r: MutmutScore)
    ensures
        r@ == score_in(output@),
{
    let lines = text::lines(output);
    let (killed, survived) = read_counts(&lines);
    if killed > 0 || survived > 0 {
        MutmutScore::Counts { killed, survived }
    } else {
        MutmutScore::Lines(select_lines(&lines))
    }
}

/// The text between the first parenthesis and the first percent sign, if they stand in
/// this order.
pub open spec fn pct_text(line: Seq<char>) -> Option<Seq<char>> {
    let a = text::before_len(line, '(');
    let b = text::before_len(line, '%');
    if a < b < line.len() {
        Some(text::trimmed(line.subrange(a + 1, b)))
    } else {
        None
    }
}

/// The text of the percentage in a line, if there is one.
pub fn parse_pct_from_line(line: &str) -> (r: Option<String>)
    ensures
        text::opt_view(r) == pct_text(line@),
{
    proof {
        text::lemma_before_len(line@, '(');
        text::lemma_before_len(line@, '%');
    }
    let front = text::chars(text::before_char(line, '(').as_str()).len();
    let back = text::chars(text::before_char(line, '%').as_str()).len();
    let total = text::chars(line).len();
    if front < back && back < total {
        let inner = text::part(line, front + 1, back);
        Some(text::trim(inner.as_str()))
    } else {
        None
    }
}

/// The percentages that the lines state, in their order.
pub open spec fn line_candidates(lines: Seq<Seq<char>>) -> Seq<CandidateV>
    decreases lines.len(),
{
    if lines.len() == 0 {
        Seq::empty()
    } else {
        let before = line_candidates(lines.drop_last());
        match pct_text(lines.last()) {
            Some(t) => before.push(CandidateV::Text(t)),
            None => before,
        }
    }
}

/// The places where the score may stand.
pub open spec fn score_candidates(s: MutmutScoreV) -> Seq<CandidateV> {
    match s {
        MutmutScoreV::Counts { killed, survived } => seq![
            CandidateV::Counts { hit: killed, missed: survived },
        ],
        MutmutScoreV::Lines(lines) => line_candidates(lines),
    }
}

/// The places where the score may stand: in the counts, or in each line that states a
/// percentage.
pub fn mutmut_candidates(s: &MutmutScore) -> (r: Vec<Candidate>)
    ensures
        score::candidates_view(r@) == score_candidates(s@),
{
    let mut r: Vec<Candidate> = Vec::new();
    match s {
        MutmutScore::Counts { killed, survived } => {
            r.push(Candidate::Counts { hit: *killed, missed: *survived });
            assert(score::candidates_view(r@) =~= score_candidates(s@));
        },
        MutmutScore::Lines(lines) => {
            let ghost all = text::views(lines@);
            let mut i: usize = 0;
            assert(all.subrange(0, 0) =~= Seq::<Seq<char>>::empty());
            assert(score::candidates_view(r@) =~= Seq::<CandidateV>::empty());
            while i < lines.len()
                invariant
                    i <= lines@.len(),
                    all == text::views(lines@),
                    score::candidates_view(r@) == line_candidates(all.subrange(0, i as int)),
                decreases lines@.len() - i,
            {
                let ghost held = r@;
                proof {
                    let next = all.subrange(0, i + 1);
                    assert(next.drop_last() =~= all.subrange(0, i as int));
                    assert(next.last() == lines@[i as int]@);
                }
                if let Some(t) = parse_pct_from_line(lines[i].as_str()) {
                    r.push(Candidate::Text(t));
                    assert(score::candidates_view(r@) =~= score::candidates_view(held).push(
                        CandidateV::Text(t@),
                    ));
                }
                i += 1;
            }
            assert(all.subrange(0, all.len() as int) =~= all);
        },
    }
    r
}

// ── the result ──────────────────────────────────────────────────────────────

/// The findings of a run of `cmd` with a score.
pub open spec fn score_findings(
    cmd: Seq<char>,
    score: Option<Percent>,
    threshold: Percent,
    texts: ScoreTexts,
) -> Seq<FindingV> {
    match score {
        Some(s) => if s.under(threshold) {
            seq![
                parts::found(
                    Severity::High,
                    "LOW_MUTATION_SCORE"@,
                    "Python mutation score is "@ + texts.score@ + "% (target ≥"@ + texts.threshold@
                        + "%) — surviving mutants indicate under-tested logic"@,
                    Some(cmd + " results 2>&1"@),
                    Some(SHOW_HINT@),
                ),
            ]
        } else {
            Seq::empty()
        },
        None => seq![
            parts::found(
                Severity::Info,
                "MUTATION_RUN_COMPLETE"@,
                COMPLETE@,
                Some(cmd + " results 2>&1"@),
                None,
            ),
        ],
    }
}

/// The result of running mutmut as `cmd`, with the score that it gave. `failure` is why it
/// could not be run.
pub open spec fn reported(
    cmd: Seq<char>,
    failure: Option<Seq<char>>,
    score: Option<Percent>,
    threshold: Percent,
    texts: ScoreTexts,
    duration_ms: u64,
) -> LayerResultV {
    match failure {
        None => parts::result_of(
            Layer::Structure,
            "mutmut"@,
            score::lenient_status(score, threshold),
            score_findings(cmd, score, threshold, texts),
            score::scored(score),
            duration_ms,
        ),
        Some(e) => parts::failure_of(
            Layer::Structure,
            "mutmut"@,
            parts::found(
                Severity::Critical,
                "MUTMUT_EXECUTION_FAILED"@,
                "Failed to run mutmut: "@ + e,
                Some(cmd + " run 2>&1"@),
                Some(INSTALL_HINT@),
            ),
            duration_ms,
        ),
    }
}

pub open spec fn run_args() -> Seq<Seq<char>> {
    seq!["run"@]
}

pub open spec fn results_args() -> Seq<Seq<char>> {
    seq!["results"@]
}

/// A run of mutmut: the command, why it could not be run, where its score stands, and how
/// long it took.
#[derive(Debug)]
pub struct MutmutRun {
    pub cmd: String,
    pub failure: Option<String>,
    pub score: Option<MutmutScore>,
    pub duration_ms: u64,
}

/// The run is that of the two outcomes.
pub open spec fn is_run_of(
    r: MutmutRun,
    first: Result<ProcessOutput, String>,
    results: Result<ProcessOutput, String>,
) -> bool {
    match first {
        Ok(_) => r.failure is None && match results {
            Ok(out) => r.score matches Some(s) && s@ == score_in(out.both()),
            Err(_) => r.score is None,
        },
        Err(e) => r.failure == Some(e) && r.score is None,
    }
}

/// `r` is the run of outcomes that running mutmut as `cmd`, and then asking it for its
/// results, can have: the first program takes the runner to a state `mid`, and the second
/// goes on from there. Where mutmut cannot be run nothing is asked.
pub open spec fn is_run<P: SubprocessRunner>(
    before: P,
    after: P,
    cmd: Seq<char>,
    root: Seq<char>,
    r: MutmutRun,
) -> bool {
    exists|
        mid: P,
        first: Result<ProcessOutput, String>,
        results: Result<ProcessOutput, String>,
    |
        #[trigger] before.answers(cmd, run_args(), root, first, mid) && (if first is Ok {
            mid.answers(cmd, results_args(), root, results, after)
        } else {
            after == mid
        }) && #[trigger] is_run_of(r, first, results)
}

impl MutmutRunner {
    pub fn with_threshold(mutation_threshold: Percent) -> (r: Self)
        ensures
            r.mutation_threshold == mutation_threshold,
    {
        MutmutRunner { mutation_threshold }
    }

    pub fn is_available<P: SubprocessRunner>(
        &self,
        proc: &mut P,
        project: &ProjectInfo,
        files: &Files,
    ) -> (r: bool)
        ensures
            if project.language != Language::Python {
                !r && *final(proc) == *old(proc)
            } else if files.has(".venv/bin/"@ + "mutmut"@) {
                r && *final(proc) == *old(proc)
            } else {
                process::is_probed(*old(proc), "mutmut"@, seq!["--version"@], r, *final(proc))
            },
    {
        if project.language != Language::Python {
            return false;
        }
        if python_venv::has_local_tool(files, "mutmut") {
            return true;
        }
        let args = vec!["--version".to_string()];
        assert(text::views(args@) =~= seq!["--version"@]);
        proc.is_available("mutmut", &args)
    }

    /// Runs the tool and asks it for its results. `report_mutmut` makes the result, with the
    /// score that the caller has read.
    pub fn run<P: SubprocessRunner>(&self, proc: &mut P, project: &ProjectInfo, files: &Files) -> (r: MutmutRun)
        ensures
            r.cmd@ == python_venv::tool_command(*files, project.root@, "mutmut"@),
            is_run(*old(proc), *final(proc), r.cmd@, project.root@, r),
    {
        let start = time::started();
        let root = project.root.as_str();
        let cmd = python_venv::local_tool(files, root, "mutmut");
        let args = vec!["run".to_string()];
        assert(text::views(args@) =~= run_args());
        match proc.run(cmd.as_str(), &args, root) {
            Ok(out) => {
                let ghost first = Ok::<ProcessOutput, String>(out);
                let ghost mid = *proc;
                let args = vec!["results".to_string()];
                assert(text::views(args@) =~= results_args());
                let results = proc.run(cmd.as_str(), &args, root);
                let score = match &results {
                    Ok(out) => Some(parse_mutmut_results(out.combined().as_str())),
                    Err(_) => None,
                };
                let duration_ms = time::elapsed_ms(&start);
                let r = MutmutRun { cmd, failure: None, score, duration_ms };
                assert(old(proc).answers(r.cmd@, run_args(), root@, first, mid));
                assert(mid.answers(r.cmd@, results_args(), root@, results, *proc));
                assert(is_run_of(r, first, results));
                r
            },
            Err(e) => {
                let ghost first = Err::<ProcessOutput, String>(e);
                let duration_ms = time::elapsed_ms(&start);
                let r = MutmutRun { cmd, failure: Some(e), score: None, duration_ms };
                assert(old(proc).answers(r.cmd@, run_args(), root@, first, *proc));
                assert(is_run_of(r, first, first));
                r
            },
        }
    }

    /// The result of a run, with the score that it gave.
    pub fn report_mutmut(&self, run: &MutmutRun, score: Option<Percent>, texts: &ScoreTexts) -> (r: LayerResult)
        ensures
            r@ == reported(
                run.cmd@,
                text::opt_view(run.failure),
                score,
                self.mutation_threshold,
                *texts,
                run.duration_ms,
            ),
    {
        match &run.failure {
            None => {
                let again = text::cat(run.cmd.as_str(), " results 2>&1");
                let findings = match score {
                    Some(s) => if s.below(self.mutation_threshold) {
                        let message = text::cat5(
                            "Python mutation score is ",
                            texts.score.as_str(),
                            "% (target ≥",
                            texts.threshold.as_str(),
                            "%) — surviving mutants indicate under-tested logic",
                        );
                        parts::one(
                            parts::finding(
                                Severity::High,
                                "LOW_MUTATION_SCORE",
                                message.as_str(),
                                Some(again.as_str()),
                                Some(SHOW_HINT),
                            ),
                        )
                    } else {
                        parts::nothing()
                    },
                    None => parts::one(
                        parts::finding(
                            Severity::Info,
                            "MUTATION_RUN_COMPLETE",
                            COMPLETE,
                            Some(again.as_str()),
                            None,
                        ),
                    ),
                };
                let metrics = LayerMetrics {
                    tests_run: 0,
                    passed: 0,
                    failed: 0,
                    coverage: None,
                    mutation_score: score,
                };
                parts::layer_result(
                    Layer::Structure,
                    "mutmut",
                    score::status_of_score(score, self.mutation_threshold),
                    findings,
                    metrics,
                    run.duration_ms,
                )
            },
            Some(e) => {
                let message = text::cat("Failed to run mutmut: ", e.as_str());
                let again = text::cat(run.cmd.as_str(), " run 2>&1");
                let f = parts::finding(
                    Severity::Critical,
                    "MUTMUT_EXECUTION_FAILED",
                    message.as_str(),
                    Some(again.as_str()),
                    Some(INSTALL_HINT),
                );
                parts::failure(Layer::Structure, "mutmut", f, run.duration_ms)
            },
        }
    }
}

// ── laws ────────────────────────────────────────────────────────────────────

/// A score that reaches the threshold passes without a finding; one under it is partial,
/// with a high finding. Without a score there is an informational one, and the layer is partial.
pub proof fn law_threshold_decides(
    cmd: Seq<char>,
    score: Option<Percent>,
    threshold: Percent,
    texts: ScoreTexts,
    ms: u64,
    e: Seq<char>,
)
    ensures
        ({
            let r = reported(cmd, None, score, threshold, texts, ms);
            &&& r.name == "structural"@ && r.runner == "mutmut"@ && r.duration_ms == ms
            &&& r.metrics.mutation_score == score
            &&& score matches Some(s) ==> (s.reaches(threshold) ==> r.status == LayerStatus::Pass
                && r.findings.len() == 0)
            &&& score matches Some(s) ==> (s.under(threshold) ==> r.status == LayerStatus::Partial
                && r.findings.len() == 1 && r.findings[0].severity == Severity::High
                && r.findings[0].code == "LOW_MUTATION_SCORE"@)
            &&& score is None ==> r.findings.len() == 1 && r.findings[0].severity == Severity::Info
            &&& score is None ==> r.status == LayerStatus::Partial
        }),
        ({
            let r = reported(cmd, Some(e), score, threshold, texts, ms);
            &&& r.status == LayerStatus::Fail && r.findings.len() == 1 && r.findings[0].severity
                == Severity::Critical && r.metrics.failed == 1 && r.runner == "mutmut"@
        }),
{
}

/// A line that begins with `killed`, in whatever case, states how many mutants were killed
/// in its second word, one that begins with `survived` how many survived; the last of each
/// counts, and other lines state nothing.
pub proof fn law_lines_state_the_counts(
    lines: Seq<Seq<char>>,
    line: Seq<char>,
    n: u64,
    w: Seq<char>,
)
    requires
        text::words_of(line) == seq![w, text::decimal(n as nat)],
    ensures
        text::begins(text::uppercase(text::trimmed(line)), "KILLED"@) ==> mutmut_counts(
            lines.push(line),
        ) == (n, mutmut_counts(lines).1),
        text::begins(text::uppercase(text::trimmed(line)), "SURVIVED"@) ==> mutmut_counts(
            lines.push(line),
        ) == (mutmut_counts(lines).0, n),
        !text::begins(text::uppercase(text::trimmed(line)), "KILLED"@) && !text::begins(
            text::uppercase(text::trimmed(line)),
            "SURVIVED"@,
        ) ==> mutmut_counts(lines.push(line)) == mutmut_counts(lines),
        mutmut_counts(Seq::empty()) == (0u64, 0u64),
{
    assert(lines.push(line).drop_last() =~= lines);
    text::lemma_number_round_trip(n);
    reveal_strlit("KILLED");
    reveal_strlit("SURVIVED");
    let u = text::uppercase(text::trimmed(line));
    if text::begins(u, "KILLED"@) && text::begins(u, "SURVIVED"@) {
        assert(u.subrange(0, 6)[0] == u.subrange(0, 8)[0]);
    }
}

/// The score stands in the counts, unless both are nothing; then in the lines that tell of
/// killed mutants, as the percentage in brackets, the first that is one.
pub proof fn law_where_the_score_stands(output: Seq<char>, killed: u64, survived: u64)
    requires
        mutmut_counts(text::lines_of(output)) == (killed, survived),
    ensures
        killed > 0 || survived > 0 ==> score_candidates(score_in(output)) == seq![
            CandidateV::Counts { hit: killed, missed: survived },
        ],
        killed == 0 && survived == 0 ==> score_candidates(score_in(output)) == line_candidates(
            text::lines_of(output).filter(|l: Seq<char>| text::has(l, "mutants killed"@)),
        ),
{
    lemma_pct_lines(text::lines_of(output));
}

proof fn lemma_pct_lines(lines: Seq<Seq<char>>)
    ensures
        pct_lines(lines) == lines.filter(|l: Seq<char>| text::has(l, "mutants killed"@)),
    decreases lines.len(),
{
    reveal(Seq::filter);
    if lines.len() > 0 {
        lemma_pct_lines(lines.drop_last());
        let front = pct_lines(lines.drop_last());
        assert(front + seq![lines.last()] =~= front.push(lines.last()));
        assert(front + Seq::<Seq<char>>::empty() =~= front);
    }
}

/// The percentage of a line is what stands between its first bracket and its first percent
/// sign, where they stand in this order.
pub proof fn law_percentage_stands_in_brackets(
    front: Seq<char>,
    inner: Seq<char>,
    rest: Seq<char>,
    lines: Seq<Seq<char>>,
)
    requires
        text::lacks(front, '('),
        text::lacks(front, '%'),
        text::lacks(inner, '%'),
    ensures
        pct_text(front + seq!['('] + inner + seq!['%'] + rest) == Some(text::trimmed(inner)),
        line_candidates(lines.push(front + seq!['('] + inner + seq!['%'] + rest))
            == line_candidates(lines).push(CandidateV::Text(text::trimmed(inner))),
        pct_text(front) is None,
        line_candidates(lines.push(front)) == line_candidates(lines),
{
    let line = front + seq!['('] + inner + seq!['%'] + rest;
    text::lemma_before_len_is(line, '(', front.len() as int);
    assert forall|i: int| 0 <= i < front.len() + 1 + inner.len() implies line[i] != '%' by {
        if i < front.len() {
            assert(line[i] == front[i]);
        } else if i > front.len() {
            assert(line[i] == inner[i - front.len() - 1]);
        }
    }
    text::lemma_before_len_is(line, '%', front.len() as int + 1 + inner.len());
    assert(line.subrange(front.len() as int + 1, front.len() as int + 1 + inner.len()) =~= inner);
    text::lemma_before_len_is(front, '%', front.len() as int);
    text::lemma_before_len_is(front, '(', front.len() as int);
    assert(lines.push(line).drop_last() =~= lines);
    assert(lines.push(front).drop_last() =~= lines);
}

/// How the tool is called.
pub proof fn law_arguments_of_the_tool()
    ensures
        run_args() == seq!["run"@],
        results_args() == seq!["results"@],
{
}

/// What is said where the tool cannot be run.
pub proof fn law_what_a_failed_start_says(
    cmd: Seq<char>,
    e: Seq<char>,
    score: Option<Percent>,
    threshold: Percent,
    texts: ScoreTexts,
    ms: u64,
)
    ensures
        ({
            let r = reported(cmd, Some(e), score, threshold, texts, ms);
            &&& r.runner == "mutmut"@ && r.status == LayerStatus::Fail && r.findings.len() == 1
            &&& r.findings[0].severity == Severity::Critical
            &&& r.findings[0].code == "MUTMUT_EXECUTION_FAILED"@
            &&& r.findings[0].message == "Failed to run mutmut: "@ + e
            &&& r.findings[0].reproduce_cmd == Some(cmd + " run 2>&1"@)
        }),
{
}

/// What is said of a low score and of none.
pub proof fn law_what_a_score_says(cmd: Seq<char>, score: Percent, threshold: Percent, texts: ScoreTexts)
    ensures
        score.under(threshold) ==> score_findings(cmd, Some(score), threshold, texts).len() == 1
            && score_findings(cmd, Some(score), threshold, texts)[0].message == "Python mutation score is "@ + texts.score@ + "% (target ≥"@ + texts.threshold@ + "%) — surviving mutants indicate under-tested logic"@
            && score_findings(cmd, Some(score), threshold, texts)[0].reproduce_cmd == Some(cmd + " results 2>&1"@),
        score_findings(cmd, None, threshold, texts).len() == 1 && score_findings(
            cmd, None,
            threshold,
            texts,
        )[0].severity == Severity::Info && score_findings(cmd, None, threshold, texts)[0].code == "MUTATION_RUN_COMPLETE"@
            && score_findings(cmd, None, threshold, texts)[0].reproduce_cmd == Some(cmd + " results 2>&1"@),
{
}

/// A result belongs to the layer and the runner that it is of, whatever came out.
pub proof fn law_where_results_belong(cmd: Seq<char>, failure: Option<Seq<char>>, score: Option<Percent>, threshold: Percent, texts: ScoreTexts, duration_ms: u64)
    ensures
        reported(cmd, failure, score, threshold, texts, duration_ms).name == "structural"@,
        reported(cmd, failure, score, threshold, texts, duration_ms).runner == "mutmut"@,
        reported(cmd, failure, score, threshold, texts, duration_ms).duration_ms == duration_ms,
{
}

} // verus!
