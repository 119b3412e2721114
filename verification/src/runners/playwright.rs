//! Playwright: tests from end to end.
use vstd::prelude::*;

use crate::data;
use crate::data::{Data, DataV};
use crate::detect::{Language, ProjectInfo};
use crate::files::Files;
use crate::plugin::{Layer, TestRunner};
use crate::process::{ProcessOutput, SubprocessRunner};
use crate::report::{LayerMetrics, LayerResult, LayerResultV, LayerStatus, Severity};
use crate::runners::parts;
use crate::text;
use crate::time;

verus! {

#[derive(Debug, Default)]
pub struct PlaywrightRunner;

pub const SKIP: &'static str = "playwright not found — run `npx playwright install` and add `@playwright/test` to dev-dependencies";

pub const HEADED_HINT: &'static str = "Run `npx playwright test --headed` to see failures interactively. Check for broken routes, auth flows, or UI regressions.";

pub const INSTALL_HINT: &'static str = "Install: `npm install -D @playwright/test && npx playwright install`. Ensure the dev server is running or configure `webServer` in playwright.config.ts.";

impl TestRunner for PlaywrightRunner {
    fn name(&self) -> (r: &'static str)
        ensures
            r@ == "playwright"@,
    {
        "playwright"
    }

    fn layer(&self) -> (r: Layer)
        ensures
            r == Layer::Operational,
    {
        Layer::Operational
    }

    fn skip_message(&self) -> (r: &'static str)
        ensures
            r@ == SKIP@,
    {
        SKIP
    }
}

// ── output ──────────────────────────────────────────────────────────────────

/// Tests passed and failed, as the first document with statistics has them, from position
/// `i` on.
pub open spec fn stats_from(docs: Seq<DataV>, i: int) -> Option<(u64, u64)>
    decreases docs.len() - i,
{
    if i < 0 || i >= docs.len() {
        None
    } else {
        match docs[i].field("stats"@) {
            Some(stats) => Some(
                (stats.number_or("expected"@, 0), stats.number_or("unexpected"@, 0)),
            ),
            None => stats_from(docs, i + 1),
        }
    }
}

/// Tests passed and failed, as the last line about passed tests has them.
pub open spec fn last_passed(lines: Seq<Seq<char>>) -> (u64, u64)
    decreases lines.len(),
{
    if lines.len() == 0 {
        (0, 0)
    } else {
        let l = text::trimmed(lines.last());
        if text::has(l, " passed"@) {
            (text::number_of(text::first_word_of(l)), parts::count_ahead(l, " failed"@))
        } else {
            last_passed(lines.drop_last())
        }
    }
}

/// Tests passed and failed: by statistics among `docs`, else by the lines of the output.
pub open spec fn counts_in(docs: Seq<DataV>, output: Seq<char>) -> (u64, u64) {
    match stats_from(docs, 0) {
        Some(c) => c,
        None => last_passed(text::lines_of(output)),
    }
}

/// The documents that lines of an output write.
pub open spec fn line_documents(output: Seq<char>) -> Seq<DataV> {
    parts::all_parsed(parts::trimmed_lines_of(output))
}

fn read_stats(docs: &Vec<Data>) -> (r: Option<(u64, u64)>)
    ensures
        r == stats_from(data::trees(docs@), 0),
{
    let ghost all = data::trees(docs@);
    let mut i: usize = 0;
    while i < docs.len()
        invariant
            i <= docs@.len(),
            all == data::trees(docs@),
            stats_from(all, i as int) == stats_from(all, 0),
        decreases docs@.len() - i,
    {
        assert(all[i as int] == docs@[i as int]@);
        match docs[i].get("stats") {
            Some(stats) => {
                return Some((stats.u64_or("expected", 0), stats.u64_or("unexpected", 0)));
            },
            None => {},
        }
        i += 1;
    }
    None
}

fn read_passed(output: &str) -> (r: (u64, u64))
    ensures
        r == last_passed(text::lines_of(output@)),
{
    let lines = text::lines(output);
    let ghost all = text::lines_of(output@);
    let mut n: usize = lines.len();
    assert(all.subrange(0, n as int) =~= all);
    while n > 0
        invariant
            n <= lines@.len(),
            all == text::lines_of(output@),
            all == text::views(lines@),
            last_passed(all.subrange(0, n as int)) == last_passed(all),
        decreases n,
    {
        proof {
            let front = all.subrange(0, n as int);
            assert(front.last() == lines@[n - 1]@);
            assert(front.drop_last() =~= all.subrange(0, n - 1));
        }
        let l = text::trim(lines[n - 1].as_str());
        if text::contains(l.as_str(), " passed") {
            let passed = text::number_or_none(&text::first_word(l.as_str()));
            return (passed, parts::count_before(l.as_str(), " failed"));
        }
        n -= 1;
    }
    (0, 0)
}

/// Tests passed and failed: by statistics among `docs`, else by the lines of the output.
pub fn count_e2e_tests(docs: &Vec<Data>, output: &str) -> (r: (u64, u64))
    ensures
        r == counts_in(data::trees(docs@), output@),
{
    match read_stats(docs) {
        Some(c) => c,
        None => read_passed(output),
    }
}

/// Tests passed and failed.
pub fn parse_playwright_output(output: &str) -> (r: (u64, u64))
    ensures
        r == counts_in(line_documents(output@), output@),
{
    let lines = parts::trimmed_lines(output);
    let docs = parts::parse_lines(&lines);
    count_e2e_tests(&docs, output)
}

// ── the result ──────────────────────────────────────────────────────────────

/// The result of a run with so many tests passed and failed.
pub open spec fn counted(success: bool, counts: (u64, u64), duration_ms: u64) -> LayerResultV {
    let total = parts::capped((counts.0 + counts.1) as nat);
    parts::result_of(
        Layer::Operational,
        "playwright"@,
        if success {
            LayerStatus::Pass
        } else {
            LayerStatus::Fail
        },
        if success {
            Seq::empty()
        } else {
            seq![
                parts::found(
                    Severity::High,
                    "PLAYWRIGHT_FAILURE"@,
                    text::decimal(counts.1 as nat) + " E2E test(s) failed out of "@ + text::decimal(
                        total as nat,
                    ),
                    Some("npx playwright test --reporter=list 2>&1 | head -80"@),
                    Some(HEADED_HINT@),
                ),
            ]
        },
        parts::tested(total, counts.0, counts.1),
        duration_ms,
    )
}

/// The result of a run with so many tests passed and failed.
pub fn report_counts(success: bool, passed: u64, failed: u64, duration_ms: u64) -> (r: LayerResult)
    ensures
        r@ == counted(success, (passed, failed), duration_ms),
{
    let total = parts::add_up(passed, failed);
    let findings = if success {
        parts::nothing()
    } else {
        let message = text::cat3(
            text::number(failed).as_str(),
            " E2E test(s) failed out of ",
            text::number(total).as_str(),
        );
        parts::one(
            parts::finding(
                Severity::High,
                "PLAYWRIGHT_FAILURE",
                message.as_str(),
                Some("npx playwright test --reporter=list 2>&1 | head -80"),
                Some(HEADED_HINT),
            ),
        )
    };
    let status = if success {
        LayerStatus::Pass
    } else {
        LayerStatus::Fail
    };
    let metrics = LayerMetrics {
        tests_run: total,
        passed,
        failed,
        coverage: None,
        mutation_score: None,
    };
    parts::layer_result(
            Layer::Operational,
            "playwright",
            status,
            findings,
            metrics,
            duration_ms,
        )
}

/// The result of running Playwright.
pub open spec fn reported(outcome: Result<ProcessOutput, String>, duration_ms: u64) -> LayerResultV {
    match outcome {
        Ok(out) => counted(
            out.success,
            counts_in(line_documents(out.both()), out.both()),
            duration_ms,
        ),
        Err(e) => parts::failure_of(
            Layer::Operational,
            "playwright"@,
            parts::found(
                Severity::Critical,
                "PLAYWRIGHT_EXECUTION_FAILED"@,
                "Failed to run playwright: "@ + e@,
                Some("npx playwright test 2>&1"@),
                Some(INSTALL_HINT@),
            ),
            duration_ms,
        ),
    }
}

/// The result of running Playwright.
pub fn report_playwright(outcome: &Result<ProcessOutput, String>, duration_ms: u64) -> (r: LayerResult)
    ensures
        r@ == reported(*outcome, duration_ms),
{
    match outcome {
        Ok(out) => {
            let (passed, failed) = parse_playwright_output(out.combined().as_str());
            report_counts(out.success, passed, failed, duration_ms)
        },
        Err(e) => {
            let message = text::cat("Failed to run playwright: ", e.as_str());
            let f = parts::finding(
                Severity::Critical,
                "PLAYWRIGHT_EXECUTION_FAILED",
                message.as_str(),
                Some("npx playwright test 2>&1"),
                Some(INSTALL_HINT),
            );
            parts::failure(Layer::Operational, "playwright", f, duration_ms)
        },
    }
}

pub open spec fn playwright_args() -> Seq<Seq<char>> {
    seq!["playwright"@, "test"@, "--reporter=json"@]
}

/// `r` is the result of one of the outcomes that running Playwright in `root` can have.
pub open spec fn is_run<P: SubprocessRunner>(
    before: P,
    after: P,
    root: Seq<char>,
    r: LayerResultV,
) -> bool {
    exists|o: Result<ProcessOutput, String>, ms: u64|
        #[trigger] before.answers("npx"@, playwright_args(), root, o, after) && r == #[trigger] reported(
            o,
            ms,
        )
}

impl PlaywrightRunner {
    pub fn is_available(&self, project: &ProjectInfo, files: &Files) -> (r: bool)
        ensures
            r == ((project.frameworks.is_nextjs || project.language == Language::TypeScript) && (
            files.has("playwright.config.ts"@) || files.has("playwright.config.js"@))),
    {
        if !project.frameworks.is_nextjs && project.language != Language::TypeScript {
            return false;
        }
        files.is_there("playwright.config.ts") || files.is_there("playwright.config.js")
    }

    pub fn run<P: SubprocessRunner>(&self, proc: &mut P, project: &ProjectInfo) -> (r: LayerResult)
        ensures
            is_run(*old(proc), *final(proc), project.root@, r@),
    {
        let start = time::started();
        let args = vec![
            "playwright".to_string(),
            "test".to_string(),
            "--reporter=json".to_string(),
        ];
        assert(text::views(args@) =~= playwright_args());
        let outcome = proc.run("npx", &args, project.root.as_str());
        let ms = time::elapsed_ms(&start);
        let r = report_playwright(&outcome, ms);
        assert(old(proc).answers("npx"@, playwright_args(), project.root@, outcome, *proc));
        r
    }
}

// ── laws ────────────────────────────────────────────────────────────────────

/// The tests pass exactly where the command succeeds. Where it does not, there is one high
/// finding; a command that cannot be run fails with one critical finding.
pub proof fn law_outcome_decides(out: ProcessOutput, ms: u64, e: String)
    ensures
        ({
            let r = reported(Ok(out), ms);
            &&& r.name == "operational"@ && r.runner == "playwright"@ && r.duration_ms == ms
            &&& out.success ==> r.status == LayerStatus::Pass && r.findings.len() == 0
            &&& !out.success ==> r.status == LayerStatus::Fail && r.findings.len() == 1
                && r.findings[0].severity == Severity::High && r.findings[0].code == "PLAYWRIGHT_FAILURE"@
            &&& r.metrics.mutation_score is None
        }),
        ({
            let r = reported(Err(e), ms);
            &&& r.status == LayerStatus::Fail && r.findings.len() == 1 && r.findings[0].severity
                == Severity::Critical && r.metrics.failed == 1 && r.runner == "playwright"@
        }),
{
}

/// The first document with statistics states how many tests passed and failed; without one
/// the last line that speaks of passed tests does. Both together ran.
pub proof fn law_statistics_are_counted(docs: Seq<DataV>, output: Seq<char>, i: int, stats: DataV)
    requires
        0 <= i < docs.len(),
        docs[i].field("stats"@) == Some(stats),
        forall|k: int| 0 <= k < i ==> (#[trigger] docs[k]).field("stats"@) is None,
    ensures
        stats.number_at("expected"@) matches Some(n) ==> counts_in(docs, output).0 == n,
        stats.number_at("unexpected"@) matches Some(n) ==> counts_in(docs, output).1 == n,
        stats.number_at("expected"@) is None ==> counts_in(docs, output).0 == 0,
        stats.number_at("unexpected"@) is None ==> counts_in(docs, output).1 == 0,
{
    lemma_stats_at(docs, 0, i);
}

proof fn lemma_stats_at(docs: Seq<DataV>, from: int, i: int)
    requires
        0 <= from <= i < docs.len(),
        docs[i].field("stats"@) is Some,
        forall|k: int| from <= k < i ==> (#[trigger] docs[k]).field("stats"@) is None,
    ensures
        stats_from(docs, from) == stats_from(docs, i),
    decreases i - from,
{
    if from < i {
        assert(docs[from].field("stats"@) is None);
        lemma_stats_at(docs, from + 1, i);
    }
}

/// Without statistics the last line that holds ` passed` counts: its first word passed, and
/// the word before ` failed` failed.
pub proof fn law_last_line_counts(
    lines: Seq<Seq<char>>,
    line: Seq<char>,
    passed: u64,
    failed: u64,
)
    ensures
        text::trimmed(line) == line && text::has(line, " passed"@) && text::first_word_of(line)
            == Some(text::decimal(passed as nat)) && parts::states(line, failed, " failed"@)
            ==> last_passed(lines.push(line)) == (passed, failed),
        !text::has(text::trimmed(line), " passed"@) ==> last_passed(lines.push(line))
            == last_passed(lines),
        last_passed(Seq::empty()) == (0u64, 0u64),
{
    assert(lines.push(line).drop_last() =~= lines);
    text::lemma_number_round_trip(passed);
    if parts::states(line, failed, " failed"@) {
        parts::law_stated_numbers_count(line, failed, " failed"@);
    }
}

/// What passed and failed are the metrics of the result.
pub proof fn law_counts_are_the_metrics(success: bool, passed: u64, failed: u64, ms: u64)
    requires
        passed + failed <= u64::MAX,
    ensures
        counted(success, (passed, failed), ms).metrics == parts::tested(
            (passed + failed) as u64,
            passed,
            failed,
        ),
{
}

/// How the tool is called.
pub proof fn law_arguments_of_the_tool()
    ensures
        playwright_args() == seq!["playwright"@, "test"@, "--reporter=json"@],
{
}

/// What is said where the tool cannot be run.
pub proof fn law_what_a_failed_start_says(e: String, ms: u64)
    ensures
        ({
            let r = reported(Err(e), ms);
            &&& r.runner == "playwright"@ && r.status == LayerStatus::Fail && r.findings.len() == 1
            &&& r.findings[0].severity == Severity::Critical
            &&& r.findings[0].code == "PLAYWRIGHT_EXECUTION_FAILED"@
            &&& r.findings[0].message == "Failed to run playwright: "@ + e@
            &&& r.findings[0].reproduce_cmd == Some("npx playwright test 2>&1"@)
        }),
{
}

/// Which program is started, with which arguments and where.
pub proof fn law_what_is_started<P: SubprocessRunner>(
    before: P,
    after: P,
    root: Seq<char>,
    r: LayerResultV,
    args: Seq<Seq<char>>,
)
    requires
        args == seq!["playwright"@, "test"@, "--reporter=json"@],
        is_run(before, after, root, r),
    ensures
        exists|o: Result<ProcessOutput, String>, ms: u64|
            #[trigger] before.answers(
                "npx"@,
                args,
                root,
                o,
                after,
            ) && r == #[trigger] reported(o, ms),
{
    let (o, ms): (Result<ProcessOutput, String>, u64) = choose|
        o: Result<ProcessOutput, String>,
        ms: u64,
    | #[trigger] before.answers("npx"@, playwright_args(), root, o, after) && r == #[trigger] reported(o, ms);
    assert(before.answers("npx"@, args, root, o, after));
    assert(r == reported(o, ms));
}

/// What is said of failed tests.
pub proof fn law_what_failed_tests_say(counts: (u64, u64), ms: u64)
    requires
        counts.0 + counts.1 <= u64::MAX,
    ensures
        ({
            let r = counted(false, counts, ms);
            &&& r.findings.len() == 1 && r.findings[0].severity == Severity::High
            &&& r.findings[0].code == "PLAYWRIGHT_FAILURE"@
            &&& r.findings[0].message == text::decimal(counts.1 as nat)
                + " E2E test(s) failed out of "@ + text::decimal((counts.0 + counts.1) as nat)
            &&& r.findings[0].reproduce_cmd == Some(
                "npx playwright test --reporter=list 2>&1 | head -80"@,
            )
        }),
{
}

/// A result belongs to the layer and the runner that it is of, whatever came out.
pub proof fn law_where_results_belong(outcome: Result<ProcessOutput, String>, duration_ms: u64)
    ensures
        reported(outcome, duration_ms).name == "operational"@,
        reported(outcome, duration_ms).runner == "playwright"@,
        reported(outcome, duration_ms).duration_ms == duration_ms,
{
}

} // verus!
