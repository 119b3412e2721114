//! Jest and Vitest.
use vstd::prelude::*;

use crate::detect::{Language, ProjectInfo};
use crate::files::Files;
use crate::plugin::{Layer, TestRunner};
use crate::process::{ProcessOutput, SubprocessRunner};
use crate::report;
use crate::report::{FindingV, LayerMetrics, LayerResult, LayerResultV, LayerStatus, Severity};
use crate::runners::parts;
use crate::text;
use crate::time;

verus! {

#[derive(Debug, Default)]
pub struct JestRunner;

pub const SKIP: &'static str = "No jest/vitest found — add jest or vitest to devDependencies and define a test script in package.json";

pub const VERBOSE_HINT: &'static str = "Run tests with --verbose to see full failure output. Check for missing mocks, broken imports, or environment issues.";

pub const INSTALL_HINT: &'static str = "Ensure node_modules is installed: `npm install` or `pnpm install`.";

impl TestRunner for JestRunner {
    fn name(&self) -> (r: &'static str)
        ensures
            r@ == "jest"@,
    {
        "jest"
    }

    fn layer(&self) -> (r: Layer)
        ensures
            r == Layer::Logic,
    {
        Layer::Logic
    }

    fn skip_message(&self) -> (r: &'static str)
        ensures
            r@ == SKIP@,
    {
        SKIP
    }
}

// ── the command ─────────────────────────────────────────────────────────────

/// The command that runs the tests of a project: Vitest before Jest, each only where it is
/// installed.
pub open spec fn js_test_command(files: Files) -> Option<Seq<char>> {
    if files.has("node_modules/.bin/vitest"@) {
        Some("./node_modules/.bin/vitest run --reporter=verbose 2>&1"@)
    } else if files.has("node_modules/.bin/jest"@) {
        Some("./node_modules/.bin/jest --no-coverage 2>&1"@)
    } else {
        None
    }
}

pub fn detect_js_test_command(files: &Files) -> (r: Option<String>)
    ensures
        text::opt_view(r) == js_test_command(*files),
{
    if files.is_there("node_modules/.bin/vitest") {
        Some("./node_modules/.bin/vitest run --reporter=verbose 2>&1".to_string())
    } else if files.is_there("node_modules/.bin/jest") {
        Some("./node_modules/.bin/jest --no-coverage 2>&1".to_string())
    } else {
        None
    }
}

// ── output ──────────────────────────────────────────────────────────────────

/// Tests passed, failed, and in all.
pub struct JsCounts {
    pub passed: u64,
    pub failed: u64,
    pub total: u64,
}

/// The counts that a line gives, if it is a summary.
pub open spec fn js_summary(line: Seq<char>) -> Option<JsCounts> {
    let l = text::trimmed(line);
    let passed = parts::listed_count(l, " passed"@);
    let failed = parts::listed_count(l, " failed"@);
    let total = parts::listed_count(l, " total"@);
    if text::begins(l, "Tests:"@) && total > 0 {
        Some(JsCounts { passed, failed, total })
    } else if text::has(l, "passed"@) && text::has(l, "Tests"@) {
        Some(JsCounts { passed, failed, total: parts::capped((passed + failed) as nat) })
    } else if text::has(l, " tests passed"@) || text::has(l, " test passed"@) {
        let n = text::number_of(text::first_word_of(l));
        Some(JsCounts { passed: n, failed: 0, total: n })
    } else {
        None
    }
}

/// The counts that the first summary of an output gives, from line `i` on.
pub open spec fn js_counts_from(lines: Seq<Seq<char>>, i: int) -> JsCounts
    decreases lines.len() - i,
{
    if i < 0 || i >= lines.len() {
        JsCounts { passed: 0, failed: 0, total: 0 }
    } else {
        match js_summary(lines[i]) {
            Some(c) => c,
            None => js_counts_from(lines, i + 1),
        }
    }
}

/// The counts that the first summary of an output gives; none where there is no summary.
pub open spec fn js_counts(output: Seq<char>) -> JsCounts {
    js_counts_from(text::lines_of(output), 0)
}

/// Tests passed, failed, and in all.
pub fn parse_js_test_output(output: &str) -> (r: (u64, u64, u64))
    ensures
        r.0 == js_counts(output@).passed,
        r.1 == js_counts(output@).failed,
        r.2 == js_counts(output@).total,
{
    let lines = text::lines(output);
    let ghost all = text::lines_of(output@);
    let mut i: usize = 0;
    while i < lines.len()
        invariant
            i <= lines@.len(),
            all == text::lines_of(output@),
            all == text::views(lines@),
            js_counts_from(all, i as int) == js_counts(output@),
        decreases lines@.len() - i,
    {
        assert(all[i as int] == lines@[i as int]@);
        let l = text::trim(lines[i].as_str());
        let passed = parts::count_in_list(l.as_str(), " passed");
        let failed = parts::count_in_list(l.as_str(), " failed");
        let total = parts::count_in_list(l.as_str(), " total");
        if text::starts_with(l.as_str(), "Tests:") && total > 0 {
            return (passed, failed, total);
        }
        if text::contains(l.as_str(), "passed") && text::contains(l.as_str(), "Tests") {
            return (passed, failed, parts::add_up(passed, failed));
        }
        if text::contains(l.as_str(), " tests passed") || text::contains(l.as_str(), " test passed") {
            let n = text::number_or_none(&text::first_word(l.as_str()));
            return (n, 0, n);
        }
        i += 1;
    }
    (0, 0, 0)
}

/// The names of failing tests in a line.
pub open spec fn js_failures_in(line: Seq<char>) -> Seq<Seq<char>> {
    let t = text::trimmed(line);
    let bullet = text::trimmed(text::strip_text(t, "● "@));
    let cross = text::trimmed(text::strip_set(t, "×✗ "@));
    let first = if text::begins(t, "● "@) && bullet.len() > 0 && !text::begins(bullet, "Console"@) {
        seq![bullet]
    } else {
        Seq::empty()
    };
    if (text::begins(t, "× "@) || text::begins(t, "✗ "@)) && cross.len() > 0 {
        first.push(cross)
    } else {
        first
    }
}

/// The first three failing tests of an output.
pub open spec fn js_failures(output: Seq<char>) -> Seq<Seq<char>> {
    parts::at_most(
        parts::gathered(text::lines_of(output), |l: Seq<char>| js_failures_in(l)),
        3,
    )
}

pub fn extract_js_failures(output: &str) -> (r: Vec<String>)
    ensures
        text::views(r@) == js_failures(output@),
{
    let lines = text::lines(output);
    let ghost all = text::lines_of(output@);
    let ghost f = |l: Seq<char>| js_failures_in(l);
    let mut r: Vec<String> = Vec::new();
    let mut i: usize = 0;
    assert(all.subrange(0, 0) =~= Seq::<Seq<char>>::empty());
    assert(text::views(r@) =~= Seq::<Seq<char>>::empty());
    while i < lines.len()
        invariant
            i <= lines@.len(),
            all == text::views(lines@),
            f == (|l: Seq<char>| js_failures_in(l)),
            text::views(r@) == parts::gathered(all.subrange(0, i as int), f),
        decreases lines@.len() - i,
    {
        proof {
            let next = all.subrange(0, i + 1);
            assert(next.drop_last() =~= all.subrange(0, i as int));
            assert(next.last() == lines@[i as int]@);
        }
        let ghost before = text::views(r@);
        let ghost line = lines@[i as int]@;
        let t = text::trim(lines[i].as_str());
        if text::starts_with(t.as_str(), "● ") {
            let name = text::trim(text::trim_start_text(t.as_str(), "● ").as_str());
            if !name.as_str().is_empty() && !text::starts_with(name.as_str(), "Console") {
                r.push(name);
            }
        }
        if text::starts_with(t.as_str(), "× ") || text::starts_with(t.as_str(), "✗ ") {
            let name = text::trim(text::trim_start_set(t.as_str(), "×✗ ").as_str());
            if !name.as_str().is_empty() {
                r.push(name);
            }
        }
        assert(text::views(r@) =~= before + js_failures_in(line));
        i += 1;
    }
    assert(all.subrange(0, i as int) =~= all);
    parts::keep_first(r, 3)
}

// ── the result ──────────────────────────────────────────────────────────────

pub open spec fn js_findings(success: bool, output: Seq<char>, cmd: Seq<char>) -> Seq<FindingV> {
    if success {
        Seq::empty()
    } else {
        seq![
            parts::found(
                Severity::High,
                "TEST_FAILURE"@,
                text::decimal(js_counts(output).failed as nat) + " test(s) failed"@ + parts::named(
                    js_failures(output),
                ),
                Some(cmd),
                Some(VERBOSE_HINT@),
            ),
        ]
    }
}

/// The result of running the tests with `cmd`.
pub open spec fn reported(
    cmd: Seq<char>,
    outcome: Result<ProcessOutput, String>,
    duration_ms: u64,
) -> LayerResultV {
    match outcome {
        Ok(out) => {
            let c = js_counts(out.both());
            parts::result_of(
                Layer::Logic,
                "jest"@,
                if out.success {
                    LayerStatus::Pass
                } else {
                    LayerStatus::Fail
                },
                js_findings(out.success, out.both(), cmd),
                parts::tested(c.total, c.passed, c.failed),
                duration_ms,
            )
        },
        Err(e) => parts::failure_of(
            Layer::Logic,
            "jest"@,
            parts::found(
                Severity::Critical,
                "TEST_EXECUTION_FAILED"@,
                "Failed to run JS tests: "@ + e@,
                Some(cmd),
                Some(INSTALL_HINT@),
            ),
            duration_ms,
        ),
    }
}

/// The result of running the tests with `cmd`.
pub fn report_jest(cmd: &str, outcome: &Result<ProcessOutput, String>, duration_ms: u64) -> (r: LayerResult)
    ensures
        r@ == reported(cmd@, *outcome, duration_ms),
{
    match outcome {
        Ok(out) => {
            let combined = out.combined();
            let (passed, failed, total) = parse_js_test_output(combined.as_str());
            let findings = if out.success {
                parts::nothing()
            } else {
                let failing = extract_js_failures(combined.as_str());
                let message = text::cat3(
                    text::number(failed).as_str(),
                    " test(s) failed",
                    parts::name_list(&failing).as_str(),
                );
                parts::one(
                    parts::finding(
                        Severity::High,
                        "TEST_FAILURE",
                        message.as_str(),
                        Some(cmd),
                        Some(VERBOSE_HINT),
                    ),
                )
            };
            let status = if out.success {
                LayerStatus::Pass
            } else {
                LayerStatus::Fail
            };
            let metrics = LayerMetrics {
                tests_run: total,
                passed,
                failed,
                coverage: None,
                mutation_score: None,
            };
            parts::layer_result(Layer::Logic, "jest", status, findings, metrics, duration_ms)
        },
        Err(e) => {
            let message = text::cat("Failed to run JS tests: ", e.as_str());
            let f = parts::finding(
                Severity::Critical,
                "TEST_EXECUTION_FAILED",
                message.as_str(),
                Some(cmd),
                Some(INSTALL_HINT),
            );
            parts::failure(Layer::Logic, "jest", f, duration_ms)
        },
    }
}

/// The result for a project without a test runner.
pub open spec fn skipped() -> LayerResultV {
    parts::result_of(
        Layer::Logic,
        "jest"@,
        LayerStatus::Skipped,
        seq![parts::found(Severity::Info, "NO_JS_TEST_RUNNER"@, SKIP@, None, None)],
        report::no_metrics(),
        0,
    )
}

/// `r` is the result of one of the outcomes that running the tests in `root` can have.
pub open spec fn is_run<P: SubprocessRunner>(
    before: P,
    after: P,
    cmd: Seq<char>,
    root: Seq<char>,
    r: LayerResultV,
) -> bool {
    exists|o: Result<ProcessOutput, String>, ms: u64|
        #[trigger] before.answers("sh"@, parts::shell_args(cmd), root, o, after) && r == #[trigger] reported(cmd, o, ms)
}

impl JestRunner {
    pub fn is_available(&self, project: &ProjectInfo, files: &Files) -> (r: bool)
        ensures
            r == (project.language == Language::TypeScript && js_test_command(*files) is Some),
    {
        project.language == Language::TypeScript && detect_js_test_command(files).is_some()
    }

    pub fn run<P: SubprocessRunner>(&self, proc: &mut P, project: &ProjectInfo, files: &Files) -> (r: LayerResult)
        ensures
            match js_test_command(*files) {
                Some(cmd) => is_run(*old(proc), *final(proc), cmd, project.root@, r@),
                None => r@ == skipped() && *final(proc) == *old(proc),
            },
    {
        let start = time::started();
        let cmd = match detect_js_test_command(files) {
            Some(c) => c,
            None => {
                let findings = parts::one(
                    parts::finding(Severity::Info, "NO_JS_TEST_RUNNER", SKIP, None, None),
                );
                return parts::layer_result(
                    Layer::Logic,
                    "jest",
                    LayerStatus::Skipped,
                    findings,
                    LayerMetrics::none(),
                    0,
                );
            },
        };
        let args = vec!["-c".to_string(), cmd.clone()];
        assert(text::views(args@) =~= parts::shell_args(cmd@));
        let outcome = proc.run("sh", &args, project.root.as_str());
        let ms = time::elapsed_ms(&start);
        let r = report_jest(cmd.as_str(), &outcome, ms);
        assert(old(proc).answers("sh"@, parts::shell_args(cmd@), project.root@, outcome, *proc));
        r
    }
}

// ── laws ────────────────────────────────────────────────────────────────────

/// The tests pass exactly where the command succeeds. Where it does not, there is one high
/// finding; a command that cannot be run fails with one critical finding.
pub proof fn law_outcome_decides(cmd: Seq<char>, out: ProcessOutput, ms: u64, e: String)
    ensures
        ({
            let r = reported(cmd, Ok(out), ms);
            &&& r.name == "logic"@ && r.runner == "jest"@ && r.duration_ms == ms
            &&& out.success ==> r.status == LayerStatus::Pass && r.findings.len() == 0
            &&& !out.success ==> r.status == LayerStatus::Fail && r.findings.len() == 1
                && r.findings[0].severity == Severity::High && r.findings[0].code == "TEST_FAILURE"@
            &&& r.metrics.mutation_score is None
        }),
        ({
            let r = reported(cmd, Err(e), ms);
            &&& r.status == LayerStatus::Fail && r.findings.len() == 1 && r.findings[0].severity
                == Severity::Critical && r.metrics.failed == 1 && r.runner == "jest"@
        }),
{
}

/// A line of Jest states how many tests passed, failed and ran.
pub proof fn law_summary_is_counted(line: Seq<char>, passed: u64, failed: u64, total: u64)
    requires
        text::trimmed(line) == line,
        text::begins(line, "Tests:"@),
        parts::states(line, passed, " passed"@),
        parts::states(line, failed, " failed"@),
        parts::states(line, total, " total"@),
        total > 0,
    ensures
        js_summary(line) == Some(JsCounts { passed, failed, total }),
{
    parts::law_stated_numbers_count(line, passed, " passed"@);
    parts::law_stated_numbers_count(line, failed, " failed"@);
    parts::law_stated_numbers_count(line, total, " total"@);
}

/// A line of Vitest, which states no total, has run what passed and failed.
pub proof fn law_vitest_summary_is_counted(line: Seq<char>, passed: u64, failed: u64)
    requires
        text::trimmed(line) == line,
        !text::begins(line, "Tests:"@),
        text::has(line, "Tests"@),
        text::has(line, "passed"@),
        parts::states(line, passed, " passed"@),
        parts::states(line, failed, " failed"@),
        passed + failed <= u64::MAX,
    ensures
        js_summary(line) == Some(JsCounts { passed, failed, total: (passed + failed) as u64 }),
{
    parts::law_stated_numbers_count(line, passed, " passed"@);
    parts::law_stated_numbers_count(line, failed, " failed"@);
}

/// The first line with a summary counts, and its counts are the metrics of the result.
pub proof fn law_first_summary_counts(cmd: Seq<char>, out: ProcessOutput, ms: u64, i: int)
    requires
        0 <= i < text::lines_of(out.both()).len(),
        js_summary(text::lines_of(out.both())[i]) is Some,
        forall|k: int|
            0 <= k < i ==> js_summary(#[trigger] text::lines_of(out.both())[k]) is None,
    ensures
        ({
            let c = js_summary(text::lines_of(out.both())[i])->0;
            let m = reported(cmd, Ok(out), ms).metrics;
            &&& m.tests_run == c.total
            &&& m.passed == c.passed
            &&& m.failed == c.failed
        }),
{
    lemma_summary_at(text::lines_of(out.both()), 0, i);
}

proof fn lemma_summary_at(lines: Seq<Seq<char>>, from: int, i: int)
    requires
        0 <= from <= i < lines.len(),
        js_summary(lines[i]) is Some,
        forall|k: int| from <= k < i ==> js_summary(#[trigger] lines[k]) is None,
    ensures
        js_counts_from(lines, from) == js_summary(lines[i])->0,
    decreases i - from,
{
    if from < i {
        assert(js_summary(lines[from]) is None);
        lemma_summary_at(lines, from + 1, i);
    }
}

/// Vitest runs the tests where it is installed, else Jest where it is, else nothing does.
pub proof fn law_installed_tool_runs_the_tests(files: Files)
    ensures
        files.has("node_modules/.bin/vitest"@) ==> js_test_command(files) == Some(
            "./node_modules/.bin/vitest run --reporter=verbose 2>&1"@,
        ),
        !files.has("node_modules/.bin/vitest"@) && files.has("node_modules/.bin/jest"@)
            ==> js_test_command(files) == Some("./node_modules/.bin/jest --no-coverage 2>&1"@),
        !files.has("node_modules/.bin/vitest"@) && !files.has("node_modules/.bin/jest"@)
            ==> js_test_command(files) is None,
{
}

/// What is said where the tool cannot be run.
pub proof fn law_what_a_failed_start_says(cmd: Seq<char>, e: String, ms: u64)
    ensures
        ({
            let r = reported(cmd, Err(e), ms);
            &&& r.runner == "jest"@ && r.status == LayerStatus::Fail && r.findings.len() == 1
            &&& r.findings[0].severity == Severity::Critical
            &&& r.findings[0].code == "TEST_EXECUTION_FAILED"@
            &&& r.findings[0].message == "Failed to run JS tests: "@ + e@
            &&& r.findings[0].reproduce_cmd == Some(cmd)
        }),
{
}

/// Which program is started, with which arguments and where.
pub proof fn law_what_is_started<P: SubprocessRunner>(
    before: P,
    after: P,
    cmd: Seq<char>,
    root: Seq<char>,
    r: LayerResultV,
    args: Seq<Seq<char>>,
)
    requires
        args == seq!["-c"@, cmd],
        is_run(before, after, cmd, root, r),
    ensures
        exists|o: Result<ProcessOutput, String>, ms: u64|
            #[trigger] before.answers(
                "sh"@,
                args,
                root,
                o,
                after,
            ) && r == #[trigger] reported(cmd, o, ms),
{
    let (o, ms): (Result<ProcessOutput, String>, u64) = choose|
        o: Result<ProcessOutput, String>,
        ms: u64,
    | #[trigger] before.answers("sh"@, parts::shell_args(cmd), root, o, after) && r == #[trigger] reported(cmd, o, ms);
    assert(before.answers("sh"@, args, root, o, after));
    assert(r == reported(cmd, o, ms));
}

/// What is said of failed tests and of a project without a runner.
pub proof fn law_what_failed_tests_say(output: Seq<char>, cmd: Seq<char>)
    ensures
        js_findings(false, output, cmd).len() == 1,
        js_findings(false, output, cmd)[0].severity == Severity::High,
        js_findings(false, output, cmd)[0].code == "TEST_FAILURE"@,
        js_findings(false, output, cmd)[0].message == text::decimal(
            js_counts(output).failed as nat,
        ) + " test(s) failed"@ + parts::named(js_failures(output)),
        js_findings(false, output, cmd)[0].reproduce_cmd == Some(cmd),
        js_findings(true, output, cmd).len() == 0,
        skipped().status == LayerStatus::Skipped && skipped().findings.len() == 1
            && skipped().findings[0].severity == Severity::Info && skipped().findings[0].code
            == "NO_JS_TEST_RUNNER"@,
{
}

/// A line names a failing test behind a bullet, unless it is of the console, or behind a
/// cross.
pub proof fn law_marks_of_failing_tests(line: Seq<char>)
    ensures
        ({
            let t = text::trimmed(line);
            let bullet = text::trimmed(text::strip_text(t, "● "@));
            let cross = text::trimmed(text::strip_set(t, "×✗ "@));
            &&& text::begins(t, "● "@) && bullet.len() > 0 && !text::begins(bullet, "Console"@)
                ==> js_failures_in(line).len() > 0 && js_failures_in(line)[0] == bullet
            &&& (text::begins(t, "× "@) || text::begins(t, "✗ "@)) && cross.len() > 0
                ==> js_failures_in(line).len() > 0 && js_failures_in(line).last() == cross
            &&& js_failures_in(line).len() > 0 ==> text::begins(t, "● "@) || text::begins(t, "× "@)
                || text::begins(t, "✗ "@)
            &&& text::begins(t, "● "@) && text::begins(bullet, "Console"@) && !text::begins(
                t,
                "× "@,
            ) && !text::begins(t, "✗ "@) ==> js_failures_in(line).len() == 0
        }),
{
}

/// A line that says only how many tests passed counts them all.
pub proof fn law_passed_tests_alone_count(line: Seq<char>)
    ensures
        ({
            let l = text::trimmed(line);
            let n = text::number_of(text::first_word_of(l));
            (text::has(l, " tests passed"@) || text::has(l, " test passed"@)) && !text::begins(
                l,
                "Tests:"@,
            ) && !text::has(l, "Tests"@) ==> (js_summary(line) matches Some(c) && c.passed == n
                && c.failed == 0 && c.total == n)
        }),
{
}

/// Of the failing tests the first three are named, in order.
pub proof fn law_first_three_are_named(output: Seq<char>, i: int)
    ensures
        ({
            let all = parts::gathered(text::lines_of(output), |l: Seq<char>| js_failures_in(l));
            &&& all.len() <= 3 ==> js_failures(output) == all
            &&& all.len() > 3 ==> js_failures(output).len() == 3
            &&& 0 <= i < 3 && i < all.len() ==> js_failures(output)[i] == all[i]
        }),
{
}

/// A result belongs to the layer and the runner that it is of, whatever came out.
pub proof fn law_where_results_belong(cmd: Seq<char>, outcome: Result<ProcessOutput, String>, duration_ms: u64)
    ensures
        reported(cmd, outcome, duration_ms).name == "logic"@,
        reported(cmd, outcome, duration_ms).runner == "jest"@,
        reported(cmd, outcome, duration_ms).duration_ms == duration_ms,
{
}

/// A line that begins with `Tests:` states all three numbers where it states how many there
/// are in all.
pub proof fn law_total_is_stated(line: Seq<char>)
    ensures
        ({
            let l = text::trimmed(line);
            let passed = parts::listed_count(l, " passed"@);
            let failed = parts::listed_count(l, " failed"@);
            let total = parts::listed_count(l, " total"@);
            &&& text::begins(l, "Tests:"@) && total > 0 ==> (js_summary(line) matches Some(c)
                && c.passed == passed && c.failed == failed && c.total == total)
            &&& text::begins(l, "Tests:"@) && total == 0 && text::has(l, "passed"@) && text::has(
                l,
                "Tests"@,
            ) && passed + failed <= u64::MAX ==> (js_summary(line) matches Some(c) && c.passed
                == passed && c.failed == failed && c.total == passed + failed)
            &&& !text::begins(l, "Tests:"@) && !text::has(l, "passed"@) && !text::has(
                l,
                " tests passed"@,
            ) && !text::has(l, " test passed"@) ==> js_summary(line) is None
        }),
{
}

} // verus!
