//! fast-check: property-based tests of JavaScript projects.
use vstd::prelude::*;

use crate::detect::{Language, ProjectInfo};
use crate::files::Files;
use crate::plugin::{Layer, TestRunner};
use crate::process::{ProcessOutput, SubprocessRunner};
use crate::report::{FindingV, LayerMetrics, LayerResult, LayerResultV, LayerStatus, Severity};
use crate::runners::parts;
use crate::text;
use crate::time;

verus! {

#[derive(Debug, Default)]
pub struct FastCheckRunner;

pub const SKIP: &'static str = "No fast-check tests found — add `fast-check` to dev-dependencies for property-based testing";

pub const PROPERTY_HINT: &'static str = "Run the test suite and check the property that failed. Examine the counterexample reported by fast-check and tighten your invariant.";

pub const INSTALL_HINT: &'static str = "Ensure node_modules are installed: run `pnpm install` (or npm install).";

impl TestRunner for FastCheckRunner {
    fn name(&self) -> (r: &'static str)
        ensures
            r@ == "fast-check"@,
    {
        "fast-check"
    }

    fn layer(&self) -> (r: Layer)
        ensures
            r == Layer::Logic,
    {
        Layer::Logic
    }

    fn skip_message(&self) -> (r: &'static str)
        ensures
            r@ == SKIP@,
    {
        SKIP
    }
}

// ── the command ─────────────────────────────────────────────────────────────

/// The package manager whose lock file a project has: pnpm before yarn, else npm.
pub open spec fn package_manager(files: Files) -> Seq<char> {
    if files.has("pnpm-lock.yaml"@) {
        "pnpm"@
    } else if files.has("yarn.lock"@) {
        "yarn"@
    } else {
        "npm"@
    }
}

pub fn detect_package_manager(files: &Files) -> (r: &'static str)
    ensures
        r@ == package_manager(*files),
{
    if files.is_there("pnpm-lock.yaml") {
        "pnpm"
    } else if files.is_there("yarn.lock") {
        "yarn"
    } else {
        "npm"
    }
}

/// The command that runs the tests of a project.
pub open spec fn test_command(pkg_json: Seq<char>, files: Files, pm: Seq<char>) -> Seq<char> {
    if text::has(pkg_json, "vitest"@) {
        if files.has("node_modules/.bin/vitest"@) {
            pm + " exec vitest run"@
        } else {
            "npx vitest run"@
        }
    } else if text::has(pkg_json, "jest"@) {
        pm + " exec jest --passWithNoTests 2>&1"@
    } else {
        pm + " test"@
    }
}

pub fn detect_test_command(pkg_json: &str, files: &Files, pm: &str) -> (r: String)
    ensures
        r@ == test_command(pkg_json@, *files, pm@),
{
    if text::contains(pkg_json, "vitest") {
        if files.is_there("node_modules/.bin/vitest") {
            return text::cat(pm, " exec vitest run");
        }
        return "npx vitest run".to_string();
    }
    if text::contains(pkg_json, "jest") {
        return text::cat(pm, " exec jest --passWithNoTests 2>&1");
    }
    text::cat(pm, " test")
}

// ── output ──────────────────────────────────────────────────────────────────

/// Tests in all, passed, and failed.
pub struct TsCounts {
    pub total: u64,
    pub passed: u64,
    pub failed: u64,
}

/// The counts that a line gives, if it is a summary.
pub open spec fn ts_summary(line: Seq<char>) -> Option<TsCounts> {
    let passed = parts::count_ahead(line, "passed"@);
    let failed = parts::count_ahead(line, "failed"@);
    let stated = parts::count_ahead(line, "total"@);
    let sum = parts::capped((passed + failed) as nat);
    let spaced_passed = parts::count_ahead(line, " passed"@);
    let spaced_failed = parts::count_ahead(line, " failed"@);
    let spaced_sum = parts::capped((spaced_passed + spaced_failed) as nat);
    if text::begins(text::trim_front(line), "Tests:"@) {
        Some(
            TsCounts {
                total: if stated >= sum {
                    stated
                } else {
                    sum
                },
                passed,
                failed,
            },
        )
    } else if text::has(line, " passed"@) && (text::has(line, "Tests"@) || text::has(line, "test"@))
        && spaced_sum > 0 {
        Some(TsCounts { total: spaced_sum, passed: spaced_passed, failed: spaced_failed })
    } else {
        None
    }
}

pub open spec fn ts_counts_from(lines: Seq<Seq<char>>, i: int) -> TsCounts
    decreases lines.len() - i,
{
    if i < 0 || i >= lines.len() {
        TsCounts { total: 1, passed: 1, failed: 0 }
    } else {
        match ts_summary(lines[i]) {
            Some(c) => c,
            None => ts_counts_from(lines, i + 1),
        }
    }
}

/// The counts that the first summary of an output gives; one passed test where there is no
/// summary.
pub open spec fn ts_counts(output: Seq<char>) -> TsCounts {
    ts_counts_from(text::lines_of(output), 0)
}

/// The number before `label`; 0 where there is none.
pub fn extract_label_count(line: &str, label: &str) -> (r: u64)
    ensures
        r == parts::count_ahead(line@, label@),
{
    parts::count_before(line, label)
}

/// Tests in all, passed, and failed.
pub fn parse_ts_test_counts(output: &str) -> (r: (u64, u64, u64))
    ensures
        r.0 == ts_counts(output@).total,
        r.1 == ts_counts(output@).passed,
        r.2 == ts_counts(output@).failed,
{
    let lines = text::lines(output);
    let ghost all = text::lines_of(output@);
    let mut i: usize = 0;
    while i < lines.len()
        invariant
            i <= lines@.len(),
            all == text::lines_of(output@),
            all == text::views(lines@),
            ts_counts_from(all, i as int) == ts_counts(output@),
        decreases lines@.len() - i,
    {
        assert(all[i as int] == lines@[i as int]@);
        let line = lines[i].as_str();
        if text::starts_with(text::trim_start(line).as_str(), "Tests:") {
            let passed = extract_label_count(line, "passed");
            let failed = extract_label_count(line, "failed");
            let stated = extract_label_count(line, "total");
            let sum = parts::add_up(passed, failed);
            if stated >= sum {
                return (stated, passed, failed);
            }
            return (sum, passed, failed);
        }
        if text::contains(line, " passed") && (text::contains(line, "Tests") || text::contains(
            line,
            "test",
        )) {
            let passed = extract_label_count(line, " passed");
            let failed = extract_label_count(line, " failed");
            let sum = parts::add_up(passed, failed);
            if sum > 0 {
                return (sum, passed, failed);
            }
        }
        i += 1;
    }
    (1, 1, 0)
}

/// The name of the failing test in a line, unless it is a long one.
pub open spec fn failing_in(line: Seq<char>) -> Seq<Seq<char>> {
    let t = text::trimmed(line);
    let name = text::trimmed(text::strip_set(t, "●× "@));
    if (text::begins(t, "● "@) || text::begins(t, "× "@) || text::begins(t, "FAIL"@)) && name.len()
        > 0 && text::byte_len(name) < 100 {
        seq![name]
    } else {
        Seq::empty()
    }
}

/// The first three failing tests of an output.
pub open spec fn failing_tests(output: Seq<char>) -> Seq<Seq<char>> {
    parts::at_most(parts::gathered(text::lines_of(output), |l: Seq<char>| failing_in(l)), 3)
}

pub fn extract_failing_tests(output: &str) -> (r: Vec<String>)
    ensures
        text::views(r@) == failing_tests(output@),
{
    let lines = text::lines(output);
    let ghost all = text::lines_of(output@);
    let ghost f = |l: Seq<char>| failing_in(l);
    let mut r: Vec<String> = Vec::new();
    let mut i: usize = 0;
    assert(all.subrange(0, 0) =~= Seq::<Seq<char>>::empty());
    assert(text::views(r@) =~= Seq::<Seq<char>>::empty());
    while i < lines.len()
        invariant
            i <= lines@.len(),
            all == text::views(lines@),
            f == (|l: Seq<char>| failing_in(l)),
            text::views(r@) == parts::gathered(all.subrange(0, i as int), f),
        decreases lines@.len() - i,
    {
        proof {
            let next = all.subrange(0, i + 1);
            assert(next.drop_last() =~= all.subrange(0, i as int));
            assert(next.last() == lines@[i as int]@);
        }
        let ghost before = text::views(r@);
        let ghost line = lines@[i as int]@;
        let t = text::trim(lines[i].as_str());
        if text::starts_with(t.as_str(), "● ") || text::starts_with(t.as_str(), "× ")
            || text::starts_with(t.as_str(), "FAIL") {
            let name = text::trim(text::trim_start_set(t.as_str(), "●× ").as_str());
            if !name.as_str().is_empty() && text::bytes_within(name.as_str(), 99) {
                r.push(name);
            }
        }
        assert(text::views(r@) =~= before + failing_in(line));
        i += 1;
    }
    assert(all.subrange(0, i as int) =~= all);
    parts::keep_first(r, 3)
}

// ── the result ──────────────────────────────────────────────────────────────

pub open spec fn pbt_findings(success: bool, output: Seq<char>, pm: Seq<char>) -> Seq<FindingV> {
    let failing = failing_tests(output);
    if success {
        Seq::empty()
    } else {
        seq![
            parts::found(
                Severity::High,
                "PBT_FAILURE"@,
                "Property-based tests failed ("@ + text::decimal(ts_counts(output).failed as nat)
                    + " failed)"@,
                Some(pm + " test 2>&1 | head -80"@),
                Some(
                    if failing.len() == 0 {
                        PROPERTY_HINT@
                    } else {
                        "Failing: "@ + text::joined(failing, ", "@)
                            + ". Examine the counterexample and fix the invariant."@
                    },
                ),
            ),
        ]
    }
}

/// The result of running the tests with the package manager `pm`.
pub open spec fn reported(
    pm: Seq<char>,
    outcome: Result<ProcessOutput, String>,
    duration_ms: u64,
) -> LayerResultV {
    match outcome {
        Ok(out) => {
            let c = ts_counts(out.both());
            parts::result_of(
                Layer::Logic,
                "fast-check"@,
                if out.success {
                    LayerStatus::Pass
                } else {
                    LayerStatus::Fail
                },
                pbt_findings(out.success, out.both(), pm),
                parts::tested(c.total, c.passed, c.failed),
                duration_ms,
            )
        },
        Err(e) => parts::failure_of(
            Layer::Logic,
            "fast-check"@,
            parts::found(
                Severity::Critical,
                "TEST_RUNNER_ERROR"@,
                "Failed to run test suite: "@ + e@,
                Some(pm + " test"@),
                Some(INSTALL_HINT@),
            ),
            duration_ms,
        ),
    }
}

/// The result of running the tests with the package manager `pm`.
pub fn report_fast_check(
    pm: &str,
    outcome: &Result<ProcessOutput, String>,
    duration_ms: u64,
) -> (r: LayerResult)
    ensures
        r@ == reported(pm@, *outcome, duration_ms),
{
    match outcome {
        Ok(out) => {
            let combined = out.combined();
            let (total, passed, failed) = parse_ts_test_counts(combined.as_str());
            let findings = if out.success {
                parts::nothing()
            } else {
                let failing = extract_failing_tests(combined.as_str());
                assert(text::views(failing@).len() == failing@.len());
                let message = text::cat3(
                    "Property-based tests failed (",
                    text::number(failed).as_str(),
                    " failed)",
                );
                let cmd = text::cat(pm, " test 2>&1 | head -80");
                let suggestion = if failing.len() == 0 {
                    PROPERTY_HINT.to_string()
                } else {
                    text::cat3(
                        "Failing: ",
                        text::join(&failing, ", ").as_str(),
                        ". Examine the counterexample and fix the invariant.",
                    )
                };
                parts::one(
                    parts::finding(
                        Severity::High,
                        "PBT_FAILURE",
                        message.as_str(),
                        Some(cmd.as_str()),
                        Some(suggestion.as_str()),
                    ),
                )
            };
            let status = if out.success {
                LayerStatus::Pass
            } else {
                LayerStatus::Fail
            };
            let metrics = LayerMetrics {
                tests_run: total,
                passed,
                failed,
                coverage: None,
                mutation_score: None,
            };
            parts::layer_result(
                    Layer::Logic,
                    "fast-check",
                    status,
                    findings,
                    metrics,
                    duration_ms,
                )
        },
        Err(e) => {
            let message = text::cat("Failed to run test suite: ", e.as_str());
            let cmd = text::cat(pm, " test");
            let f = parts::finding(
                Severity::Critical,
                "TEST_RUNNER_ERROR",
                message.as_str(),
                Some(cmd.as_str()),
                Some(INSTALL_HINT),
            );
            parts::failure(Layer::Logic, "fast-check", f, duration_ms)
        },
    }
}

/// `r` is the result of one of the outcomes that running `cmd` in `root` can have.
pub open spec fn is_run<P: SubprocessRunner>(
    before: P,
    after: P,
    pm: Seq<char>,
    cmd: Seq<char>,
    root: Seq<char>,
    r: LayerResultV,
) -> bool {
    exists|o: Result<ProcessOutput, String>, ms: u64|
        #[trigger] before.answers("sh"@, parts::shell_args(cmd), root, o, after) && r == #[trigger] reported(pm, o, ms)
}

impl FastCheckRunner {
    pub fn is_available(&self, project: &ProjectInfo, files: &Files) -> (r: bool)
        ensures
            r == (project.language == Language::TypeScript && text::has(
                files.content("package.json"@),
                "fast-check"@,
            )),
    {
        if project.language != Language::TypeScript {
            return false;
        }
        let pkg = files.read("package.json");
        text::contains(pkg.as_str(), "fast-check")
    }

    pub fn run<P: SubprocessRunner>(&self, proc: &mut P, project: &ProjectInfo, files: &Files) -> (r: LayerResult)
        ensures
            is_run(
                *old(proc),
                *final(proc),
                package_manager(*files),
                test_command(
                    files.content("package.json"@),
                    *files,
                    package_manager(*files),
                ),
                project.root@,
                r@,
            ),
    {
        let start = time::started();
        let pkg_json = files.read("package.json");
        let pm = detect_package_manager(files);
        let cmd = detect_test_command(pkg_json.as_str(), files, pm);
        let args = vec!["-c".to_string(), cmd.clone()];
        assert(text::views(args@) =~= parts::shell_args(cmd@));
        let outcome = proc.run("sh", &args, project.root.as_str());
        let ms = time::elapsed_ms(&start);
        let r = report_fast_check(pm, &outcome, ms);
        assert(old(proc).answers("sh"@, parts::shell_args(cmd@), project.root@, outcome, *proc));
        r
    }
}

// ── laws ────────────────────────────────────────────────────────────────────

/// The tests pass exactly where the command succeeds. Where it does not, there is one high
/// finding; a command that cannot be run fails with one critical finding.
pub proof fn law_outcome_decides(pm: Seq<char>, out: ProcessOutput, ms: u64, e: String)
    ensures
        ({
            let r = reported(pm, Ok(out), ms);
            &&& r.name == "logic"@ && r.runner == "fast-check"@ && r.duration_ms == ms
            &&& out.success ==> r.status == LayerStatus::Pass && r.findings.len() == 0
            &&& !out.success ==> r.status == LayerStatus::Fail && r.findings.len() == 1
                && r.findings[0].severity == Severity::High && r.findings[0].code == "PBT_FAILURE"@
            &&& r.metrics.mutation_score is None
        }),
        ({
            let r = reported(pm, Err(e), ms);
            &&& r.status == LayerStatus::Fail && r.findings.len() == 1 && r.findings[0].severity
                == Severity::Critical && r.metrics.failed == 1 && r.runner == "fast-check"@
        }),
{
}

/// A line that begins with `Tests:` states how many tests passed and failed; as many ran as
/// it states in all, but no fewer than passed and failed.
pub proof fn law_summary_is_counted(line: Seq<char>)
    requires
        text::begins(text::trim_front(line), "Tests:"@),
    ensures
        ts_summary(line) matches Some(c) && c.passed == parts::count_ahead(line, "passed"@)
            && c.failed == parts::count_ahead(line, "failed"@) && c.total >= parts::count_ahead(
            line,
            "total"@,
        ) && (c.passed + c.failed <= u64::MAX ==> c.total >= c.passed + c.failed) && (
        parts::count_ahead(line, "total"@) >= c.passed + c.failed ==> c.total
            == parts::count_ahead(line, "total"@)),
{
}

/// The first line with a summary counts, and its counts are the metrics of the result.
/// Without a summary one test counts as passed.
pub proof fn law_first_summary_counts(pm: Seq<char>, out: ProcessOutput, ms: u64, i: int)
    ensures
        0 <= i < text::lines_of(out.both()).len() && ts_summary(text::lines_of(out.both())[i])
            is Some && (forall|k: int|
            0 <= k < i ==> ts_summary(#[trigger] text::lines_of(out.both())[k]) is None) ==> ({
            let c = ts_summary(text::lines_of(out.both())[i])->0;
            let m = reported(pm, Ok(out), ms).metrics;
            &&& m.tests_run == c.total
            &&& m.passed == c.passed
            &&& m.failed == c.failed
        }),
        (forall|k: int|
            0 <= k < text::lines_of(out.both()).len() ==> ts_summary(
                #[trigger] text::lines_of(out.both())[k],
            ) is None) ==> reported(pm, Ok(out), ms).metrics == parts::tested(1, 1, 0),
{
    let lines = text::lines_of(out.both());
    if 0 <= i < lines.len() && ts_summary(lines[i]) is Some && (forall|k: int|
        0 <= k < i ==> ts_summary(#[trigger] lines[k]) is None) {
        lemma_summary_at(lines, 0, i);
    }
    if forall|k: int| 0 <= k < lines.len() ==> ts_summary(#[trigger] lines[k]) is None {
        lemma_no_summary(lines, 0);
    }
}

proof fn lemma_summary_at(lines: Seq<Seq<char>>, from: int, i: int)
    requires
        0 <= from <= i < lines.len(),
        ts_summary(lines[i]) is Some,
        forall|k: int| from <= k < i ==> ts_summary(#[trigger] lines[k]) is None,
    ensures
        ts_counts_from(lines, from) == ts_summary(lines[i])->0,
    decreases i - from,
{
    if from < i {
        assert(ts_summary(lines[from]) is None);
        lemma_summary_at(lines, from + 1, i);
    }
}

proof fn lemma_no_summary(lines: Seq<Seq<char>>, from: int)
    requires
        0 <= from <= lines.len(),
        forall|k: int| 0 <= k < lines.len() ==> ts_summary(#[trigger] lines[k]) is None,
    ensures
        ts_counts_from(lines, from) == (TsCounts { total: 1, passed: 1, failed: 0 }),
    decreases lines.len() - from,
{
    if from < lines.len() {
        assert(ts_summary(lines[from]) is None);
        lemma_no_summary(lines, from + 1);
    }
}

/// The lockfile tells the package manager: pnpm, then yarn, else npm.
pub proof fn law_lockfile_tells_the_manager(files: Files)
    ensures
        files.has("pnpm-lock.yaml"@) ==> package_manager(files) == "pnpm"@,
        !files.has("pnpm-lock.yaml"@) && files.has("yarn.lock"@) ==> package_manager(files)
            == "yarn"@,
        !files.has("pnpm-lock.yaml"@) && !files.has("yarn.lock"@) ==> package_manager(files)
            == "npm"@,
{
}

/// Vitest is used where the manifest names it, else Jest, else the project's own script.
pub proof fn law_manifest_tells_the_command(pkg_json: Seq<char>, files: Files, pm: Seq<char>)
    ensures
        text::has(pkg_json, "vitest"@) && files.has("node_modules/.bin/vitest"@) ==> test_command(
            pkg_json,
            files,
            pm,
        ) == pm + " exec vitest run"@,
        text::has(pkg_json, "vitest"@) && !files.has("node_modules/.bin/vitest"@) ==> test_command(
            pkg_json,
            files,
            pm,
        ) == "npx vitest run"@,
        !text::has(pkg_json, "vitest"@) && text::has(pkg_json, "jest"@) ==> test_command(
            pkg_json,
            files,
            pm,
        ) == pm + " exec jest --passWithNoTests 2>&1"@,
        !text::has(pkg_json, "vitest"@) && !text::has(pkg_json, "jest"@) ==> test_command(
            pkg_json,
            files,
            pm,
        ) == pm + " test"@,
{
}

/// What is said where the tool cannot be run.
pub proof fn law_what_a_failed_start_says(pm: Seq<char>, e: String, ms: u64)
    ensures
        ({
            let r = reported(pm, Err(e), ms);
            &&& r.runner == "fast-check"@ && r.status == LayerStatus::Fail && r.findings.len() == 1
            &&& r.findings[0].severity == Severity::Critical
            &&& r.findings[0].code == "TEST_RUNNER_ERROR"@
            &&& r.findings[0].message == "Failed to run test suite: "@ + e@
            &&& r.findings[0].reproduce_cmd == Some(pm + " test"@)
        }),
{
}

/// What is said of failed properties.
pub proof fn law_what_failed_properties_say(output: Seq<char>, pm: Seq<char>)
    ensures
        pbt_findings(false, output, pm).len() == 1,
        pbt_findings(false, output, pm)[0].severity == Severity::High,
        pbt_findings(false, output, pm)[0].code == "PBT_FAILURE"@,
        pbt_findings(false, output, pm)[0].message == "Property-based tests failed ("@
            + text::decimal(ts_counts(output).failed as nat) + " failed)"@,
        pbt_findings(false, output, pm)[0].reproduce_cmd == Some(pm + " test 2>&1 | head -80"@),
        failing_tests(output).len() > 0 ==> pbt_findings(false, output, pm)[0].suggestion == Some(
            "Failing: "@ + text::joined(failing_tests(output), ", "@)
                + ". Examine the counterexample and fix the invariant."@,
        ),
        pbt_findings(true, output, pm).len() == 0,
{
}

/// A line names a failing test where it begins with a bullet, a cross or `FAIL`.
pub proof fn law_marks_of_failing_tests(line: Seq<char>)
    ensures
        failing_in(line).len() > 0 ==> text::begins(text::trimmed(line), "● "@) || text::begins(
            text::trimmed(line),
            "× "@,
        ) || text::begins(text::trimmed(line), "FAIL"@),
        failing_in(line).len() > 0 ==> failing_in(line) == seq![
            text::trimmed(text::strip_set(text::trimmed(line), "●× "@)),
        ],
        ({
            let name = text::trimmed(text::strip_set(text::trimmed(line), "●× "@));
            0 < name.len() && text::byte_len(name) < 100 && (text::begins(
                text::trimmed(line),
                "● "@,
            ) || text::begins(text::trimmed(line), "× "@) || text::begins(
                text::trimmed(line),
                "FAIL"@,
            )) ==> failing_in(line) == seq![name]
        }),
{
}

/// Which program is started, with which arguments and where.
pub proof fn law_what_is_started<P: SubprocessRunner>(
    before: P,
    after: P,
    pm: Seq<char>,
    cmd: Seq<char>,
    root: Seq<char>,
    r: LayerResultV,
    args: Seq<Seq<char>>,
)
    requires
        args == seq!["-c"@, cmd],
        is_run(before, after, pm, cmd, root, r),
    ensures
        exists|o: Result<ProcessOutput, String>, ms: u64|
            #[trigger] before.answers(
                "sh"@,
                args,
                root,
                o,
                after,
            ) && r == #[trigger] reported(pm, o, ms),
{
    let (o, ms): (Result<ProcessOutput, String>, u64) = choose|
        o: Result<ProcessOutput, String>,
        ms: u64,
    | #[trigger] before.answers("sh"@, parts::shell_args(cmd), root, o, after) && r == #[trigger] reported(pm, o, ms);
    assert(before.answers("sh"@, args, root, o, after));
    assert(r == reported(pm, o, ms));
}

/// Of the failing tests the first three are named, in order.
pub proof fn law_first_three_are_named(output: Seq<char>, i: int)
    ensures
        ({
            let all = parts::gathered(text::lines_of(output), |l: Seq<char>| failing_in(l));
            &&& all.len() <= 3 ==> failing_tests(output) == all
            &&& all.len() > 3 ==> failing_tests(output).len() == 3
            &&& 0 <= i < 3 && i < all.len() ==> failing_tests(output)[i] == all[i]
        }),
{
}

/// A result belongs to the layer and the runner that it is of, whatever came out.
pub proof fn law_where_results_belong(pm: Seq<char>, outcome: Result<ProcessOutput, String>, duration_ms: u64)
    ensures
        reported(pm, outcome, duration_ms).name == "logic"@,
        reported(pm, outcome, duration_ms).runner == "fast-check"@,
        reported(pm, outcome, duration_ms).duration_ms == duration_ms,
{
}

/// A line is a summary where it begins with `Tests:`, or where it speaks of passed tests and
/// states some number.
pub proof fn law_what_is_a_summary(line: Seq<char>)
    ensures
        ({
            let passed = parts::count_ahead(line, " passed"@);
            let failed = parts::count_ahead(line, " failed"@);
            let heading = text::begins(text::trim_front(line), "Tests:"@);
            &&& !heading && text::has(line, " passed"@) && (text::has(line, "Tests"@) || text::has(
                line,
                "test"@,
            )) && 0 < passed + failed <= u64::MAX ==> (ts_summary(line) matches Some(c) && c.passed
                == passed && c.failed == failed && c.total == passed + failed)
            &&& !heading && (!text::has(line, " passed"@) || !(text::has(line, "Tests"@)
                || text::has(line, "test"@)) || passed + failed == 0) ==> ts_summary(line) is None
            &&& heading ==> ts_summary(line) is Some
        }),
{
}

/// A name that takes a hundred bytes or more is not told.
pub proof fn law_long_names_are_not_told(line: Seq<char>)
    ensures
        text::byte_len(text::trimmed(text::strip_set(text::trimmed(line), "●× "@))) >= 100
            ==> failing_in(line).len() == 0,
{
}

} // verus!
