//! `cargo test` with property-based tests.
use vstd::prelude::*;

use crate::detect::{Language, ProjectInfo};
use crate::files::Files;
use crate::plugin::{Layer, TestRunner};
use crate::process::{ProcessOutput, SubprocessRunner};
use crate::report::{LayerMetrics, LayerResult, LayerResultV, LayerStatus, Severity};
use crate::runners::parts;
use crate::text;
use crate::time;

verus! {

#[derive(Debug, Default)]
pub struct ProptestRunner;

pub const SKIP: &'static str = "No property-based tests found — add `proptest` to dev-dependencies for invariant testing";

pub const SHRINK_HINT: &'static str = "Check the counterexample printed by proptest. The failure shrinks to the minimal failing case automatically.";

pub const CARGO_HINT: &'static str = "Ensure `cargo` is in PATH and the project compiles.";

impl TestRunner for ProptestRunner {
    fn name(&self) -> (r: &'static str)
        ensures
            r@ == "proptest"@,
    {
        "proptest"
    }

    fn layer(&self) -> (r: Layer)
        ensures
            r == Layer::Logic,
    {
        Layer::Logic
    }

    fn skip_message(&self) -> (r: &'static str)
        ensures
            r@ == SKIP@,
    {
        SKIP
    }
}

// ── output ──────────────────────────────────────────────────────────────────

/// Tests in all, passed, and failed.
pub struct TestCounts {
    pub total: u64,
    pub passed: u64,
    pub failed: u64,
}

pub open spec fn counts_from(lines: Seq<Seq<char>>, i: int) -> TestCounts
    decreases lines.len() - i,
{
    if i < 0 || i >= lines.len() {
        TestCounts { total: 1, passed: 1, failed: 0 }
    } else if text::begins(lines[i], "test result:"@) {
        let passed = parts::count_ahead(lines[i], " passed"@);
        let failed = parts::count_ahead(lines[i], " failed"@);
        TestCounts { total: parts::capped((passed + failed) as nat), passed, failed }
    } else {
        counts_from(lines, i + 1)
    }
}

/// The counts of the first summary in an output; one passed test where there is none.
pub open spec fn test_counts(output: Seq<char>) -> TestCounts {
    counts_from(text::lines_of(output), 0)
}

/// The number before `label`; 0 where there is none.
pub fn extract_count(line: &str, label: &str) -> (r: u64)
    ensures
        r == parts::count_ahead(line@, label@),
{
    parts::count_before(line, label)
}

/// Tests in all, passed, and failed.
pub fn parse_test_counts(output: &str) -> (r: (u64, u64, u64))
    ensures
        r.0 == test_counts(output@).total,
        r.1 == test_counts(output@).passed,
        r.2 == test_counts(output@).failed,
{
    let lines = text::lines(output);
    let ghost all = text::lines_of(output@);
    let mut i: usize = 0;
    while i < lines.len()
        invariant
            i <= lines@.len(),
            all == text::lines_of(output@),
            all == text::views(lines@),
            counts_from(all, i as int) == test_counts(output@),
        decreases lines@.len() - i,
    {
        assert(all[i as int] == lines@[i as int]@);
        let line = lines[i].as_str();
        if text::starts_with(line, "test result:") {
            let passed = extract_count(line, " passed");
            let failed = extract_count(line, " failed");
            return (parts::add_up(passed, failed), passed, failed);
        }
        i += 1;
    }
    (1, 1, 0)
}

/// The summary that `cargo test` prints.
pub open spec fn summary_line(passed: nat, failed: nat) -> Seq<char> {
    "test result: ok. "@ + text::decimal(passed) + " passed; "@ + text::decimal(failed)
        + " failed; 0 ignored"@
}

/// The counts that a summary gives are read back from it, and their total is their sum.
pub proof fn law_summary_reads_back(passed: u64, failed: u64)
    requires
        passed + failed <= u64::MAX,
    ensures
        test_counts(summary_line(passed as nat, failed as nat)) == (TestCounts {
            total: (passed + failed) as u64,
            passed,
            failed,
        }),
{
    reveal_strlit("test result: ok. ");
    reveal_strlit("test result:");
    reveal_strlit(" passed; ");
    reveal_strlit(" failed; 0 ignored");
    reveal_strlit(" passed");
    reveal_strlit(" failed");
    let dp = text::decimal(passed as nat);
    let df = text::decimal(failed as nat);
    let s = summary_line(passed as nat, failed as nat);
    text::lemma_decimal_reads_back(passed as nat);
    text::lemma_decimal_reads_back(failed as nat);
    let at_passed = 17int + dp.len();
    let at_failed = at_passed + 9 + df.len();
    assert forall|i: int| 17 <= i < at_passed implies #[trigger] text::is_digit(s[i]) by {
        assert(text::is_digit(dp[i - 17]));
    }
    assert forall|i: int| at_passed + 9 <= i < at_failed implies #[trigger] text::is_digit(
        s[i],
    ) by {
        assert(text::is_digit(df[i - at_passed - 9]));
    }
    assert forall|i: int| 0 <= i < s.len() implies s[i] != '\n' by {
        if 17 <= i < at_passed || at_passed + 9 <= i < at_failed {
            assert(text::is_digit(s[i]));
        }
    }
    text::lemma_before_len_is(s, '\n', s.len() as int);
    assert(text::lines_of(s) =~= seq![s]);
    assert(text::begins(s, "test result:"@)) by {
        assert(s.subrange(0, 12) =~= "test result:"@);
    }
    // the passed tests
    assert(text::occurs_at(s, " passed"@, at_passed)) by {
        assert(s.subrange(at_passed, at_passed + 7) =~= " passed"@);
    }
    assert forall|j: int| 0 <= j < at_passed implies !text::occurs_at(s, " passed"@, j) by {
        let t = s.subrange(j, j + 7);
        assert(t[0] == s[j] && t[1] == s[j + 1]);
        if 17 <= j {
            assert(text::is_digit(s[j]));
        } else if j == 16 {
            assert(text::is_digit(s[17]));
        }
    }
    text::lemma_find_from(s, " passed"@, 0);
    let front = s.subrange(0, at_passed);
    assert forall|i: int| 17 <= i < front.len() implies !text::is_space(front[i]) by {
        assert(text::is_digit(s[i]));
    }
    text::lemma_last_word(front, 17);
    assert(front.subrange(17, front.len() as int) =~= dp);
    text::lemma_number_round_trip(passed);
    // the failed tests
    assert(text::occurs_at(s, " failed"@, at_failed)) by {
        assert(s.subrange(at_failed, at_failed + 7) =~= " failed"@);
    }
    assert forall|j: int| 0 <= j < at_failed implies !text::occurs_at(s, " failed"@, j) by {
        let t = s.subrange(j, j + 7);
        assert(t[0] == s[j] && t[1] == s[j + 1]);
        if 17 <= j < at_passed || at_passed + 9 <= j {
            assert(text::is_digit(s[j]));
        } else if j == 16 || j == at_passed + 8 {
            assert(text::is_digit(s[j + 1]));
        }
    }
    text::lemma_find_from(s, " failed"@, 0);
    let back = s.subrange(0, at_failed);
    assert forall|i: int| at_passed + 9 <= i < back.len() implies !text::is_space(back[i]) by {
        assert(text::is_digit(s[i]));
    }
    text::lemma_last_word(back, at_passed + 9);
    assert(back.subrange(at_passed + 9, back.len() as int) =~= df);
    text::lemma_number_round_trip(failed);
}

// ── the result ──────────────────────────────────────────────────────────────

/// The result of running `cargo test`.
pub open spec fn reported(outcome: Result<ProcessOutput, String>, duration_ms: u64) -> LayerResultV {
    match outcome {
        Ok(out) => {
            let c = test_counts(out.both());
            parts::result_of(
                Layer::Logic,
                "proptest"@,
                if out.success {
                    LayerStatus::Pass
                } else {
                    LayerStatus::Fail
                },
                if out.success {
                    Seq::empty()
                } else {
                    seq![
                        parts::found(
                            Severity::High,
                            "PBT_FAILURE"@,
                            "Property-based tests failed"@,
                            Some("cargo test -- --nocapture 2>&1 | head -80"@),
                            Some(SHRINK_HINT@),
                        ),
                    ]
                },
                parts::tested(c.total, c.passed, c.failed),
                duration_ms,
            )
        },
        Err(e) => parts::failure_of(
            Layer::Logic,
            "proptest"@,
            parts::found(
                Severity::Critical,
                "PBT_EXECUTION_ERROR"@,
                "Failed to run cargo test: "@ + e@,
                Some("cargo test 2>&1"@),
                Some(CARGO_HINT@),
            ),
            duration_ms,
        ),
    }
}

/// The result of running `cargo test`.
pub fn report_proptest(outcome: &Result<ProcessOutput, String>, duration_ms: u64) -> (r: LayerResult)
    ensures
        r@ == reported(*outcome, duration_ms),
{
    match outcome {
        Ok(out) => {
            let combined = out.combined();
            let (total, passed, failed) = parse_test_counts(combined.as_str());
            let findings = if out.success {
                parts::nothing()
            } else {
                parts::one(
                    parts::finding(
                        Severity::High,
                        "PBT_FAILURE",
                        "Property-based tests failed",
                        Some("cargo test -- --nocapture 2>&1 | head -80"),
                        Some(SHRINK_HINT),
                    ),
                )
            };
            let status = if out.success {
                LayerStatus::Pass
            } else {
                LayerStatus::Fail
            };
            let metrics = LayerMetrics {
                tests_run: total,
                passed,
                failed,
                coverage: None,
                mutation_score: None,
            };
            parts::layer_result(
                    Layer::Logic,
                    "proptest",
                    status,
                    findings,
                    metrics,
                    duration_ms,
                )
        },
        Err(e) => {
            let message = text::cat("Failed to run cargo test: ", e.as_str());
            let f = parts::finding(
                Severity::Critical,
                "PBT_EXECUTION_ERROR",
                message.as_str(),
                Some("cargo test 2>&1"),
                Some(CARGO_HINT),
            );
            parts::failure(Layer::Logic, "proptest", f, duration_ms)
        },
    }
}

pub open spec fn test_args() -> Seq<Seq<char>> {
    seq!["test"@]
}

/// `r` is the result of one of the outcomes that running `cargo test` in `root` can have.
pub open spec fn is_run<P: SubprocessRunner>(
    before: P,
    after: P,
    root: Seq<char>,
    r: LayerResultV,
) -> bool {
    exists|o: Result<ProcessOutput, String>, ms: u64|
        #[trigger] before.answers("cargo"@, test_args(), root, o, after) && r == #[trigger] reported(o, ms)
}

impl ProptestRunner {
    pub fn is_available(&self, project: &ProjectInfo, files: &Files) -> (r: bool)
        ensures
            r == (project.language == Language::Rust && text::has(
                files.content("Cargo.toml"@),
                "proptest"@,
            )),
    {
        if project.language != Language::Rust {
            return false;
        }
        let manifest = files.read("Cargo.toml");
        text::contains(manifest.as_str(), "proptest")
    }

    pub fn run<P: SubprocessRunner>(&self, proc: &mut P, project: &ProjectInfo) -> (r: LayerResult)
        ensures
            is_run(*old(proc), *final(proc), project.root@, r@),
    {
        let start = time::started();
        let args = vec!["test".to_string()];
        assert(text::views(args@) =~= test_args());
        let outcome = proc.run("cargo", &args, project.root.as_str());
        let ms = time::elapsed_ms(&start);
        let r = report_proptest(&outcome, ms);
        assert(old(proc).answers("cargo"@, test_args(), project.root@, outcome, *proc));
        r
    }
}

// ── laws ────────────────────────────────────────────────────────────────────

/// The tests pass exactly where the command succeeds. Where it does not, there is one high
/// finding; a command that cannot be run fails with one critical finding.
pub proof fn law_outcome_decides(out: ProcessOutput, ms: u64, e: String)
    ensures
        ({
            let r = reported(Ok(out), ms);
            &&& r.name == "logic"@ && r.runner == "proptest"@ && r.duration_ms == ms
            &&& out.success ==> r.status == LayerStatus::Pass && r.findings.len() == 0
            &&& !out.success ==> r.status == LayerStatus::Fail && r.findings.len() == 1
                && r.findings[0].severity == Severity::High && r.findings[0].code == "PBT_FAILURE"@
            &&& r.metrics.mutation_score is None
        }),
        ({
            let r = reported(Err(e), ms);
            &&& r.status == LayerStatus::Fail && r.findings.len() == 1 && r.findings[0].severity
                == Severity::Critical && r.metrics.failed == 1 && r.runner == "proptest"@
        }),
{
}

/// The first line that begins with `test result:` counts: what it states as passed and
/// failed are the metrics of the result, and both together ran. Without such a line one
/// test counts as passed.
pub proof fn law_first_result_counts(out: ProcessOutput, ms: u64, i: int, passed: u64, failed: u64)
    requires
        0 <= i < text::lines_of(out.both()).len(),
        text::begins(text::lines_of(out.both())[i], "test result:"@),
        forall|k: int|
            0 <= k < i ==> !text::begins(
                #[trigger] text::lines_of(out.both())[k],
                "test result:"@,
            ),
        parts::states(text::lines_of(out.both())[i], passed, " passed"@),
        parts::states(text::lines_of(out.both())[i], failed, " failed"@),
        passed + failed <= u64::MAX,
    ensures
        reported(Ok(out), ms).metrics == parts::tested((passed + failed) as u64, passed, failed),
{
    let lines = text::lines_of(out.both());
    lemma_result_at(lines, 0, i);
    parts::law_stated_numbers_count(lines[i], passed, " passed"@);
    parts::law_stated_numbers_count(lines[i], failed, " failed"@);
}

proof fn lemma_result_at(lines: Seq<Seq<char>>, from: int, i: int)
    requires
        0 <= from <= i < lines.len(),
        text::begins(lines[i], "test result:"@),
        forall|k: int| from <= k < i ==> !text::begins(#[trigger] lines[k], "test result:"@),
    ensures
        counts_from(lines, from) == counts_from(lines, i),
    decreases i - from,
{
    if from < i {
        assert(!text::begins(lines[from], "test result:"@));
        lemma_result_at(lines, from + 1, i);
    }
}

/// How the tool is called.
pub proof fn law_arguments_of_the_tool()
    ensures
        test_args() == seq!["test"@],
{
}

/// What is said where the tool cannot be run.
pub proof fn law_what_a_failed_start_says(e: String, ms: u64)
    ensures
        ({
            let r = reported(Err(e), ms);
            &&& r.runner == "proptest"@ && r.status == LayerStatus::Fail && r.findings.len() == 1
            &&& r.findings[0].severity == Severity::Critical
            &&& r.findings[0].code == "PBT_EXECUTION_ERROR"@
            &&& r.findings[0].message == "Failed to run cargo test: "@ + e@
            &&& r.findings[0].reproduce_cmd == Some("cargo test 2>&1"@)
        }),
{
}

/// Which program is started, with which arguments and where.
pub proof fn law_what_is_started<P: SubprocessRunner>(
    before: P,
    after: P,
    root: Seq<char>,
    r: LayerResultV,
    args: Seq<Seq<char>>,
)
    requires
        args == seq!["test"@],
        is_run(before, after, root, r),
    ensures
        exists|o: Result<ProcessOutput, String>, ms: u64|
            #[trigger] before.answers(
                "cargo"@,
                args,
                root,
                o,
                after,
            ) && r == #[trigger] reported(o, ms),
{
    let (o, ms): (Result<ProcessOutput, String>, u64) = choose|
        o: Result<ProcessOutput, String>,
        ms: u64,
    | #[trigger] before.answers("cargo"@, test_args(), root, o, after) && r == #[trigger] reported(o, ms);
    assert(before.answers("cargo"@, args, root, o, after));
    assert(r == reported(o, ms));
}

/// What is said of failed tests.
pub proof fn law_what_failed_tests_say(out: ProcessOutput, ms: u64)
    requires
        !out.success,
    ensures
        reported(Ok(out), ms).findings.len() == 1,
        reported(Ok(out), ms).findings[0].severity == Severity::High,
        reported(Ok(out), ms).findings[0].code == "PBT_FAILURE"@,
        reported(Ok(out), ms).findings[0].message == "Property-based tests failed"@,
        reported(Ok(out), ms).findings[0].reproduce_cmd == Some(
            "cargo test -- --nocapture 2>&1 | head -80"@,
        ),
{
}

/// A result belongs to the layer and the runner that it is of, whatever came out.
pub proof fn law_where_results_belong(outcome: Result<ProcessOutput, String>, duration_ms: u64)
    ensures
        reported(outcome, duration_ms).name == "logic"@,
        reported(outcome, duration_ms).runner == "proptest"@,
        reported(outcome, duration_ms).duration_ms == duration_ms,
{
}

} // verus!
