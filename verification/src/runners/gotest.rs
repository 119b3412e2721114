//! `go test`.
use vstd::prelude::*;

use crate::data;
use crate::data::{Data, DataV};
use crate::detect::{Language, ProjectInfo};
use crate::plugin::{Layer, TestRunner};
use crate::process;
use crate::process::{ProcessOutput, SubprocessRunner};
use crate::report;
use crate::report::{Finding, FindingV, LayerMetrics, LayerResult, LayerResultV, LayerStatus, Severity};
use crate::runners::parts;
use crate::text;
use crate::time;

verus! {

#[derive(Debug, Default)]
pub struct GoTestRunner;

pub const ISOLATE_HINT: &'static str = "Run `go test ./... -v -run TestFailingName` to isolate the failure. Check for race conditions with `-race`.";

pub const PANIC_HINT: &'static str = "A panic in tests indicates a nil dereference or unrecovered error. Add defer/recover or fix the root cause.";

pub const NO_TESTS: &'static str = "No test files found. Add *_test.go files for logic verification.";

pub const NO_TESTS_HINT: &'static str = "Consider adding property-based tests using the `rapid` library (github.com/nicholasgasior/rapid) or `gopbt`.";

pub const GO_HINT: &'static str = "Ensure `go` is in PATH and the module is initialized with `go mod tidy`.";

impl TestRunner for GoTestRunner {
    fn name(&self) -> (r: &'static str)
        ensures
            r@ == "go-test"@,
    {
        "go-test"
    }

    fn layer(&self) -> (r: Layer)
        ensures
            r == Layer::Logic,
    {
        Layer::Logic
    }

    fn skip_message(&self) -> (r: &'static str)
        ensures
            r@ == "go not found or no go.mod present — install Go and run `go mod init` to enable testing"@,
    {
        "go not found or no go.mod present — install Go and run `go mod init` to enable testing"
    }
}

// ── events ──────────────────────────────────────────────────────────────────

/// What test events add up to.
pub struct GoCountsV {
    pub passed: nat,
    pub failed: nat,
    pub panics: Seq<Seq<char>>,
}

/// The panic that a failing event reports: the first line of its output.
pub open spec fn panic_in(event: DataV) -> Option<Seq<char>> {
    match event.text_at("Output"@) {
        Some(out) => if text::has(out, "panic:"@) {
            let lines = text::lines_of(out);
            Some(
                if lines.len() > 0 {
                    text::trimmed(lines[0])
                } else {
                    "unknown"@
                },
            )
        } else {
            None
        },
        None => None,
    }
}

/// Counts the events of single tests; those of packages name no test and are left aside.
pub open spec fn go_counts(events: Seq<DataV>) -> GoCountsV
    decreases events.len(),
{
    if events.len() == 0 {
        GoCountsV { passed: 0, failed: 0, panics: Seq::empty() }
    } else {
        let c = go_counts(events.drop_last());
        let e = events.last();
        let action = e.text_or("Action"@, ""@);
        if e.text_at("Test"@) is None {
            c
        } else if action == "pass"@ {
            GoCountsV { passed: c.passed + 1, ..c }
        } else if action == "fail"@ {
            GoCountsV {
                failed: c.failed + 1,
                panics: match panic_in(e) {
                    Some(p) => c.panics.push(p),
                    None => c.panics,
                },
                ..c
            }
        } else {
            c
        }
    }
}

fn read_panic(event: &Data) -> (r: Option<String>)
    ensures
        text::opt_view(r) == panic_in(event@),
{
    match event.get_str("Output") {
        Some(out) => {
            if text::contains(out, "panic:") {
                let lines = text::lines(out);
                if lines.len() > 0 {
                    assert(text::views(lines@)[0] == lines@[0]@);
                    Some(text::trim(lines[0].as_str()))
                } else {
                    Some("unknown".to_string())
                }
            } else {
                None
            }
        },
        None => None,
    }
}

/// Counts test events: passed, failed, and the panics among the failures.
pub fn count_go_events(events: &Vec<Data>) -> (r: (u64, u64, Vec<String>))
    ensures
        r.0 == go_counts(data::trees(events@)).passed,
        r.1 == go_counts(data::trees(events@)).failed,
        text::views(r.2@) == go_counts(data::trees(events@)).panics,
        r.0 + r.1 <= usize::MAX,
{
    let ghost all = data::trees(events@);
    let mut passed: u64 = 0;
    let mut failed: u64 = 0;
    let mut panics: Vec<String> = Vec::new();
    let total: usize = events.len();
    let mut i: usize = 0;
    assert(all.subrange(0, 0) =~= Seq::<DataV>::empty());
    assert(text::views(panics@) =~= Seq::<Seq<char>>::empty());
    while i < total
        invariant
            i <= total == events@.len(),
            all == data::trees(events@),
            passed + failed <= i,
            passed == go_counts(all.subrange(0, i as int)).passed,
            failed == go_counts(all.subrange(0, i as int)).failed,
            text::views(panics@) == go_counts(all.subrange(0, i as int)).panics,
        decreases events@.len() - i,
    {
        let event = &events[i];
        proof {
            let next = all.subrange(0, i + 1);
            assert(next.drop_last() =~= all.subrange(0, i as int));
            assert(next.last() == event@);
        }
        let action = event.str_or("Action", "");
        if event.get_str("Test").is_some() {
            if text::same(action.as_str(), "pass") {
                passed += 1;
            } else if text::same(action.as_str(), "fail") {
                failed += 1;
                let ghost before = text::views(panics@);
                match read_panic(event) {
                    Some(p) => {
                        panics.push(p);
                        assert(text::views(panics@) =~= before.push(p@));
                    },
                    None => {},
                }
            }
        }
        i += 1;
    }
    assert(all.subrange(0, i as int) =~= all);
    (passed, failed, panics)
}

/// The events in the output of `go test -json`: each line writes one.
pub open spec fn events_in(output: Seq<char>) -> Seq<DataV> {
    parts::all_parsed(text::lines_of(output))
}

/// Reads `go test -json` output: tests passed, tests failed, panics.
pub fn parse_go_json_output(output: &str) -> (r: (u64, u64, Vec<String>))
    ensures
        r.0 == go_counts(events_in(output@)).passed,
        r.1 == go_counts(events_in(output@)).failed,
        text::views(r.2@) == go_counts(events_in(output@)).panics,
        r.0 + r.1 <= usize::MAX,
{
    let lines = text::lines(output);
    let events = parts::parse_lines(&lines);
    count_go_events(&events)
}

// ── the result ──────────────────────────────────────────────────────────────

pub open spec fn panic_found(p: Seq<char>) -> FindingV {
    parts::found(
        Severity::Critical,
        "GO_PANIC"@,
        "Test panic detected: "@ + p,
        Some("go test ./... -v 2>&1"@),
        Some(PANIC_HINT@),
    )
}

pub open spec fn panics_found(panics: Seq<Seq<char>>) -> Seq<FindingV> {
    panics.map_values(|p: Seq<char>| panic_found(p))
}

/// The findings of a test run.
pub open spec fn go_findings(c: GoCountsV, stderr: Seq<char>) -> Seq<FindingV> {
    let total = c.passed + c.failed;
    let failures = if c.failed > 0 {
        seq![
            parts::found(
                Severity::High,
                "GO_TEST_FAILURE"@,
                text::decimal(c.failed) + " test(s) failed out of "@ + text::decimal(total),
                Some("go test ./... -v 2>&1 | head -100"@),
                Some(ISOLATE_HINT@),
            ),
        ]
    } else {
        Seq::empty()
    };
    let absent = if total == 0 && text::has(stderr, "no test files"@) {
        seq![
            parts::found(
                Severity::Info,
                "NO_GO_TESTS"@,
                NO_TESTS@,
                None,
                Some(NO_TESTS_HINT@),
            ),
        ]
    } else {
        Seq::empty()
    };
    failures + panics_found(c.panics) + absent
}

/// The status of a test run: failures and panics fail it, without tests it is skipped.
pub open spec fn go_status(c: GoCountsV) -> LayerStatus {
    if c.failed > 0 || c.panics.len() > 0 {
        LayerStatus::Fail
    } else if c.passed + c.failed == 0 {
        LayerStatus::Skipped
    } else {
        LayerStatus::Pass
    }
}

/// The result of a test run with the events `events`.
pub open spec fn counted(events: Seq<DataV>, stderr: Seq<char>, duration_ms: u64) -> LayerResultV {
    let c = go_counts(events);
    parts::result_of(
        Layer::Logic,
        "go-test"@,
        go_status(c),
        go_findings(c, stderr),
        parts::tested((c.passed + c.failed) as u64, c.passed as u64, c.failed as u64),
        duration_ms,
    )
}

/// The result of running `go test`.
pub open spec fn reported(outcome: Result<ProcessOutput, String>, duration_ms: u64) -> LayerResultV {
    match outcome {
        Ok(out) => counted(events_in(out.stdout@), out.stderr@, duration_ms),
        Err(e) => parts::failure_of(
            Layer::Logic,
            "go-test"@,
            parts::found(
                Severity::Critical,
                "GO_TEST_EXECUTION_FAILED"@,
                "Failed to run go test: "@ + e@,
                Some("go test ./... -v"@),
                Some(GO_HINT@),
            ),
            duration_ms,
        ),
    }
}

fn counted_findings(passed: u64, failed: u64, panics: &Vec<String>, stderr: &str) -> (r: Vec<Finding>)
    requires
        passed + failed <= u64::MAX,
    ensures
        report::findings_view(r@) == go_findings(
            GoCountsV { passed: passed as nat, failed: failed as nat, panics: text::views(panics@) },
            stderr@,
        ),
{
    let ghost c = GoCountsV {
        passed: passed as nat,
        failed: failed as nat,
        panics: text::views(panics@),
    };
    let ghost want = go_findings(c, stderr@);
    let total: u64 = passed + failed;
    let mut r: Vec<Finding> = Vec::new();
    if failed > 0 {
        let message = text::cat3(
            text::number(failed).as_str(),
            " test(s) failed out of ",
            text::number(total).as_str(),
        );
        r.push(
            parts::finding(
                Severity::High,
                "GO_TEST_FAILURE",
                message.as_str(),
                Some("go test ./... -v 2>&1 | head -100"),
                Some(ISOLATE_HINT),
            ),
        );
    }
    let ghost front = report::findings_view(r@);
    let mut i: usize = 0;
    assert(front + panics_found(text::views(panics@).subrange(0, 0)) =~= front);
    while i < panics.len()
        invariant
            i <= panics@.len(),
            report::findings_view(r@) == front + panics_found(
                text::views(panics@).subrange(0, i as int),
            ),
        decreases panics@.len() - i,
    {
        let message = text::cat("Test panic detected: ", panics[i].as_str());
        let f = parts::finding(
            Severity::Critical,
            "GO_PANIC",
            message.as_str(),
            Some("go test ./... -v 2>&1"),
            Some(PANIC_HINT),
        );
        let ghost before = report::findings_view(r@);
        r.push(f);
        proof {
            let all = text::views(panics@);
            assert(report::findings_view(r@) =~= before.push(f@));
            assert(f@ == panic_found(all[i as int]));
            assert(panics_found(all.subrange(0, i + 1)) =~= panics_found(
                all.subrange(0, i as int),
            ).push(f@));
        }
        i += 1;
    }
    assert(text::views(panics@).subrange(0, i as int) =~= text::views(panics@));
    if total == 0 && text::contains(stderr, "no test files") {
        r.push(parts::finding(Severity::Info, "NO_GO_TESTS", NO_TESTS, None, Some(NO_TESTS_HINT)));
    }
    assert(report::findings_view(r@) =~= want);
    r
}

/// The result of a test run with the events `events`.
pub fn report_events(events: &Vec<Data>, stderr: &str, duration_ms: u64) -> (r: LayerResult)
    ensures
        r@ == counted(data::trees(events@), stderr@, duration_ms),
{
    let (passed, failed, panics) = count_go_events(events);
    assert(text::views(panics@).len() == panics@.len());
    let findings = counted_findings(passed, failed, &panics, stderr);
    let status = if failed > 0 || panics.len() > 0 {
        LayerStatus::Fail
    } else if passed + failed == 0 {
        LayerStatus::Skipped
    } else {
        LayerStatus::Pass
    };
    let metrics = LayerMetrics {
        tests_run: passed + failed,
        passed,
        failed,
        coverage: None,
        mutation_score: None,
    };
    parts::layer_result(Layer::Logic, "go-test", status, findings, metrics, duration_ms)
}

/// The result of running `go test`.
pub fn report_go_test(outcome: &Result<ProcessOutput, String>, duration_ms: u64) -> (r: LayerResult)
    ensures
        r@ == reported(*outcome, duration_ms),
{
    match outcome {
        Ok(out) => {
            let lines = text::lines(out.stdout.as_str());
            let events = parts::parse_lines(&lines);
            report_events(&events, out.stderr.as_str(), duration_ms)
        },
        Err(e) => {
            let message = text::cat("Failed to run go test: ", e.as_str());
            let f = parts::finding(
                Severity::Critical,
                "GO_TEST_EXECUTION_FAILED",
                message.as_str(),
                Some("go test ./... -v"),
                Some(GO_HINT),
            );
            parts::failure(Layer::Logic, "go-test", f, duration_ms)
        },
    }
}

pub open spec fn go_args() -> Seq<Seq<char>> {
    seq!["test"@, "./..."@, "-json"@, "-count=1"@, "-race"@]
}

/// `r` is the result of one of the outcomes that running `go test` in `root` can have.
pub open spec fn is_run<P: SubprocessRunner>(
    before: P,
    after: P,
    root: Seq<char>,
    r: LayerResultV,
) -> bool {
    exists|o: Result<ProcessOutput, String>, ms: u64|
        #[trigger] before.answers("go"@, go_args(), root, o, after) && r == #[trigger] reported(o, ms)
}

impl GoTestRunner {
    pub fn is_available<P: SubprocessRunner>(&self, proc: &mut P, project: &ProjectInfo) -> (r: bool)
        ensures
            if project.language != Language::Go {
                !r && *final(proc) == *old(proc)
            } else {
                process::is_probed(*old(proc), "go"@, seq!["version"@], r, *final(proc))
            },
    {
        if project.language != Language::Go {
            return false;
        }
        let args = vec!["version".to_string()];
        assert(text::views(args@) =~= seq!["version"@]);
        proc.is_available("go", &args)
    }

    pub fn run<P: SubprocessRunner>(&self, proc: &mut P, project: &ProjectInfo) -> (r: LayerResult)
        ensures
            is_run(*old(proc), *final(proc), project.root@, r@),
    {
        let start = time::started();
        let args = vec![
            "test".to_string(),
            "./...".to_string(),
            "-json".to_string(),
            "-count=1".to_string(),
            "-race".to_string(),
        ];
        assert(text::views(args@) =~= go_args());
        let outcome = proc.run("go", &args, project.root.as_str());
        let ms = time::elapsed_ms(&start);
        let r = report_go_test(&outcome, ms);
        assert(old(proc).answers("go"@, go_args(), project.root@, outcome, *proc));
        assert(r@ == reported(outcome, ms));
        r
    }
}

/// Every test that ran passed or failed, and a run with a failure or a panic is failed.
pub proof fn law_go_results_add_up(events: Seq<DataV>, stderr: Seq<char>, duration_ms: u64)
    requires
        events.len() <= u64::MAX,
    ensures
        ({
            let r = counted(events, stderr, duration_ms);
            &&& r.metrics.tests_run == r.metrics.passed + r.metrics.failed
            &&& r.metrics.failed > 0 || go_counts(events).panics.len() > 0 <==> r.status
                == LayerStatus::Fail
            &&& r.status == LayerStatus::Skipped <==> r.metrics.tests_run == 0
        }),
{
    lemma_counts_bounded(events);
}

proof fn lemma_counts_bounded(events: Seq<DataV>)
    ensures
        go_counts(events).passed + go_counts(events).failed <= events.len(),
        go_counts(events).panics.len() <= go_counts(events).failed,
    decreases events.len(),
{
    if events.len() > 0 {
        lemma_counts_bounded(events.drop_last());
    }
}

// ── laws ────────────────────────────────────────────────────────────────────

/// An event of a test that passed counts as passed, one of a test that failed as failed,
/// with what it panicked of; no other event counts, nor one that names no test.
pub proof fn law_each_event_counts_once(events: Seq<DataV>, e: DataV)
    ensures
        ({
            let before = go_counts(events);
            let after = go_counts(events.push(e));
            &&& e.text_at("Test"@) is Some && e.text_at("Action"@) == Some("pass"@) ==> after.passed
                == before.passed + 1 && after.failed == before.failed && after.panics
                == before.panics
            &&& e.text_at("Test"@) is Some && e.text_at("Action"@) == Some("fail"@) ==> after.failed
                == before.failed + 1 && after.passed == before.passed && (match e.text_at(
                "Output"@,
            ) {
                Some(out) => if text::has(out, "panic:"@) {
                    after.panics.len() == before.panics.len() + 1
                } else {
                    after.panics == before.panics
                },
                None => after.panics == before.panics,
            })
            &&& e.text_at("Test"@) is None || (e.text_at("Action"@) != Some("pass"@) && e.text_at(
                "Action"@,
            ) != Some("fail"@)) ==> after == before
        }),
        go_counts(Seq::empty()) == (GoCountsV { passed: 0, failed: 0, panics: Seq::empty() }),
{
    assert(events.push(e).drop_last() =~= events);
    reveal_strlit("pass");
    reveal_strlit("fail");
    reveal_strlit("");
    assert("pass"@[0] != "fail"@[0]);
    assert(""@.len() == 0);
}

/// The tests fail where one failed or panicked, are skipped where none ran, and pass else.
/// The counts are the metrics; a failure gives a high finding, each panic a critical one.
pub proof fn law_failed_tests_fail(events: Seq<DataV>, stderr: Seq<char>, ms: u64, i: int)
    requires
        events.len() <= u64::MAX,
    ensures
        ({
            let r = counted(events, stderr, ms);
            let c = go_counts(events);
            &&& r.name == "logic"@ && r.runner == "go-test"@ && r.duration_ms == ms
            &&& r.status == LayerStatus::Fail <==> c.failed > 0 || c.panics.len() > 0
            &&& r.status == LayerStatus::Skipped <==> c.failed == 0 && c.panics.len() == 0
                && c.passed == 0
            &&& r.metrics.passed == c.passed && r.metrics.failed == c.failed && r.metrics.tests_run
                == c.passed + c.failed
            &&& c.failed > 0 ==> r.findings.len() > 0 && r.findings[0].severity == Severity::High
                && r.findings[0].code == "GO_TEST_FAILURE"@
            &&& 0 <= i < c.panics.len() ==> r.findings.contains(panic_found(c.panics[i]))
            &&& 0 <= i < c.panics.len() ==> panic_found(c.panics[i]).severity == Severity::Critical
            &&& r.status == LayerStatus::Pass ==> r.findings.len() == 0
        }),
{
    law_go_results_add_up(events, stderr, ms);
    let c = go_counts(events);
    let v = go_findings(c, stderr);
    lemma_counts_bound(events);
    if 0 <= i < c.panics.len() {
        let lead = if c.failed > 0 {
            1int
        } else {
            0int
        };
        assert(v[lead + i] == panic_found(c.panics[i]));
    }
}

proof fn lemma_counts_bound(events: Seq<DataV>)
    ensures
        go_counts(events).passed + go_counts(events).failed <= events.len(),
    decreases events.len(),
{
    if events.len() > 0 {
        lemma_counts_bound(events.drop_last());
    }
}

/// A test run that cannot be made fails with one critical finding.
pub proof fn law_what_cannot_run_fails(e: String, ms: u64)
    ensures
        ({
            let r = reported(Err(e), ms);
            &&& r.status == LayerStatus::Fail && r.findings.len() == 1 && r.findings[0].severity
                == Severity::Critical && r.metrics.failed == 1 && r.runner == "go-test"@
        }),
{
}

/// How the tool is called.
pub proof fn law_arguments_of_the_tool()
    ensures
        go_args() == seq!["test"@, "./..."@, "-json"@, "-count=1"@, "-race"@],
{
}

/// What is said where the tool cannot be run.
pub proof fn law_what_a_failed_start_says(e: String, ms: u64)
    ensures
        ({
            let r = reported(Err(e), ms);
            &&& r.runner == "go-test"@ && r.status == LayerStatus::Fail && r.findings.len() == 1
            &&& r.findings[0].severity == Severity::Critical
            &&& r.findings[0].code == "GO_TEST_EXECUTION_FAILED"@
            &&& r.findings[0].message == "Failed to run go test: "@ + e@
            &&& r.findings[0].reproduce_cmd == Some("go test ./... -v"@)
        }),
{
}

/// Which program is started, with which arguments and where.
pub proof fn law_what_is_started<P: SubprocessRunner>(
    before: P,
    after: P,
    root: Seq<char>,
    r: LayerResultV,
    args: Seq<Seq<char>>,
)
    requires
        args == seq!["test"@, "./..."@, "-json"@, "-count=1"@, "-race"@],
        is_run(before, after, root, r),
    ensures
        exists|o: Result<ProcessOutput, String>, ms: u64|
            #[trigger] before.answers(
                "go"@,
                args,
                root,
                o,
                after,
            ) && r == #[trigger] reported(o, ms),
{
    let (o, ms): (Result<ProcessOutput, String>, u64) = choose|
        o: Result<ProcessOutput, String>,
        ms: u64,
    | #[trigger] before.answers("go"@, go_args(), root, o, after) && r == #[trigger] reported(o, ms);
    assert(before.answers("go"@, args, root, o, after));
    assert(r == reported(o, ms));
}

/// What is said of failed tests, of panics and of a project without tests.
pub proof fn law_what_go_tests_say(c: GoCountsV, stderr: Seq<char>, p: Seq<char>)
    ensures
        panic_found(p).severity == Severity::Critical && panic_found(p).code == "GO_PANIC"@,
        panic_found(p).message == "Test panic detected: "@ + p,
        panic_found(p).reproduce_cmd == Some("go test ./... -v 2>&1"@),
        c.failed > 0 ==> go_findings(c, stderr).len() > 0 && go_findings(c, stderr)[0].severity
            == Severity::High && go_findings(c, stderr)[0].code == "GO_TEST_FAILURE"@
            && go_findings(c, stderr)[0].message == text::decimal(c.failed)
            + " test(s) failed out of "@ + text::decimal(c.passed + c.failed) && go_findings(
            c,
            stderr,
        )[0].reproduce_cmd == Some("go test ./... -v 2>&1 | head -100"@),
        c.passed + c.failed == 0 && text::has(stderr, "no test files"@) ==> go_findings(
            c,
            stderr,
        ).len() > 0 && go_findings(c, stderr).last().severity == Severity::Info && go_findings(
            c,
            stderr,
        ).last().code == "NO_GO_TESTS"@,
{
}

/// A result belongs to the layer and the runner that it is of, whatever came out.
pub proof fn law_where_results_belong(outcome: Result<ProcessOutput, String>, duration_ms: u64)
    ensures
        reported(outcome, duration_ms).name == "logic"@,
        reported(outcome, duration_ms).runner == "go-test"@,
        reported(outcome, duration_ms).duration_ms == duration_ms,
{
}

} // verus!
