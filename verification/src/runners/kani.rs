//! Kani: formal verification of Rust projects.
use vstd::prelude::*;

use crate::detect::{Language, ProjectInfo};
use crate::files;
use crate::files::{Entry, Files};
use crate::plugin::{Layer, TestRunner};
use crate::process;
use crate::process::{ProcessOutput, SubprocessRunner};
use crate::report;
use crate::report::{Finding, FindingV, LayerMetrics, LayerResult, LayerResultV, LayerStatus, Severity};
use crate::runners::parts;
use crate::text;
use crate::time;

verus! {

#[derive(Debug, Default)]
pub struct KaniRunner;

pub const SKIP: &'static str = "No #[kani::proof] harnesses found — annotate critical functions with #[kani::proof] and add `kani-verifier` to dev-dependencies for formal verification";

pub const TRACE_HINT: &'static str = "Kani found a concrete counterexample. Check the trace printed above to identify which assertion fails and under what inputs.";

pub const FAILED: &'static str = "Kani verification failed — run `cargo kani 2>&1` for the full trace";

pub const INSTALL_HINT: &'static str = "Install kani: `cargo install --locked kani-verifier && cargo kani setup`";

impl TestRunner for KaniRunner {
    fn name(&self) -> (r: &'static str)
        ensures
            r@ == "kani"@,
    {
        "kani"
    }

    fn layer(&self) -> (r: Layer)
        ensures
            r == Layer::Logic,
    {
        Layer::Logic
    }

    fn skip_message(&self) -> (r: &'static str)
        ensures
            r@ == SKIP@,
    {
        SKIP
    }
}

// ── harnesses ───────────────────────────────────────────────────────────────

/// `e` is a Rust file somewhere under `src` that holds a harness.
pub open spec fn is_harness(e: Entry) -> bool {
    !e.dir && text::begins(e.path@, "src/"@) && files::extension_of(files::name_of(e.path@)) == Some(
        "rs"@,
    ) && match e.text {
        Some(t) => text::has(t@, "#[kani::proof]"@),
        None => false,
    }
}

/// Whether a project has harnesses.
pub fn has_kani_harnesses(files: &Files) -> (r: bool)
    ensures
        r == exists|i: int| 0 <= i < files.entries@.len() && is_harness(#[trigger] files.entries@[i]),
{
    let mut i: usize = 0;
    while i < files.entries.len()
        invariant
            i <= files.entries@.len(),
            forall|k: int| 0 <= k < i ==> !is_harness(#[trigger] files.entries@[k]),
        decreases files.entries@.len() - i,
    {
        let e = &files.entries[i];
        if !e.dir && text::starts_with(e.path.as_str(), "src/") {
            let name = files::file_name(e.path.as_str());
            let rust = match files::extension(name.as_str()) {
                Some(x) => text::same(x.as_str(), "rs"),
                None => false,
            };
            if rust {
                match &e.text {
                    Some(t) => {
                        if text::contains(t.as_str(), "#[kani::proof]") {
                            assert(is_harness(files.entries@[i as int]));
                            return true;
                        }
                    },
                    None => {},
                }
            }
        }
        i += 1;
    }
    false
}

// ── output ──────────────────────────────────────────────────────────────────

pub open spec fn is_verified(line: Seq<char>) -> bool {
    text::has(line, "VERIFICATION"@) && text::has(line, "SUCCESSFUL"@)
}

pub open spec fn is_failed(line: Seq<char>) -> bool {
    text::has(line, "VERIFICATION"@) && text::has(line, "FAILED"@)
}

/// How many lines say that a harness was verified.
pub open spec fn verified_count(lines: Seq<Seq<char>>) -> nat
    decreases lines.len(),
{
    if lines.len() == 0 {
        0
    } else {
        verified_count(lines.drop_last()) + if is_verified(lines.last()) {
            1nat
        } else {
            0nat
        }
    }
}

/// How many lines say that a harness failed.
pub open spec fn failed_count(lines: Seq<Seq<char>>) -> nat
    decreases lines.len(),
{
    if lines.len() == 0 {
        0
    } else {
        failed_count(lines.drop_last()) + if is_failed(lines.last()) {
            1nat
        } else {
            0nat
        }
    }
}

/// Harnesses verified and failed.
pub fn parse_kani_output(output: &str) -> (r: (u64, u64))
    ensures
        r.0 == verified_count(text::lines_of(output@)),
        r.1 == failed_count(text::lines_of(output@)),
        r.0 <= usize::MAX && r.1 <= usize::MAX,
{
    let lines = text::lines(output);
    let ghost all = text::lines_of(output@);
    let mut verified: u64 = 0;
    let mut failed: u64 = 0;
    let total: usize = lines.len();
    let mut i: usize = 0;
    assert(all.subrange(0, 0) =~= Seq::<Seq<char>>::empty());
    while i < total
        invariant
            i <= total == lines@.len(),
            all == text::views(lines@),
            verified <= i && failed <= i,
            verified == verified_count(all.subrange(0, i as int)),
            failed == failed_count(all.subrange(0, i as int)),
        decreases lines@.len() - i,
    {
        proof {
            let next = all.subrange(0, i + 1);
            assert(next.drop_last() =~= all.subrange(0, i as int));
            assert(next.last() == lines@[i as int]@);
        }
        let line = lines[i].as_str();
        if text::contains(line, "VERIFICATION") && text::contains(line, "SUCCESSFUL") {
            verified += 1;
        }
        if text::contains(line, "VERIFICATION") && text::contains(line, "FAILED") {
            failed += 1;
        }
        i += 1;
    }
    assert(all.subrange(0, i as int) =~= all);
    (verified, failed)
}

/// The name in the first line that says which harness is checked, from line `i` on.
pub open spec fn harness_from(lines: Seq<Seq<char>>, i: int) -> Seq<char>
    decreases lines.len() - i,
{
    if i < 0 || i >= lines.len() {
        "unknown"@
    } else if text::has(lines[i], "Checking harness"@) {
        match text::last_word_of(lines[i]) {
            Some(w) => w,
            None => "unknown"@,
        }
    } else {
        harness_from(lines, i + 1)
    }
}

fn harness_name(lines: &Vec<String>) -> (r: String)
    ensures
        r@ == harness_from(text::views(lines@), 0),
{
    let ghost all = text::views(lines@);
    let mut i: usize = 0;
    while i < lines.len()
        invariant
            i <= lines@.len(),
            all == text::views(lines@),
            harness_from(all, i as int) == harness_from(all, 0),
        decreases lines@.len() - i,
    {
        assert(all[i as int] == lines@[i as int]@);
        if text::contains(lines[i].as_str(), "Checking harness") {
            return match text::last_word(lines[i].as_str()) {
                Some(w) => w,
                None => "unknown".to_string(),
            };
        }
        i += 1;
    }
    "unknown".to_string()
}

pub open spec fn harness_failed(harness: Seq<char>) -> FindingV {
    parts::found(
        Severity::Critical,
        "KANI_VERIFICATION_FAILED"@,
        "Formal verification failed for harness `"@ + harness
            + "` — a reachable assertion is violated"@,
        Some("cargo kani --harness "@ + harness + " 2>&1"@),
        Some(TRACE_HINT@),
    )
}

pub open spec fn only_failed() -> FindingV {
    parts::found(Severity::High, "KANI_FAILED"@, FAILED@, Some("cargo kani 2>&1"@), None)
}

/// One finding for each failed harness; one for all where no line tells of a failure.
pub open spec fn kani_failures(output: Seq<char>) -> Seq<FindingV> {
    let lines = text::lines_of(output);
    if failed_count(lines) == 0 {
        seq![only_failed()]
    } else {
        Seq::new(failed_count(lines), |i: int| harness_failed(harness_from(lines, 0)))
    }
}

pub fn extract_kani_failures(output: &str) -> (r: Vec<Finding>)
    ensures
        report::findings_view(r@) == kani_failures(output@),
{
    let lines = text::lines(output);
    let ghost all = text::lines_of(output@);
    let harness = harness_name(&lines);
    let mut r: Vec<Finding> = Vec::new();
    let mut i: usize = 0;
    assert(all.subrange(0, 0) =~= Seq::<Seq<char>>::empty());
    while i < lines.len()
        invariant
            i <= lines@.len(),
            all == text::views(lines@),
            harness@ == harness_from(all, 0),
            r@.len() == failed_count(all.subrange(0, i as int)),
            forall|k: int| 0 <= k < r@.len() ==> (#[trigger] r@[k])@ == harness_failed(harness@),
        decreases lines@.len() - i,
    {
        proof {
            let next = all.subrange(0, i + 1);
            assert(next.drop_last() =~= all.subrange(0, i as int));
            assert(next.last() == lines@[i as int]@);
        }
        let line = lines[i].as_str();
        if text::contains(line, "VERIFICATION") && text::contains(line, "FAILED") {
            let message = text::cat3(
                "Formal verification failed for harness `",
                harness.as_str(),
                "` — a reachable assertion is violated",
            );
            let cmd = text::cat3("cargo kani --harness ", harness.as_str(), " 2>&1");
            r.push(
                parts::finding(
                    Severity::Critical,
                    "KANI_VERIFICATION_FAILED",
                    message.as_str(),
                    Some(cmd.as_str()),
                    Some(TRACE_HINT),
                ),
            );
        }
        i += 1;
    }
    assert(all.subrange(0, i as int) =~= all);
    if r.len() == 0 {
        return parts::one(
            parts::finding(Severity::High, "KANI_FAILED", FAILED, Some("cargo kani 2>&1"), None),
        );
    }
    assert(report::findings_view(r@) =~= kani_failures(output@));
    r
}

// ── the result ──────────────────────────────────────────────────────────────

/// The result of running Kani.
pub open spec fn reported(outcome: Result<ProcessOutput, String>, duration_ms: u64) -> LayerResultV {
    match outcome {
        Ok(out) => {
            let verified = verified_count(text::lines_of(out.both()));
            let failed = failed_count(text::lines_of(out.both()));
            parts::result_of(
                Layer::Logic,
                "kani"@,
                if failed > 0 {
                    LayerStatus::Fail
                } else if verified + failed == 0 {
                    LayerStatus::Skipped
                } else {
                    LayerStatus::Pass
                },
                if failed > 0 {
                    kani_failures(out.both())
                } else {
                    Seq::empty()
                },
                parts::tested(parts::capped(verified + failed), verified as u64, failed as u64),
                duration_ms,
            )
        },
        Err(e) => parts::failure_of(
            Layer::Logic,
            "kani"@,
            parts::found(
                Severity::Critical,
                "KANI_EXECUTION_FAILED"@,
                "Failed to run kani: "@ + e@,
                Some("cargo kani 2>&1"@),
                Some(INSTALL_HINT@),
            ),
            duration_ms,
        ),
    }
}

/// The result of running Kani.
pub fn report_kani(outcome: &Result<ProcessOutput, String>, duration_ms: u64) -> (r: LayerResult)
    ensures
        r@ == reported(*outcome, duration_ms),
{
    match outcome {
        Ok(out) => {
            let combined = out.combined();
            let (verified, failed) = parse_kani_output(combined.as_str());
            let total = parts::add_up(verified, failed);
            let status = if failed > 0 {
                LayerStatus::Fail
            } else if total == 0 {
                LayerStatus::Skipped
            } else {
                LayerStatus::Pass
            };
            let findings = if failed > 0 {
                extract_kani_failures(combined.as_str())
            } else {
                parts::nothing()
            };
            let metrics = LayerMetrics {
                tests_run: total,
                passed: verified,
                failed,
                coverage: None,
                mutation_score: None,
            };
            parts::layer_result(Layer::Logic, "kani", status, findings, metrics, duration_ms)
        },
        Err(e) => {
            let message = text::cat("Failed to run kani: ", e.as_str());
            let f = parts::finding(
                Severity::Critical,
                "KANI_EXECUTION_FAILED",
                message.as_str(),
                Some("cargo kani 2>&1"),
                Some(INSTALL_HINT),
            );
            parts::failure(Layer::Logic, "kani", f, duration_ms)
        },
    }
}

pub open spec fn version_args() -> Seq<Seq<char>> {
    seq!["kani"@, "--version"@]
}

pub open spec fn kani_args() -> Seq<Seq<char>> {
    seq!["kani"@]
}

/// `r` is the result of one of the outcomes that running Kani in `root` can have.
pub open spec fn is_run<P: SubprocessRunner>(
    before: P,
    after: P,
    root: Seq<char>,
    r: LayerResultV,
) -> bool {
    exists|o: Result<ProcessOutput, String>, ms: u64|
        #[trigger] before.answers("cargo"@, kani_args(), root, o, after) && r == #[trigger] reported(o, ms)
}

impl KaniRunner {
    pub fn is_available<P: SubprocessRunner>(
        &self,
        proc: &mut P,
        project: &ProjectInfo,
        files: &Files,
    ) -> (r: bool)
        ensures
            if project.language != Language::Rust {
                !r && *final(proc) == *old(proc)
            } else {
                exists|tool: bool| #[trigger]
                    process::is_probed(*old(proc), "cargo"@, version_args(), tool, *final(proc)) && r
                        == (tool && exists|i: int|
                    0 <= i < files.entries@.len() && is_harness(#[trigger] files.entries@[i]))
            },
    {
        if project.language != Language::Rust {
            return false;
        }
        let args = vec!["kani".to_string(), "--version".to_string()];
        assert(text::views(args@) =~= version_args());
        let tool = proc.is_available("cargo", &args);
        assert(process::is_probed(*old(proc), "cargo"@, version_args(), tool, *proc));
        if !tool {
            return false;
        }
        has_kani_harnesses(files)
    }

    pub fn run<P: SubprocessRunner>(&self, proc: &mut P, project: &ProjectInfo) -> (r: LayerResult)
        ensures
            is_run(*old(proc), *final(proc), project.root@, r@),
    {
        let start = time::started();
        let args = vec!["kani".to_string()];
        assert(text::views(args@) =~= kani_args());
        let outcome = proc.run("cargo", &args, project.root.as_str());
        let ms = time::elapsed_ms(&start);
        let r = report_kani(&outcome, ms);
        assert(old(proc).answers("cargo"@, kani_args(), project.root@, outcome, *proc));
        r
    }
}

// ── laws ────────────────────────────────────────────────────────────────────

proof fn lemma_counts(lines: Seq<Seq<char>>)
    ensures
        verified_count(lines) == lines.filter(
            |l: Seq<char>| text::has(l, "VERIFICATION"@) && text::has(l, "SUCCESSFUL"@),
        ).len(),
        failed_count(lines) == lines.filter(
            |l: Seq<char>| text::has(l, "VERIFICATION"@) && text::has(l, "FAILED"@),
        ).len(),
        verified_count(lines) <= lines.len(),
        failed_count(lines) <= lines.len(),
    decreases lines.len(),
{
    reveal(Seq::filter);
    if lines.len() > 0 {
        lemma_counts(lines.drop_last());
    }
}

/// Every line that tells of a successful verification counts as passed, every one that
/// tells of a failed one as failed. Any failure fails the layer, with one critical finding
/// each; without any verification it is skipped; else it passes.
pub proof fn law_each_verification_counts(out: ProcessOutput, ms: u64, e: String)
    requires
        text::lines_of(out.both()).len() <= u64::MAX,
    ensures
        ({
            let lines = text::lines_of(out.both());
            let verified = lines.filter(
                |l: Seq<char>| text::has(l, "VERIFICATION"@) && text::has(l, "SUCCESSFUL"@),
            ).len();
            let failed = lines.filter(
                |l: Seq<char>| text::has(l, "VERIFICATION"@) && text::has(l, "FAILED"@),
            ).len();
            let r = reported(Ok(out), ms);
            &&& r.name == "logic"@ && r.runner == "kani"@ && r.duration_ms == ms
            &&& r.metrics.passed == verified && r.metrics.failed == failed
            &&& verified + failed <= u64::MAX ==> r.metrics.tests_run == verified + failed
            &&& r.status == LayerStatus::Fail <==> failed > 0
            &&& r.status == LayerStatus::Skipped <==> failed == 0 && verified == 0
            &&& r.status == LayerStatus::Pass <==> failed == 0 && verified > 0
            &&& r.findings.len() == failed
            &&& forall|i: int|
                0 <= i < r.findings.len() ==> (#[trigger] r.findings[i]).severity
                    == Severity::Critical
        }),
        ({
            let r = reported(Err(e), ms);
            &&& r.status == LayerStatus::Fail && r.findings.len() == 1 && r.findings[0].severity
                == Severity::Critical && r.metrics.failed == 1 && r.runner == "kani"@
        }),
{
    lemma_counts(text::lines_of(out.both()));
}

/// A failure names the harness that was checked first.
pub proof fn law_failure_names_the_harness(lines: Seq<Seq<char>>, i: int, w: Seq<char>)
    requires
        0 <= i < lines.len(),
        text::has(lines[i], "Checking harness"@),
        text::last_word_of(lines[i]) == Some(w),
        forall|k: int| 0 <= k < i ==> !text::has(#[trigger] lines[k], "Checking harness"@),
    ensures
        harness_from(lines, 0) == w,
{
    lemma_harness_at(lines, 0, i);
}

proof fn lemma_harness_at(lines: Seq<Seq<char>>, from: int, i: int)
    requires
        0 <= from <= i < lines.len(),
        text::has(lines[i], "Checking harness"@),
        forall|k: int| from <= k < i ==> !text::has(#[trigger] lines[k], "Checking harness"@),
    ensures
        harness_from(lines, from) == harness_from(lines, i),
    decreases i - from,
{
    if from < i {
        assert(!text::has(lines[from], "Checking harness"@));
        lemma_harness_at(lines, from + 1, i);
    }
}

/// A project has a harness where a Rust file below `src` holds a proof attribute.
pub proof fn law_what_is_a_harness(e: Entry, name: Seq<char>)
    ensures
        is_harness(e) ==> !e.dir && text::begins(e.path@, "src/"@) && e.text is Some && text::has(
            (e.text->0)@,
            "#[kani::proof]"@,
        ),
        !e.dir && text::begins(e.path@, "src/"@) && files::extension_of(files::name_of(e.path@))
            == Some("rs"@) && (e.text matches Some(t) && text::has(t@, "#[kani::proof]"@))
            ==> is_harness(e),
{
}

/// How the tool is called.
pub proof fn law_arguments_of_the_tool()
    ensures
        version_args() == seq!["kani"@, "--version"@],
{
}

/// What is said where the tool cannot be run.
pub proof fn law_what_a_failed_start_says(e: String, ms: u64)
    ensures
        ({
            let r = reported(Err(e), ms);
            &&& r.runner == "kani"@ && r.status == LayerStatus::Fail && r.findings.len() == 1
            &&& r.findings[0].severity == Severity::Critical
            &&& r.findings[0].code == "KANI_EXECUTION_FAILED"@
            &&& r.findings[0].message == "Failed to run kani: "@ + e@
            &&& r.findings[0].reproduce_cmd == Some("cargo kani 2>&1"@)
        }),
{
}

/// What is said of a harness that failed, and of a failure without one.
pub proof fn law_what_a_failed_harness_says(harness: Seq<char>)
    ensures
        harness_failed(harness).severity == Severity::Critical,
        harness_failed(harness).code == "KANI_VERIFICATION_FAILED"@,
        harness_failed(harness).message == "Formal verification failed for harness `"@ + harness
            + "` — a reachable assertion is violated"@,
        harness_failed(harness).reproduce_cmd == Some(
            "cargo kani --harness "@ + harness + " 2>&1"@,
        ),
        only_failed().severity == Severity::High && only_failed().code == "KANI_FAILED"@,
        only_failed().reproduce_cmd == Some("cargo kani 2>&1"@),
{
}

/// Which program is started, with which arguments and where.
pub proof fn law_what_is_started<P: SubprocessRunner>(
    before: P,
    after: P,
    root: Seq<char>,
    r: LayerResultV,
)
    requires
        is_run(before, after, root, r),
    ensures
        exists|o: Result<ProcessOutput, String>, ms: u64|
            #[trigger] before.answers(
                "cargo"@,
                kani_args(),
                root,
                o,
                after,
            ) && r == #[trigger] reported(o, ms),
{
    let (o, ms): (Result<ProcessOutput, String>, u64) = choose|
        o: Result<ProcessOutput, String>,
        ms: u64,
    | #[trigger] before.answers("cargo"@, kani_args(), root, o, after) && r == #[trigger] reported(o, ms);
    assert(before.answers("cargo"@, kani_args(), root, o, after));
    assert(r == reported(o, ms));
}

/// A result belongs to the layer and the runner that it is of, whatever came out.
pub proof fn law_where_results_belong(outcome: Result<ProcessOutput, String>, duration_ms: u64)
    ensures
        reported(outcome, duration_ms).name == "logic"@,
        reported(outcome, duration_ms).runner == "kani"@,
        reported(outcome, duration_ms).duration_ms == duration_ms,
{
}

} // verus!
