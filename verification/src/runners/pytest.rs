//! pytest.
use vstd::prelude::*;

use crate::detect::{Language, ProjectInfo};
use crate::files;
use crate::files::{Entry, Files};
use crate::percent::Percent;
use crate::plugin::{Layer, TestRunner};
use crate::process;
use crate::process::{ProcessOutput, SubprocessRunner};
use crate::report::{FindingV, LayerMetrics, LayerResult, LayerResultV, LayerStatus, Severity};
use crate::runners::parts;
use crate::runners::python_venv;
use crate::text;
use crate::time;

verus! {

#[derive(Debug, Default)]
pub struct PytestRunner;

pub const SKIP: &'static str = "pytest not found — add `pytest` and optionally `hypothesis` to dev-dependencies for property-based testing";

pub const NO_PROPERTIES: &'static str = "Tests pass but no Hypothesis property-based tests detected. Add `hypothesis` for invariant testing.";

pub const HYPOTHESIS_HINT: &'static str = "Use `from hypothesis import given, strategies as st` to add property-based tests that find edge cases automatically.";

pub const TRACE_HINT: &'static str = "Run `pytest -v --tb=long` to see the full failure trace.";

pub const INSTALL_HINT: &'static str = "Install pytest: `pip install pytest` or `uv add --dev pytest`. Consider using a virtual environment: `python -m venv .venv && .venv/bin/pip install pytest`";

impl TestRunner for PytestRunner {
    fn name(&self) -> (r: &'static str)
        ensures
            r@ == "pytest"@,
    {
        "pytest"
    }

    fn layer(&self) -> (r: Layer)
        ensures
            r == Layer::Logic,
    {
        Layer::Logic
    }

    fn skip_message(&self) -> (r: &'static str)
        ensures
            r@ == SKIP@,
    {
        SKIP
    }
}

// ── the project ─────────────────────────────────────────────────────────────

/// A file that lists the requirements of a project names `word`.
pub open spec fn requires_word(files: Files, word: Seq<char>) -> bool {
    text::has(files.content("requirements.txt"@), word) || text::has(
        files.content("requirements-dev.txt"@),
        word,
    ) || text::has(files.content("pyproject.toml"@), word)
}

fn names_requirement(files: &Files, word: &str) -> (r: bool)
    ensures
        r == requires_word(*files, word@),
{
    let plain = files.read("requirements.txt");
    let dev = files.read("requirements-dev.txt");
    let project = files.read("pyproject.toml");
    text::contains(plain.as_str(), word) || text::contains(dev.as_str(), word) || text::contains(
        project.as_str(),
        word,
    )
}

/// The package `pytest_cov` stands in the virtual environment, under the first of its
/// library directories.
pub open spec fn cov_installed(files: Files) -> bool {
    match files::first_child_from(files.entries@, ".venv/lib"@, 0) {
        Some(name) => files.has(".venv/lib/"@ + name + "/site-packages/pytest_cov"@),
        None => false,
    }
}

/// Coverage can be measured.
pub open spec fn measures_coverage(files: Files, root: Seq<char>) -> bool {
    requires_word(files, "pytest-cov"@) || (files.has(".venv/lib"@) && python_venv::venv_path(
        files,
        root,
        "pytest"@,
    ) is Some && cov_installed(files))
}

pub fn has_pytest_cov(files: &Files, root: &str) -> (r: bool)
    ensures
        r == measures_coverage(*files, root@),
{
    if names_requirement(files, "pytest-cov") {
        return true;
    }
    if !files.is_there(".venv/lib") || python_venv::venv_tool(files, root, "pytest").is_none() {
        return false;
    }
    match files::first_child(files, ".venv/lib") {
        Some(name) => {
            let path = text::cat3(".venv/lib/", name.as_str(), "/site-packages/pytest_cov");
            files.is_there(path.as_str())
        },
        None => false,
    }
}

/// `e` is a Python file that holds `pattern`.
pub open spec fn is_python_with(e: Entry, pattern: Seq<char>) -> bool {
    !e.dir && text::ends(e.path@, ".py"@) && match e.text {
        Some(t) => text::has(t@, pattern),
        None => false,
    }
}

/// Some Python file of the project holds `pattern`.
pub open spec fn python_has(files: Files, pattern: Seq<char>) -> bool {
    exists|i: int|
        0 <= i < files.entries@.len() && is_python_with(#[trigger] files.entries@[i], pattern)
}

fn walk_contains(files: &Files, pattern: &str) -> (r: bool)
    ensures
        r == python_has(*files, pattern@),
{
    let mut i: usize = 0;
    while i < files.entries.len()
        invariant
            i <= files.entries@.len(),
            forall|k: int| 0 <= k < i ==> !is_python_with(#[trigger] files.entries@[k], pattern@),
        decreases files.entries@.len() - i,
    {
        let e = &files.entries[i];
        if !e.dir && text::ends_with(e.path.as_str(), ".py") {
            match &e.text {
                Some(t) => {
                    if text::contains(t.as_str(), pattern) {
                        assert(is_python_with(files.entries@[i as int], pattern@));
                        return true;
                    }
                },
                None => {},
            }
        }
        i += 1;
    }
    false
}

/// Hypothesis is a requirement, or some file imports it.
pub open spec fn uses_hypothesis(files: Files) -> bool {
    requires_word(files, "hypothesis"@) || python_has(files, "from hypothesis"@) || python_has(
        files,
        "import hypothesis"@,
    )
}

pub fn has_hypothesis(files: &Files) -> (r: bool)
    ensures
        r == uses_hypothesis(*files),
{
    names_requirement(files, "hypothesis") || walk_contains(files, "from hypothesis")
        || walk_contains(files, "import hypothesis")
}

// ── output ──────────────────────────────────────────────────────────────────

/// Tests passed, failed, and in error.
pub struct PyCounts {
    pub passed: u64,
    pub failed: u64,
    pub errors: u64,
}

impl PyCounts {
    pub open spec fn total(self) -> u64 {
        parts::capped((self.passed + self.failed + self.errors) as nat)
    }

    /// Tests that did not pass.
    pub open spec fn broken(self) -> u64 {
        parts::capped((self.failed + self.errors) as nat)
    }
}

/// The counts that a line gives, if it is a summary.
pub open spec fn py_summary(line: Seq<char>) -> Option<PyCounts> {
    let l = text::trimmed(line);
    let c = PyCounts {
        passed: parts::listed_count(l, " passed"@),
        failed: parts::listed_count(l, " failed"@),
        errors: parts::listed_count(l, " error"@),
    };
    if (text::has(l, " passed"@) || text::has(l, " failed"@) || text::has(l, " error"@))
        && c.total() > 0 {
        Some(c)
    } else {
        None
    }
}

/// The counts that the last summary gives.
pub open spec fn last_summary(lines: Seq<Seq<char>>) -> PyCounts
    decreases lines.len(),
{
    if lines.len() == 0 {
        PyCounts { passed: 0, failed: 0, errors: 0 }
    } else {
        match py_summary(lines.last()) {
            Some(c) => c,
            None => last_summary(lines.drop_last()),
        }
    }
}

/// The counts that the last summary of an output gives; none where there is no summary.
pub open spec fn py_counts(output: Seq<char>) -> PyCounts {
    last_summary(text::lines_of(output))
}

/// Tests passed, failed, and in error.
pub fn parse_pytest_output(output: &str) -> (r: (u64, u64, u64))
    ensures
        r.0 == py_counts(output@).passed,
        r.1 == py_counts(output@).failed,
        r.2 == py_counts(output@).errors,
{
    let lines = text::lines(output);
    let ghost all = text::lines_of(output@);
    let mut n: usize = lines.len();
    assert(all.subrange(0, n as int) =~= all);
    while n > 0
        invariant
            n <= lines@.len(),
            all == text::lines_of(output@),
            all == text::views(lines@),
            last_summary(all.subrange(0, n as int)) == py_counts(output@),
        decreases n,
    {
        proof {
            let front = all.subrange(0, n as int);
            assert(front.last() == lines@[n - 1]@);
            assert(front.drop_last() =~= all.subrange(0, n - 1));
        }
        let l = text::trim(lines[n - 1].as_str());
        if text::contains(l.as_str(), " passed") || text::contains(l.as_str(), " failed")
            || text::contains(l.as_str(), " error") {
            let passed = parts::count_in_list(l.as_str(), " passed");
            let failed = parts::count_in_list(l.as_str(), " failed");
            let errors = parts::count_in_list(l.as_str(), " error");
            if passed > 0 || failed > 0 || errors > 0 {
                return (passed, failed, errors);
            }
        }
        n -= 1;
    }
    (0, 0, 0)
}

/// The percentage in the last line that begins with `TOTAL`, without its sign.
pub open spec fn coverage_in(lines: Seq<Seq<char>>) -> Option<Seq<char>>
    decreases lines.len(),
{
    if lines.len() == 0 {
        None
    } else {
        let t = text::trimmed(lines.last());
        if text::begins(t, "TOTAL"@) {
            match text::last_word_of(t) {
                Some(w) => Some(text::strip_back(w, '%')),
                None => None,
            }
        } else {
            coverage_in(lines.drop_last())
        }
    }
}

/// The text of the total coverage, as the coverage report of pytest writes it.
pub fn parse_coverage_pct(output: &str) -> (r: Option<String>)
    ensures
        text::opt_view(r) == coverage_in(text::lines_of(output@)),
{
    let lines = text::lines(output);
    let ghost all = text::lines_of(output@);
    let mut n: usize = lines.len();
    assert(all.subrange(0, n as int) =~= all);
    while n > 0
        invariant
            n <= lines@.len(),
            all == text::lines_of(output@),
            all == text::views(lines@),
            coverage_in(all.subrange(0, n as int)) == coverage_in(all),
        decreases n,
    {
        proof {
            let front = all.subrange(0, n as int);
            assert(front.last() == lines@[n - 1]@);
            assert(front.drop_last() =~= all.subrange(0, n - 1));
        }
        let t = text::trim(lines[n - 1].as_str());
        if text::starts_with(t.as_str(), "TOTAL") {
            return match text::last_word(t.as_str()) {
                Some(w) => Some(text::trim_end_char(w.as_str(), '%')),
                None => None,
            };
        }
        n -= 1;
    }
    None
}

/// The name of the failing test in a line.
pub open spec fn py_failure_in(line: Seq<char>) -> Seq<Seq<char>> {
    let t = text::trimmed(line);
    let name = text::trimmed(text::strip_text(t, "FAILED "@));
    if text::begins(t, "FAILED "@) && name.len() > 0 {
        seq![name]
    } else {
        Seq::empty()
    }
}

/// The first three failing tests of an output.
pub open spec fn py_failures(output: Seq<char>) -> Seq<Seq<char>> {
    parts::at_most(parts::gathered(text::lines_of(output), |l: Seq<char>| py_failure_in(l)), 3)
}

pub fn extract_pytest_failures(output: &str) -> (r: Vec<String>)
    ensures
        text::views(r@) == py_failures(output@),
{
    let lines = text::lines(output);
    let ghost all = text::lines_of(output@);
    let ghost f = |l: Seq<char>| py_failure_in(l);
    let mut r: Vec<String> = Vec::new();
    let mut i: usize = 0;
    assert(all.subrange(0, 0) =~= Seq::<Seq<char>>::empty());
    assert(text::views(r@) =~= Seq::<Seq<char>>::empty());
    while i < lines.len()
        invariant
            i <= lines@.len(),
            all == text::views(lines@),
            f == (|l: Seq<char>| py_failure_in(l)),
            text::views(r@) == parts::gathered(all.subrange(0, i as int), f),
        decreases lines@.len() - i,
    {
        proof {
            let next = all.subrange(0, i + 1);
            assert(next.drop_last() =~= all.subrange(0, i as int));
            assert(next.last() == lines@[i as int]@);
        }
        let ghost before = text::views(r@);
        let ghost line = lines@[i as int]@;
        let t = text::trim(lines[i].as_str());
        if text::starts_with(t.as_str(), "FAILED ") {
            let name = text::trim(text::trim_start_text(t.as_str(), "FAILED ").as_str());
            if !name.as_str().is_empty() {
                r.push(name);
            }
        }
        assert(text::views(r@) =~= before + py_failure_in(line));
        i += 1;
    }
    assert(all.subrange(0, i as int) =~= all);
    parts::keep_first(r, 3)
}

// ── the result ──────────────────────────────────────────────────────────────

/// The findings of a run: which tests failed, or that no properties are tested.
pub open spec fn py_findings(
    success: bool,
    hypothesis: bool,
    output: Seq<char>,
    cmd: Seq<char>,
) -> Seq<FindingV> {
    let c = py_counts(output);
    if success && hypothesis {
        Seq::empty()
    } else if success {
        seq![
            parts::found(
                Severity::Info,
                "NO_HYPOTHESIS"@,
                NO_PROPERTIES@,
                Some("pip install hypothesis && "@ + cmd + " --hypothesis-seed=0"@),
                Some(HYPOTHESIS_HINT@),
            ),
        ]
    } else {
        seq![
            parts::found(
                Severity::High,
                "PYTEST_FAILURE"@,
                text::decimal(c.broken() as nat) + " test(s) failed out of "@ + text::decimal(
                    c.total() as nat,
                ) + parts::named(py_failures(output)),
                Some(cmd + " -v 2>&1 | head -60"@),
                Some(TRACE_HINT@),
            ),
        ]
    }
}

/// The result of running pytest as `cmd`, with the coverage that was measured.
pub open spec fn reported(
    cmd: Seq<char>,
    hypothesis: bool,
    outcome: Result<ProcessOutput, String>,
    coverage: Option<Percent>,
    duration_ms: u64,
) -> LayerResultV {
    match outcome {
        Ok(out) => {
            let c = py_counts(out.both());
            parts::result_of(
                Layer::Logic,
                "pytest"@,
                if out.success {
                    LayerStatus::Pass
                } else {
                    LayerStatus::Fail
                },
                py_findings(out.success, hypothesis, out.both(), cmd),
                LayerMetrics {
                    tests_run: c.total(),
                    passed: c.passed,
                    failed: c.broken(),
                    coverage,
                    mutation_score: None,
                },
                duration_ms,
            )
        },
        Err(e) => parts::failure_of(
            Layer::Logic,
            "pytest"@,
            parts::found(
                Severity::Critical,
                "PYTEST_EXECUTION_FAILED"@,
                "Failed to run pytest: "@ + e@,
                Some("pytest --version 2>&1"@),
                Some(INSTALL_HINT@),
            ),
            duration_ms,
        ),
    }
}

/// The result of running pytest as `cmd`, with the coverage that was measured.
pub fn report_pytest(
    cmd: &str,
    hypothesis: bool,
    outcome: &Result<ProcessOutput, String>,
    coverage: Option<Percent>,
    duration_ms: u64,
) -> (r: LayerResult)
    ensures
        r@ == reported(cmd@, hypothesis, *outcome, coverage, duration_ms),
{
    match outcome {
        Ok(out) => {
            let combined = out.combined();
            let (passed, failed, errors) = parse_pytest_output(combined.as_str());
            let broken = parts::add_up(failed, errors);
            let total = parts::add_up(parts::add_up(passed, failed), errors);
            let findings = if out.success {
                if hypothesis {
                    parts::nothing()
                } else {
                    let again = text::cat3(
                        "pip install hypothesis && ",
                        cmd,
                        " --hypothesis-seed=0",
                    );
                    parts::one(
                        parts::finding(
                            Severity::Info,
                            "NO_HYPOTHESIS",
                            NO_PROPERTIES,
                            Some(again.as_str()),
                            Some(HYPOTHESIS_HINT),
                        ),
                    )
                }
            } else {
                let failing = extract_pytest_failures(combined.as_str());
                let message = text::cat4(
                    text::number(broken).as_str(),
                    " test(s) failed out of ",
                    text::number(total).as_str(),
                    parts::name_list(&failing).as_str(),
                );
                let again = text::cat(cmd, " -v 2>&1 | head -60");
                parts::one(
                    parts::finding(
                        Severity::High,
                        "PYTEST_FAILURE",
                        message.as_str(),
                        Some(again.as_str()),
                        Some(TRACE_HINT),
                    ),
                )
            };
            let status = if out.success {
                LayerStatus::Pass
            } else {
                LayerStatus::Fail
            };
            let metrics = LayerMetrics {
                tests_run: total,
                passed,
                failed: broken,
                coverage,
                mutation_score: None,
            };
            parts::layer_result(Layer::Logic, "pytest", status, findings, metrics, duration_ms)
        },
        Err(e) => {
            let message = text::cat("Failed to run pytest: ", e.as_str());
            let f = parts::finding(
                Severity::Critical,
                "PYTEST_EXECUTION_FAILED",
                message.as_str(),
                Some("pytest --version 2>&1"),
                Some(INSTALL_HINT),
            );
            parts::failure(Layer::Logic, "pytest", f, duration_ms)
        },
    }
}

/// The command for pytest: the one in the virtual environment, else the one on the search
/// path.
pub open spec fn pytest_command(files: Files, root: Seq<char>) -> Seq<char> {
    match python_venv::venv_path(files, root, "pytest"@) {
        Some(path) => path,
        None => "pytest"@,
    }
}

pub open spec fn pytest_args(cov: bool) -> Seq<Seq<char>> {
    if cov {
        seq![
            "--tb=short"@,
            "-q"@,
            "--color=no"@,
            "--cov=."@,
            "--cov-report=term-missing:skip-covered"@,
        ]
    } else {
        seq!["--tb=short"@, "-q"@, "--color=no"@]
    }
}

fn arguments(cov: bool) -> (r: Vec<String>)
    ensures
        text::views(r@) == pytest_args(cov),
{
    let mut r = vec!["--tb=short".to_string(), "-q".to_string(), "--color=no".to_string()];
    if cov {
        r.push("--cov=.".to_string());
        r.push("--cov-report=term-missing:skip-covered".to_string());
    }
    assert(text::views(r@) =~= pytest_args(cov));
    r
}

/// A run of pytest: its result without the coverage, and the text of the coverage.
#[derive(Debug)]
pub struct PytestRun {
    pub result: LayerResult,
    pub coverage: Option<String>,
}

/// The text of the coverage that was measured.
pub open spec fn coverage_of(cov: bool, outcome: Result<ProcessOutput, String>) -> Option<Seq<char>> {
    match outcome {
        Ok(out) => if cov {
            coverage_in(text::lines_of(out.both()))
        } else {
            None
        },
        Err(_) => None,
    }
}

/// `r` is the run of one of the outcomes that running `cmd` in `root` can have.
pub open spec fn is_run<P: SubprocessRunner>(
    before: P,
    after: P,
    cmd: Seq<char>,
    cov: bool,
    hypothesis: bool,
    root: Seq<char>,
    r: PytestRun,
) -> bool {
    exists|o: Result<ProcessOutput, String>, ms: u64|
        #[trigger] before.answers(cmd, pytest_args(cov), root, o, after) && r.result@
            == #[trigger] reported(cmd, hypothesis, o, None, ms) && text::opt_view(r.coverage)
            == coverage_of(cov, o)
}

impl PytestRunner {
    pub fn is_available<P: SubprocessRunner>(
        &self,
        proc: &mut P,
        project: &ProjectInfo,
        files: &Files,
    ) -> (r: bool)
        ensures
            if project.language != Language::Python {
                !r && *final(proc) == *old(proc)
            } else if python_venv::venv_path(*files, project.root@, "pytest"@) is Some {
                r && *final(proc) == *old(proc)
            } else {
                process::is_probed(*old(proc), "pytest"@, seq!["--version"@], r, *final(proc))
            },
    {
        if project.language != Language::Python {
            return false;
        }
        if python_venv::venv_tool(files, project.root.as_str(), "pytest").is_some() {
            return true;
        }
        let args = vec!["--version".to_string()];
        assert(text::views(args@) =~= seq!["--version"@]);
        proc.is_available("pytest", &args)
    }

    /// Runs the tests. The coverage comes as text, for the caller to read as a number.
    pub fn run<P: SubprocessRunner>(&self, proc: &mut P, project: &ProjectInfo, files: &Files) -> (r: PytestRun)
        ensures
            is_run(
                *old(proc),
                *final(proc),
                pytest_command(*files, project.root@),
                measures_coverage(*files, project.root@),
                uses_hypothesis(*files),
                project.root@,
                r,
            ),
    {
        let start = time::started();
        let root = project.root.as_str();
        let cmd = match python_venv::venv_tool(files, root, "pytest") {
            Some(path) => path,
            None => "pytest".to_string(),
        };
        let cov = has_pytest_cov(files, root);
        let hypothesis = has_hypothesis(files);
        let args = arguments(cov);
        let outcome = proc.run(cmd.as_str(), &args, root);
        let ms = time::elapsed_ms(&start);
        let coverage = match &outcome {
            Ok(out) => if cov {
                parse_coverage_pct(out.combined().as_str())
            } else {
                None
            },
            Err(_) => None,
        };
        let result = report_pytest(cmd.as_str(), hypothesis, &outcome, None, ms);
        assert(old(proc).answers(cmd@, pytest_args(cov), project.root@, outcome, *proc));
        PytestRun { result, coverage }
    }
}

// ── laws ────────────────────────────────────────────────────────────────────

/// The tests pass exactly where the command succeeds. Where it does not, there is one high
/// finding; a command that cannot be run fails with one critical finding.
pub proof fn law_outcome_decides(
    cmd: Seq<char>,
    hypothesis: bool,
    out: ProcessOutput, 
    coverage: Option<Percent>,
    ms: u64, e: String)
    ensures
        ({
            let r = reported(cmd, hypothesis, Ok(out), coverage, ms);
            &&& r.name == "logic"@ && r.runner == "pytest"@ && r.duration_ms == ms
            &&& out.success ==> r.status == LayerStatus::Pass && (hypothesis ==> r.findings.len() == 0) && (
            !hypothesis ==> r.findings.len() == 1 && r.findings[0].severity == Severity::Info)
            &&& !out.success ==> r.status == LayerStatus::Fail && r.findings.len() == 1
                && r.findings[0].severity == Severity::High && r.findings[0].code == "PYTEST_FAILURE"@
            &&& r.metrics.mutation_score is None
        }),
        ({
            let r = reported(cmd, hypothesis, Err(e), coverage, ms);
            &&& r.status == LayerStatus::Fail && r.findings.len() == 1 && r.findings[0].severity
                == Severity::Critical && r.metrics.failed == 1 && r.runner == "pytest"@
        }),
{
}

/// A summary states how many tests passed, failed and broke; a test that broke counts as
/// failed, and all three as run.
pub proof fn law_summary_is_counted(line: Seq<char>, passed: u64, failed: u64, errors: u64)
    requires
        text::trimmed(line) == line,
        parts::states(line, passed, " passed"@),
        parts::states(line, failed, " failed"@),
        parts::states(line, errors, " error"@),
        0 < passed + failed + errors <= u64::MAX,
    ensures
        py_summary(line) == Some(PyCounts { passed, failed, errors }),
        py_summary(line)->0.total() == passed + failed + errors,
        py_summary(line)->0.broken() == failed + errors,
{
    parts::law_stated_numbers_count(line, passed, " passed"@);
    parts::law_stated_numbers_count(line, failed, " failed"@);
    parts::law_stated_numbers_count(line, errors, " error"@);
}

/// The last line with a summary counts, and lines without one change nothing.
pub proof fn law_last_summary_counts(lines: Seq<Seq<char>>, line: Seq<char>)
    ensures
        py_summary(line) is Some ==> last_summary(lines.push(line)) == py_summary(line)->0,
        py_summary(line) is None ==> last_summary(lines.push(line)) == last_summary(lines),
        last_summary(Seq::empty()) == (PyCounts { passed: 0, failed: 0, errors: 0 }),
{
    assert(lines.push(line).drop_last() =~= lines);
}

/// The counts of the output are the metrics of the result, with the coverage.
pub proof fn law_counts_are_the_metrics(
    cmd: Seq<char>,
    hypothesis: bool,
    out: ProcessOutput,
    coverage: Option<Percent>,
    ms: u64,
)
    ensures
        ({
            let r = reported(cmd, hypothesis, Ok(out), coverage, ms);
            let c = last_summary(text::lines_of(out.both()));
            &&& r.metrics.passed == c.passed
            &&& c.passed + c.failed + c.errors <= u64::MAX ==> r.metrics.failed == c.failed
                + c.errors && r.metrics.tests_run == c.passed + c.failed + c.errors
            &&& r.metrics.coverage == coverage
        }),
{
}

/// The coverage is the last word of the last line that begins with TOTAL, without its
/// percent sign.
pub proof fn law_total_line_states_the_coverage(
    lines: Seq<Seq<char>>,
    line: Seq<char>,
    w: Seq<char>,
)
    ensures
        coverage_in(Seq::empty()) is None,
        text::begins(text::trimmed(line), "TOTAL"@) && text::last_word_of(text::trimmed(line))
            == Some(w.push('%')) && (w.len() > 0 ==> w.last() != '%') ==> coverage_in(
            lines.push(line),
        ) == Some(w),
        !text::begins(text::trimmed(line), "TOTAL"@) ==> coverage_in(lines.push(line))
            == coverage_in(lines),
{
    assert(lines.push(line).drop_last() =~= lines);
    let s = w.push('%');
    if w.len() > 0 ==> w.last() != '%' {
        text::lemma_strip_back_is(s, '%', w.len() as int);
        assert(s.subrange(0, w.len() as int) =~= w);
    }
}

/// A line that begins with FAILED names a test that failed; no other does.
pub proof fn law_failed_lines_name_tests(name: Seq<char>, line: Seq<char>)
    ensures
        name.len() > 0 && text::trimmed(name) == name && !text::begins(name, "FAILED "@)
            && text::trimmed(line) == "FAILED "@ + name ==> py_failure_in(line) == seq![name],
        !text::begins(text::trimmed(line), "FAILED "@) ==> py_failure_in(line) == Seq::<
            Seq<char>,
        >::empty(),
{
    reveal_strlit("FAILED ");
    let t = "FAILED "@ + name;
    assert(t.subrange(0, 7) =~= "FAILED "@);
    assert(t.subrange(7, t.len() as int) =~= name);
    if !text::begins(name, "FAILED "@) {
        assert(text::strip_text(name, "FAILED "@) == name);
        assert(text::strip_text(t, "FAILED "@) == text::strip_text(
            t.subrange(7, t.len() as int),
            "FAILED "@,
        ));
    }
}

/// Hypothesis is used where a list of requirements or the manifest names it, or a Python
/// file imports it.
pub proof fn law_what_uses_hypothesis(files: Files, i: int)
    ensures
        text::has(files.content("requirements.txt"@), "hypothesis"@) ==> uses_hypothesis(files),
        text::has(files.content("requirements-dev.txt"@), "hypothesis"@) ==> uses_hypothesis(files),
        text::has(files.content("pyproject.toml"@), "hypothesis"@) ==> uses_hypothesis(files),
        0 <= i < files.entries@.len() && !files.entries@[i].dir && text::ends(
            files.entries@[i].path@,
            ".py"@,
        ) && (files.entries@[i].text matches Some(t) && (text::has(t@, "from hypothesis"@)
            || text::has(t@, "import hypothesis"@))) ==> uses_hypothesis(files),
{
    if 0 <= i < files.entries@.len() {
        let e = files.entries@[i];
        assert(is_python_with(e, "from hypothesis"@) ==> python_has(files, "from hypothesis"@));
        assert(is_python_with(e, "import hypothesis"@) ==> python_has(files, "import hypothesis"@));
    }
}

/// How the tool is called.
pub proof fn law_arguments_of_the_tool()
    ensures
        pytest_args(true) == seq!["--tb=short"@, "-q"@, "--color=no"@, "--cov=."@, "--cov-report=term-missing:skip-covered"@],
        pytest_args(false) == seq!["--tb=short"@, "-q"@, "--color=no"@],
{
}

/// What is said where the tool cannot be run.
pub proof fn law_what_a_failed_start_says(cmd: Seq<char>, hypothesis: bool, e: String, coverage: Option<Percent>, ms: u64)
    ensures
        ({
            let r = reported(cmd, hypothesis, Err(e), coverage, ms);
            &&& r.runner == "pytest"@ && r.status == LayerStatus::Fail && r.findings.len() == 1
            &&& r.findings[0].severity == Severity::Critical
            &&& r.findings[0].code == "PYTEST_EXECUTION_FAILED"@
            &&& r.findings[0].message == "Failed to run pytest: "@ + e@
            &&& r.findings[0].reproduce_cmd == Some("pytest --version 2>&1"@)
        }),
{
}

/// What is said of failed tests, and of tests without properties.
pub proof fn law_what_python_tests_say(hypothesis: bool, output: Seq<char>, cmd: Seq<char>)
    ensures
        ({
            let f = py_findings(false, hypothesis, output, cmd);
            &&& f.len() == 1 && f[0].severity == Severity::High && f[0].code == "PYTEST_FAILURE"@
            &&& f[0].message == text::decimal(py_counts(output).broken() as nat)
                + " test(s) failed out of "@ + text::decimal(py_counts(output).total() as nat)
                + parts::named(py_failures(output))
            &&& f[0].reproduce_cmd == Some(cmd + " -v 2>&1 | head -60"@)
        }),
        ({
            let f = py_findings(true, false, output, cmd);
            &&& f.len() == 1 && f[0].severity == Severity::Info && f[0].code == "NO_HYPOTHESIS"@
            &&& f[0].reproduce_cmd == Some(
                "pip install hypothesis && "@ + cmd + " --hypothesis-seed=0"@,
            )
        }),
        py_findings(true, true, output, cmd).len() == 0,
{
}

/// Coverage is measured where the project requires `pytest-cov`, or where its environment has
/// it.
pub proof fn law_when_coverage_is_measured(files: Files, root: Seq<char>, name: Seq<char>)
    ensures
        requires_word(files, "pytest-cov"@) ==> measures_coverage(files, root),
        files.has(".venv/lib"@) && python_venv::venv_path(files, root, "pytest"@) is Some
            && files::first_child_from(files.entries@, ".venv/lib"@, 0) == Some(name) && files.has(
            ".venv/lib/"@ + name + "/site-packages/pytest_cov"@,
        ) ==> measures_coverage(files, root),
        !requires_word(files, "pytest-cov"@) && (!files.has(".venv/lib"@) || (
        files::first_child_from(files.entries@, ".venv/lib"@, 0) == Some(name) && !files.has(
            ".venv/lib/"@ + name + "/site-packages/pytest_cov"@,
        ))) ==> !measures_coverage(files, root),
{
}

/// Of the failing tests the first three are named, in order.
pub proof fn law_first_three_are_named(output: Seq<char>, i: int)
    ensures
        ({
            let all = parts::gathered(text::lines_of(output), |l: Seq<char>| py_failure_in(l));
            &&& all.len() <= 3 ==> py_failures(output) == all
            &&& all.len() > 3 ==> py_failures(output).len() == 3
            &&& 0 <= i < 3 && i < all.len() ==> py_failures(output)[i] == all[i]
        }),
{
}

/// A result belongs to the layer and the runner that it is of, whatever came out.
pub proof fn law_where_results_belong(cmd: Seq<char>, hypothesis: bool, outcome: Result<ProcessOutput, String>, coverage: Option<Percent>, duration_ms: u64)
    ensures
        reported(cmd, hypothesis, outcome, coverage, duration_ms).name == "logic"@,
        reported(cmd, hypothesis, outcome, coverage, duration_ms).runner == "pytest"@,
        reported(cmd, hypothesis, outcome, coverage, duration_ms).duration_ms == duration_ms,
{
}

} // verus!
