//! mypy: static types of Python projects.
//!
//! Dynamic typing breaks at run time; mypy finds such errors before.
use vstd::prelude::*;

use crate::detect::{Language, ProjectInfo};
use crate::files::Files;
use crate::plugin::{Layer, TestRunner};
use crate::process;
use crate::process::{ProcessOutput, SubprocessRunner};
use crate::report;
use crate::report::{Finding, FindingV, LayerMetrics, LayerResult, LayerResultV, LayerStatus, Severity};
use crate::runners::parts;
use crate::runners::python_venv;
use crate::text;
use crate::time;

verus! {

#[derive(Debug, Default)]
pub struct MypyRunner;

pub const SKIP: &'static str = "mypy not installed — run `pip install mypy` for Python static type checking (critical for AI apps)";

pub const TYPE_HINT: &'static str = "Add type annotations or use `# type: ignore` for intentionally untyped code. AI-generated Python frequently has type mismatches that cause AttributeError at runtime.";

pub const INSTALL_HINT: &'static str = "Install: `pip install mypy` or `uv add --dev mypy`";

impl TestRunner for MypyRunner {
    fn name(&self) -> (r: &'static str)
        ensures
            r@ == "mypy"@,
    {
        "mypy"
    }

    fn layer(&self) -> (r: Layer)
        ensures
            r == Layer::Logic,
    {
        Layer::Logic
    }

    fn skip_message(&self) -> (r: &'static str)
        ensures
            r@ == SKIP@,
    {
        SKIP
    }
}

// ── output ──────────────────────────────────────────────────────────────────

/// An error that mypy reports.
pub struct MypyErrorV {
    pub location: Seq<char>,
    pub code: Seq<char>,
    pub message: Seq<char>,
}

/// What a line says of an error: what stands between the first two marks, or behind the
/// only one.
pub open spec fn error_part(line: Seq<char>) -> Option<Seq<char>> {
    match text::behind_of(line, ": error: "@) {
        Some(t) => match text::ahead_of(t, ": error: "@) {
            Some(u) => Some(u),
            None => Some(t),
        },
        None => None,
    }
}

/// The positions of the last brackets, if they stand in order.
pub open spec fn brackets_of(rest: Seq<char>) -> Option<(int, int)> {
    match (text::last_pos(rest, '['), text::last_pos(rest, ']')) {
        (Some(a), Some(b)) => if a < b {
            Some((a, b))
        } else {
            None
        },
        _ => None,
    }
}

/// The error in what a line says: the rule in brackets gives the code, what stands before
/// it the message.
pub open spec fn error_in(location: Seq<char>, rest: Seq<char>) -> MypyErrorV {
    match brackets_of(rest) {
        Some((a, b)) => MypyErrorV {
            location,
            code: "MYPY_"@ + text::uppercase(text::replaced(rest.subrange(a + 1, b), '-', "_"@)),
            message: text::trimmed(rest.subrange(0, a)),
        },
        None => MypyErrorV { location, code: "MYPY_ERROR"@, message: rest },
    }
}

/// The error that a line reports, unless its message is empty.
pub open spec fn line_error(line: Seq<char>) -> Option<MypyErrorV> {
    let t = text::trimmed(line);
    match (text::ahead_of(t, ": error: "@), error_part(t)) {
        (Some(location), Some(rest)) => {
            let e = error_in(location, rest);
            if e.message.len() > 0 {
                Some(e)
            } else {
                None
            }
        },
        _ => None,
    }
}

pub open spec fn mypy_errors(lines: Seq<Seq<char>>) -> Seq<MypyErrorV>
    decreases lines.len(),
{
    if lines.len() == 0 {
        Seq::empty()
    } else {
        match line_error(lines.last()) {
            Some(e) => mypy_errors(lines.drop_last()).push(e),
            None => mypy_errors(lines.drop_last()),
        }
    }
}

/// The models of a list of errors: location, code, message.
pub open spec fn errors_view(v: Seq<(String, String, String)>) -> Seq<MypyErrorV> {
    v.map_values(
        |e: (String, String, String)|
            (MypyErrorV { location: e.0@, code: e.1@, message: e.2@ }),
    )
}

fn read_error(location: String, rest: &str) -> (r: (String, String, String))
    ensures
        (MypyErrorV { location: r.0@, code: r.1@, message: r.2@ }) == error_in(location@, rest@),
{
    match find_brackets(rest) {
        Some((a, b)) => {
            let rule = text::part(rest, a + 1, b);
            let flat = text::replace(rule.as_str(), '-', "_");
            let upper = flat.as_str().to_uppercase();
            let message = text::trim(text::part(rest, 0, a).as_str());
            (location, text::cat("MYPY_", upper.as_str()), message)
        },
        None => (location, "MYPY_ERROR".to_string(), rest.to_string()),
    }
}

fn find_brackets(rest: &str) -> (r: Option<(usize, usize)>)
    ensures
        match r {
            Some((a, b)) => brackets_of(rest@) == Some((a as int, b as int)) && a < b && b
                < rest@.len(),
            None => brackets_of(rest@) is None,
        },
{
    match (text::rfind(rest, '['), text::rfind(rest, ']')) {
        (Some(a), Some(b)) => if a < b {
            Some((a, b))
        } else {
            None
        },
        _ => None,
    }
}

fn read_part(t: &str) -> (r: Option<String>)
    ensures
        text::opt_view(r) == error_part(t@),
{
    match text::behind(t, ": error: ") {
        Some(behind) => match text::ahead(behind.as_str(), ": error: ") {
            Some(u) => Some(u),
            None => Some(behind),
        },
        None => None,
    }
}

/// The errors in the output of mypy: location, code, message.
pub fn parse_mypy_errors(output: &str) -> (r: Vec<(String, String, String)>)
    ensures
        errors_view(r@) == mypy_errors(text::lines_of(output@)),
{
    let lines = text::lines(output);
    let ghost all = text::lines_of(output@);
    let mut r: Vec<(String, String, String)> = Vec::new();
    let mut i: usize = 0;
    assert(all.subrange(0, 0) =~= Seq::<Seq<char>>::empty());
    assert(errors_view(r@) =~= Seq::<MypyErrorV>::empty());
    while i < lines.len()
        invariant
            i <= lines@.len(),
            all == text::lines_of(output@),
            all == text::views(lines@),
            errors_view(r@) == mypy_errors(all.subrange(0, i as int)),
        decreases lines@.len() - i,
    {
        proof {
            let next = all.subrange(0, i + 1);
            assert(next.drop_last() =~= all.subrange(0, i as int));
            assert(next.last() == lines@[i as int]@);
            assert(all[i as int] == lines@[i as int]@);
        }
        let ghost before = errors_view(r@);
        let t = text::trim(lines[i].as_str());
        match (text::ahead(t.as_str(), ": error: "), read_part(t.as_str())) {
            (Some(location), Some(rest)) => {
                let e = read_error(location, rest.as_str());
                if !e.2.as_str().is_empty() {
                    r.push(e);
                    assert(errors_view(r@) =~= before.push(
                        MypyErrorV { location: e.0@, code: e.1@, message: e.2@ },
                    ));
                }
            },
            _ => {},
        }
        i += 1;
    }
    assert(all.subrange(0, i as int) =~= all);
    r
}

// ── the result ──────────────────────────────────────────────────────────────

pub open spec fn error_found(e: MypyErrorV, cmd: Seq<char>) -> FindingV {
    FindingV {
        severity: Severity::High,
        code: e.code,
        message: e.message,
        location: Some(e.location),
        reproduce_cmd: Some(cmd + " . --ignore-missing-imports 2>&1 | head -30"@),
        suggestion: Some(TYPE_HINT@),
    }
}

pub open spec fn errors_found(errors: Seq<MypyErrorV>, cmd: Seq<char>) -> Seq<FindingV> {
    errors.map_values(|e: MypyErrorV| error_found(e, cmd))
}

/// A finding for each of the first ten errors, and one that tells of the others.
pub open spec fn mypy_findings(errors: Seq<MypyErrorV>, cmd: Seq<char>) -> Seq<FindingV> {
    let shown = errors_found(parts::at_most(errors, 10), cmd);
    if errors.len() > 10 {
        shown.push(
            parts::found(
                Severity::Info,
                "MYPY_ERRORS_TRUNCATED"@,
                text::decimal(errors.len()) + " mypy error(s) total — showing first 10"@,
                Some(cmd + " . --ignore-missing-imports 2>&1"@),
                None,
            ),
        )
    } else {
        shown
    }
}

/// The result of running mypy as `cmd`.
pub open spec fn reported(
    cmd: Seq<char>,
    outcome: Result<ProcessOutput, String>,
    duration_ms: u64,
) -> LayerResultV {
    match outcome {
        Ok(out) => {
            let errors = mypy_errors(text::lines_of(out.both()));
            parts::result_of(
                Layer::Logic,
                "mypy"@,
                if out.success {
                    LayerStatus::Pass
                } else {
                    LayerStatus::Fail
                },
                if out.success {
                    Seq::empty()
                } else {
                    mypy_findings(errors, cmd)
                },
                parts::tested(0, 0, errors.len() as u64),
                duration_ms,
            )
        },
        Err(e) => parts::failure_of(
            Layer::Logic,
            "mypy"@,
            parts::found(
                Severity::Critical,
                "MYPY_EXECUTION_FAILED"@,
                "Failed to run mypy: "@ + e@,
                Some(cmd + " . 2>&1"@),
                Some(INSTALL_HINT@),
            ),
            duration_ms,
        ),
    }
}

fn list_errors(errors: &Vec<(String, String, String)>, cmd: &str) -> (r: Vec<Finding>)
    ensures
        report::findings_view(r@) == mypy_findings(errors_view(errors@), cmd@),
{
    let ghost all = errors_view(errors@);
    let mut r: Vec<Finding> = Vec::new();
    let shown: usize = if errors.len() > 10 {
        10
    } else {
        errors.len()
    };
    let mut i: usize = 0;
    assert(errors_found(all.subrange(0, 0), cmd@) =~= Seq::<FindingV>::empty());
    assert(report::findings_view(r@) =~= Seq::<FindingV>::empty());
    while i < shown
        invariant
            i <= shown <= errors@.len(),
            all == errors_view(errors@),
            report::findings_view(r@) == errors_found(all.subrange(0, i as int), cmd@),
        decreases shown - i,
    {
        let e = &errors[i];
        let f = Finding {
            severity: Severity::High,
            code: e.1.clone(),
            message: e.2.clone(),
            location: Some(e.0.clone()),
            reproduce_cmd: Some(text::cat(cmd, " . --ignore-missing-imports 2>&1 | head -30")),
            suggestion: Some(TYPE_HINT.to_string()),
        };
        assert(f@ == error_found(all[i as int], cmd@));
        assert(errors_found(all.subrange(0, i + 1), cmd@) =~= errors_found(
            all.subrange(0, i as int),
            cmd@,
        ).push(f@));
        parts::push_finding(&mut r, f);
        i += 1;
    }
    assert(all.subrange(0, i as int) =~= parts::at_most(all, 10));
    if errors.len() > 10 {
        let message = text::cat(
            text::number(errors.len() as u64).as_str(),
            " mypy error(s) total — showing first 10",
        );
        let again = text::cat(cmd, " . --ignore-missing-imports 2>&1");
        parts::push_finding(
            &mut r,
            parts::finding(
                Severity::Info,
                "MYPY_ERRORS_TRUNCATED",
                message.as_str(),
                Some(again.as_str()),
                None,
            ),
        );
    }
    r
}

/// The result of running mypy as `cmd`.
pub fn report_mypy(cmd: &str, outcome: &Result<ProcessOutput, String>, duration_ms: u64) -> (r: LayerResult)
    ensures
        r@ == reported(cmd@, *outcome, duration_ms),
{
    match outcome {
        Ok(out) => {
            let combined = out.combined();
            let errors = parse_mypy_errors(combined.as_str());
            let ghost all = mypy_errors(text::lines_of(out.both()));
            assert(all.len() == errors@.len());
            let findings = if out.success {
                parts::nothing()
            } else {
                list_errors(&errors, cmd)
            };
            let status = if out.success {
                LayerStatus::Pass
            } else {
                LayerStatus::Fail
            };
            let metrics = LayerMetrics {
                tests_run: 0,
                passed: 0,
                failed: errors.len() as u64,
                coverage: None,
                mutation_score: None,
            };
            parts::layer_result(Layer::Logic, "mypy", status, findings, metrics, duration_ms)
        },
        Err(e) => {
            let message = text::cat("Failed to run mypy: ", e.as_str());
            let again = text::cat(cmd, " . 2>&1");
            let f = parts::finding(
                Severity::Critical,
                "MYPY_EXECUTION_FAILED",
                message.as_str(),
                Some(again.as_str()),
                Some(INSTALL_HINT),
            );
            parts::failure(Layer::Logic, "mypy", f, duration_ms)
        },
    }
}

pub open spec fn mypy_args() -> Seq<Seq<char>> {
    seq!["."@, "--ignore-missing-imports"@, "--no-error-summary"@]
}

/// `r` is the result of one of the outcomes that running `cmd` in `root` can have.
pub open spec fn is_run<P: SubprocessRunner>(
    before: P,
    after: P,
    cmd: Seq<char>,
    root: Seq<char>,
    r: LayerResultV,
) -> bool {
    exists|o: Result<ProcessOutput, String>, ms: u64|
        #[trigger] before.answers(cmd, mypy_args(), root, o, after) && r == #[trigger] reported(cmd, o, ms)
}

impl MypyRunner {
    pub fn is_available<P: SubprocessRunner>(
        &self,
        proc: &mut P,
        project: &ProjectInfo,
        files: &Files,
    ) -> (r: bool)
        ensures
            if project.language != Language::Python {
                !r && *final(proc) == *old(proc)
            } else if files.has(".venv/bin/"@ + "mypy"@) {
                r && *final(proc) == *old(proc)
            } else {
                process::is_probed(*old(proc), "mypy"@, seq!["--version"@], r, *final(proc))
            },
    {
        if project.language != Language::Python {
            return false;
        }
        if python_venv::has_local_tool(files, "mypy") {
            return true;
        }
        let args = vec!["--version".to_string()];
        assert(text::views(args@) =~= seq!["--version"@]);
        proc.is_available("mypy", &args)
    }

    pub fn run<P: SubprocessRunner>(&self, proc: &mut P, project: &ProjectInfo, files: &Files) -> (r: LayerResult)
        ensures
            is_run(
                *old(proc),
                *final(proc),
                python_venv::tool_command(*files, project.root@, "mypy"@),
                project.root@,
                r@,
            ),
    {
        let start = time::started();
        let cmd = python_venv::local_tool(files, project.root.as_str(), "mypy");
        let args = vec![
            ".".to_string(),
            "--ignore-missing-imports".to_string(),
            "--no-error-summary".to_string(),
        ];
        assert(text::views(args@) =~= mypy_args());
        let outcome = proc.run(cmd.as_str(), &args, project.root.as_str());
        let ms = time::elapsed_ms(&start);
        let r = report_mypy(cmd.as_str(), &outcome, ms);
        assert(old(proc).answers(cmd@, mypy_args(), project.root@, outcome, *proc));
        r
    }
}

/// However many errors there are, at most eleven findings come of them: ten errors and the
/// number of all.
pub proof fn law_mypy_findings_are_few(errors: Seq<MypyErrorV>, cmd: Seq<char>)
    ensures
        mypy_findings(errors, cmd).len() == if errors.len() > 10 {
            11
        } else {
            errors.len() as int
        },
{
}

// ── laws ────────────────────────────────────────────────────────────────────

/// Every line with an error gives an error, in order; others give none.
pub proof fn law_each_error_is_read(lines: Seq<Seq<char>>, line: Seq<char>)
    ensures
        mypy_errors(Seq::empty()) == Seq::<MypyErrorV>::empty(),
        line_error(line) is Some ==> mypy_errors(lines.push(line)) == mypy_errors(lines).push(
            line_error(line)->0,
        ),
        line_error(line) is None ==> mypy_errors(lines.push(line)) == mypy_errors(lines),
{
    assert(lines.push(line).drop_last() =~= lines);
}

/// A line holds an error exactly where it holds `: error: ` with a message behind it; what
/// stands before is its place.
pub proof fn law_error_stands_behind_its_place(place: Seq<char>, message: Seq<char>)
    requires
        text::trimmed(place + ": error: "@ + message) == place + ": error: "@ + message,
        message.len() > 0,
        !text::has(message, ": error: "@),
        text::last_pos(message, '[') is None,
        forall|j: int|
            0 <= j < place.len() ==> !text::occurs_at(
                place + ": error: "@ + message,
                ": error: "@,
                j,
            ),
    ensures
        line_error(place + ": error: "@ + message) == Some(
            MypyErrorV { location: place, code: "MYPY_ERROR"@, message },
        ),
{
    let mark = ": error: "@;
    let line = place + mark + message;
    text::law_text_is_found(place, mark, message);
    text::lemma_find_from(line, mark, 0);
    let i = text::find_text(line, mark)->0;
    assert(i == place.len()) by {
        if i < place.len() {
            assert(!text::occurs_at(line, mark, i));
        }
    }
    assert(line.subrange(0, i) =~= place);
    assert(line.subrange(i + mark.len(), line.len() as int) =~= message);
    text::lemma_has_find(message, mark);
}

/// A check passes exactly where it succeeds; else every error, up to ten, is a high
/// finding, and more than ten are told of. All errors count as failures. A check that
/// cannot be made fails.
pub proof fn law_errors_are_reported(
    cmd: Seq<char>,
    out: ProcessOutput,
    ms: u64,
    i: int,
    e: String,
)
    requires
        text::lines_of(out.both()).len() <= u64::MAX,
    ensures
        ({
            let r = reported(cmd, Ok(out), ms);
            let errors = mypy_errors(text::lines_of(out.both()));
            &&& r.name == "logic"@ && r.runner == "mypy"@ && r.duration_ms == ms
            &&& out.success ==> r.status == LayerStatus::Pass && r.findings.len() == 0
            &&& !out.success ==> r.status == LayerStatus::Fail
            &&& !out.success && errors.len() <= 10 ==> r.findings.len() == errors.len()
            &&& !out.success && errors.len() > 10 ==> r.findings.len() == 11
                && r.findings[10].severity == Severity::Info
            &&& !out.success && 0 <= i < errors.len() && i < 10 ==> r.findings[i].severity
                == Severity::High && r.findings[i].code == errors[i].code && r.findings[i].message
                == errors[i].message && r.findings[i].location == Some(errors[i].location)
            &&& r.metrics.failed == errors.len()
        }),
        ({
            let r = reported(cmd, Err(e), ms);
            &&& r.status == LayerStatus::Fail && r.findings.len() == 1 && r.findings[0].severity
                == Severity::Critical && r.metrics.failed == 1 && r.runner == "mypy"@
        }),
{
    lemma_errors_bound(text::lines_of(out.both()));
}

proof fn lemma_errors_bound(lines: Seq<Seq<char>>)
    ensures
        mypy_errors(lines).len() <= lines.len(),
    decreases lines.len(),
{
    if lines.len() > 0 {
        lemma_errors_bound(lines.drop_last());
    }
}

/// How mypy is called.
pub proof fn law_how_it_is_called()
    ensures
        mypy_args() == seq!["."@, "--ignore-missing-imports"@, "--no-error-summary"@],
{
}

/// What is said where the tool cannot be run.
pub proof fn law_what_a_failed_start_says(cmd: Seq<char>, e: String, ms: u64)
    ensures
        ({
            let r = reported(cmd, Err(e), ms);
            &&& r.runner == "mypy"@ && r.status == LayerStatus::Fail && r.findings.len() == 1
            &&& r.findings[0].severity == Severity::Critical
            &&& r.findings[0].code == "MYPY_EXECUTION_FAILED"@
            &&& r.findings[0].message == "Failed to run mypy: "@ + e@
            &&& r.findings[0].reproduce_cmd == Some(cmd + " . 2>&1"@)
        }),
{
}

/// What is said of an error, and of more than ten.
pub proof fn law_what_type_errors_say(e: MypyErrorV, errors: Seq<MypyErrorV>, cmd: Seq<char>)
    ensures
        error_found(e, cmd).severity == Severity::High && error_found(e, cmd).code == e.code
            && error_found(e, cmd).message == e.message && error_found(e, cmd).location == Some(
            e.location,
        ),
        error_found(e, cmd).reproduce_cmd == Some(
            cmd + " . --ignore-missing-imports 2>&1 | head -30"@,
        ),
        errors.len() > 10 ==> mypy_findings(errors, cmd).last().severity == Severity::Info
            && mypy_findings(errors, cmd).last().code == "MYPY_ERRORS_TRUNCATED"@ && mypy_findings(
            errors,
            cmd,
        ).last().message == text::decimal(errors.len())
            + " mypy error(s) total — showing first 10"@ && mypy_findings(
            errors,
            cmd,
        ).last().reproduce_cmd == Some(cmd + " . --ignore-missing-imports 2>&1"@),
{
}

/// The rule of an error stands in brackets at its end and is no part of its message.
pub proof fn law_rule_stands_in_brackets(
    place: Seq<char>,
    message: Seq<char>,
    rule: Seq<char>,
)
    requires
        text::lacks(rule, '[') && text::lacks(rule, ']'),
    ensures
        error_in(place, message + seq!['['] + rule + seq![']']).code == "MYPY_"@ + text::uppercase(
            text::replaced(rule, '-', "_"@),
        ),
        error_in(place, message + seq!['['] + rule + seq![']']).message == text::trimmed(message),
        error_in(place, message + seq!['['] + rule + seq![']']).location == place,
        text::lacks(message, '[') ==> error_in(place, message).code == "MYPY_ERROR"@ && error_in(
            place,
            message,
        ).message == message,
{
    let s = message + seq!['['] + rule + seq![']'];
    let a = message.len() as int;
    let b = s.len() - 1;
    assert(s[a] == '[' && s[b] == ']');
    assert forall|k: int| a < k < s.len() implies s[k] != '[' by {
        if k < b {
            assert(s[k] == rule[k - a - 1]);
        }
    }
    text::law_last_position(s, '[', a);
    text::law_last_position(s, ']', b);
    assert(s.subrange(a + 1, b) =~= rule);
    assert(s.subrange(0, a) =~= message);
    if text::lacks(message, '[') {
        text::law_last_position(message, '[', 0);
    }
}

/// A result belongs to the layer and the runner that it is of, whatever came out.
pub proof fn law_where_results_belong(cmd: Seq<char>, outcome: Result<ProcessOutput, String>, duration_ms: u64)
    ensures
        reported(cmd, outcome, duration_ms).name == "logic"@,
        reported(cmd, outcome, duration_ms).runner == "mypy"@,
        reported(cmd, outcome, duration_ms).duration_ms == duration_ms,
{
}

} // verus!
