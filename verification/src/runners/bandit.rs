//! Bandit: security of Python code.
use vstd::prelude::*;

use crate::data;
use crate::data::{Data, DataV};
use crate::detect::{Language, ProjectInfo};
use crate::files::Files;
use crate::plugin::{Layer, TestRunner};
use crate::process;
use crate::process::{ProcessOutput, SubprocessRunner};
use crate::report;
use crate::report::{Finding, FindingV, LayerMetrics, LayerResult, LayerResultV, LayerStatus, Severity};
use crate::runners::parts;
use crate::runners::python_venv;
use crate::text;
use crate::time;

verus! {

#[derive(Debug, Default)]
pub struct BanditRunner;

pub const SKIP: &'static str = "bandit not installed — run `pip install bandit` for Python security analysis (SQLi, shell injection, hardcoded passwords, etc.)";

pub const SAFETY_HINT: &'static str = "Consider also running `safety check` to audit Python dependency vulnerabilities.";

pub const INSTALL_HINT: &'static str = "Install: `pip install bandit` or `uv add --dev bandit`.";

impl TestRunner for BanditRunner {
    fn name(&self) -> (r: &'static str)
        ensures
            r@ == "bandit"@,
    {
        "bandit"
    }

    fn layer(&self) -> (r: Layer)
        ensures
            r == Layer::Hostile,
    {
        Layer::Hostile
    }

    fn skip_message(&self) -> (r: &'static str)
        ensures
            r@ == SKIP@,
    {
        SKIP
    }
}

// ── issues ──────────────────────────────────────────────────────────────────

/// The severity that a level in upper case stands for.
pub open spec fn level_severity(level: Seq<char>) -> Severity {
    if level == "HIGH"@ {
        Severity::High
    } else if level == "MEDIUM"@ {
        Severity::Medium
    } else {
        Severity::Low
    }
}

pub fn severity_of_level(level: &str) -> (r: Severity)
    ensures
        r == level_severity(level@),
{
    if text::same(level, "HIGH") {
        Severity::High
    } else if text::same(level, "MEDIUM") {
        Severity::Medium
    } else {
        Severity::Low
    }
}

/// The finding for an issue.
pub open spec fn issue_found(item: DataV) -> FindingV {
    let filename = item.text_or("filename"@, ""@);
    FindingV {
        severity: level_severity(text::uppercase(item.text_or("issue_severity"@, "LOW"@))),
        code: item.text_or("test_id"@, "BANDIT"@),
        message: item.text_or("issue_text"@, "Security issue"@),
        location: if filename.len() == 0 {
            None
        } else {
            Some(
                filename + ":"@ + text::decimal(item.number_or("line_number"@, 0) as nat),
            )
        },
        reproduce_cmd: Some("bandit -r . 2>&1 | grep -A 5 '"@ + filename + "'"@),
        suggestion: item.text_at("more_info"@),
    }
}

pub open spec fn issues_found(items: Seq<DataV>) -> Seq<FindingV> {
    items.map_values(|d: DataV| issue_found(d))
}

/// The findings in a report, if the document is one.
pub open spec fn bandit_report(doc: DataV) -> Option<Seq<FindingV>> {
    match doc.list_at("results"@) {
        Some(items) => Some(issues_found(items)),
        None => None,
    }
}

/// The finding for an issue.
pub fn bandit_item_to_finding(item: &Data) -> (r: Finding)
    ensures
        r@ == issue_found(item@),
{
    let level = item.str_or("issue_severity", "LOW").as_str().to_uppercase();
    let filename = item.str_or("filename", "");
    let line = item.u64_or("line_number", 0);
    Finding {
        severity: severity_of_level(level.as_str()),
        code: item.str_or("test_id", "BANDIT"),
        message: item.str_or("issue_text", "Security issue"),
        location: if filename.as_str().is_empty() {
            None
        } else {
            Some(text::cat3(filename.as_str(), ":", text::number(line).as_str()))
        },
        reproduce_cmd: Some(
            text::cat3("bandit -r . 2>&1 | grep -A 5 '", filename.as_str(), "'"),
        ),
        suggestion: match item.get_str("more_info") {
            Some(s) => Some(s.to_string()),
            None => None,
        },
    }
}

/// The findings in a report, if the document is one.
pub fn extract_bandit_findings(doc: &Data) -> (r: Option<Vec<Finding>>)
    ensures
        match r {
            Some(v) => bandit_report(doc@) == Some(report::findings_view(v@)),
            None => bandit_report(doc@) is None,
        },
{
    let items = match doc.get_array("results") {
        Some(v) => v,
        None => {
            return None;
        },
    };
    let ghost all = data::trees(items@);
    let mut r = parts::nothing();
    let mut i: usize = 0;
    assert(issues_found(all.subrange(0, 0)) =~= Seq::<FindingV>::empty());
    while i < items.len()
        invariant
            i <= items@.len(),
            all == data::trees(items@),
            report::findings_view(r@) == issues_found(all.subrange(0, i as int)),
        decreases items@.len() - i,
    {
        assert(all[i as int] == items@[i as int]@);
        let f = bandit_item_to_finding(&items[i]);
        assert(issues_found(all.subrange(0, i + 1)) =~= issues_found(
            all.subrange(0, i as int),
        ).push(f@));
        parts::push_finding(&mut r, f);
        i += 1;
    }
    assert(all.subrange(0, i as int) =~= all);
    Some(r)
}

/// The findings in the first report among some documents.
pub open spec fn bandit_findings(docs: Seq<DataV>) -> Seq<FindingV> {
    parts::first_report(docs, |d: DataV| bandit_report(d), 0)
}

pub fn find_bandit_report(docs: &Vec<Data>) -> (r: Vec<Finding>)
    ensures
        report::findings_view(r@) == bandit_findings(data::trees(docs@)),
{
    let ghost all = data::trees(docs@);
    let ghost f = |d: DataV| bandit_report(d);
    let mut i: usize = 0;
    while i < docs.len()
        invariant
            i <= docs@.len(),
            all == data::trees(docs@),
            f == (|d: DataV| bandit_report(d)),
            parts::first_report(all, f, i as int) == bandit_findings(all),
        decreases docs@.len() - i,
    {
        assert(all[i as int] == docs@[i as int]@);
        match extract_bandit_findings(&docs[i]) {
            Some(v) => {
                return v;
            },
            None => {},
        }
        i += 1;
    }
    parts::nothing()
}

/// The findings in the output of `bandit -f json`.
pub fn parse_bandit_json(output: &str) -> (r: Vec<Finding>)
    ensures
        report::findings_view(r@) == bandit_findings(parts::documents_in(output@)),
{
    let docs = parts::documents(output);
    find_bandit_report(&docs)
}

// ── the result ──────────────────────────────────────────────────────────────

pub open spec fn passed() -> FindingV {
    parts::found(
        Severity::Info,
        "BANDIT_PASSED"@,
        "No security issues detected by bandit"@,
        None,
        Some(SAFETY_HINT@),
    )
}

/// The result of a scan with findings.
pub open spec fn scanned(findings: Seq<FindingV>, duration_ms: u64) -> LayerResultV {
    parts::result_of(
        Layer::Hostile,
        "bandit"@,
        parts::scan_status(findings),
        parts::or_passed(findings, passed()),
        report::no_metrics(),
        duration_ms,
    )
}

/// The result of running Bandit as `cmd`.
pub open spec fn reported(
    cmd: Seq<char>,
    outcome: Result<ProcessOutput, String>,
    duration_ms: u64,
) -> LayerResultV {
    match outcome {
        Ok(out) => scanned(bandit_findings(parts::documents_in(out.both())), duration_ms),
        Err(e) => parts::failure_of(
            Layer::Hostile,
            "bandit"@,
            parts::found(
                Severity::Critical,
                "BANDIT_EXECUTION_FAILED"@,
                "Failed to run bandit: "@ + e@,
                Some(cmd + " -r . 2>&1"@),
                Some(INSTALL_HINT@),
            ),
            duration_ms,
        ),
    }
}

/// The result of running Bandit as `cmd`.
pub fn report_bandit(cmd: &str, outcome: &Result<ProcessOutput, String>, duration_ms: u64) -> (r:
    LayerResult)
    ensures
        r@ == reported(cmd@, *outcome, duration_ms),
{
    match outcome {
        Ok(out) => {
            let findings = parse_bandit_json(out.combined().as_str());
            let status = parts::status_of_scan(&findings);
            let findings = parts::or_else(
                findings,
                parts::finding(
                    Severity::Info,
                    "BANDIT_PASSED",
                    "No security issues detected by bandit",
                    None,
                    Some(SAFETY_HINT),
                ),
            );
            parts::layer_result(
                Layer::Hostile,
                "bandit",
                status,
                findings,
                LayerMetrics::none(),
                duration_ms,
            )
        },
        Err(e) => {
            let message = text::cat("Failed to run bandit: ", e.as_str());
            let again = text::cat(cmd, " -r . 2>&1");
            let f = parts::finding(
                Severity::Critical,
                "BANDIT_EXECUTION_FAILED",
                message.as_str(),
                Some(again.as_str()),
                Some(INSTALL_HINT),
            );
            parts::failure(Layer::Hostile, "bandit", f, duration_ms)
        },
    }
}

pub open spec fn bandit_args() -> Seq<Seq<char>> {
    seq!["-r"@, "."@, "-f"@, "json"@, "-q"@]
}

/// `r` is the result of one of the outcomes that running `cmd` in `root` can have.
pub open spec fn is_run<P: SubprocessRunner>(
    before: P,
    after: P,
    cmd: Seq<char>,
    root: Seq<char>,
    r: LayerResultV,
) -> bool {
    exists|o: Result<ProcessOutput, String>, ms: u64|
        #[trigger] before.answers(cmd, bandit_args(), root, o, after) && r == #[trigger] reported(cmd, o, ms)
}

impl BanditRunner {
    pub fn is_available<P: SubprocessRunner>(
        &self,
        proc: &mut P,
        project: &ProjectInfo,
        files: &Files,
    ) -> (r: bool)
        ensures
            if project.language != Language::Python {
                !r && *final(proc) == *old(proc)
            } else if files.has(".venv/bin/"@ + "bandit"@) {
                r && *final(proc) == *old(proc)
            } else {
                process::is_probed(*old(proc), "bandit"@, seq!["--version"@], r, *final(proc))
            },
    {
        if project.language != Language::Python {
            return false;
        }
        if python_venv::has_local_tool(files, "bandit") {
            return true;
        }
        let args = vec!["--version".to_string()];
        assert(text::views(args@) =~= seq!["--version"@]);
        proc.is_available("bandit", &args)
    }

    pub fn run<P: SubprocessRunner>(&self, proc: &mut P, project: &ProjectInfo, files: &Files) -> (r: LayerResult)
        ensures
            is_run(
                *old(proc),
                *final(proc),
                python_venv::tool_command(*files, project.root@, "bandit"@),
                project.root@,
                r@,
            ),
    {
        let start = time::started();
        let cmd = python_venv::local_tool(files, project.root.as_str(), "bandit");
        let args = vec![
            "-r".to_string(),
            ".".to_string(),
            "-f".to_string(),
            "json".to_string(),
            "-q".to_string(),
        ];
        assert(text::views(args@) =~= bandit_args());
        let outcome = proc.run(cmd.as_str(), &args, project.root.as_str());
        let ms = time::elapsed_ms(&start);
        let r = report_bandit(cmd.as_str(), &outcome, ms);
        assert(old(proc).answers(cmd@, bandit_args(), project.root@, outcome, *proc));
        assert(r@ == reported(cmd@, outcome, ms));
        r
    }
}

// ── laws ────────────────────────────────────────────────────────────────────

/// An issue of the level HIGH, MEDIUM or LOW, in whatever case it is written, gives a
/// finding of that severity; one without a level, or of any other, a low one. Code,
/// message and place are those of the issue.
pub proof fn law_levels_are_severities(item: DataV)
    ensures
        item.text_at("issue_severity"@) matches Some(s) ==> {
            &&& text::uppercase(s) == "HIGH"@ ==> issue_found(item).severity == Severity::High
            &&& text::uppercase(s) == "MEDIUM"@ ==> issue_found(item).severity == Severity::Medium
            &&& text::uppercase(s) == "LOW"@ ==> issue_found(item).severity == Severity::Low
            &&& text::uppercase(s) != "HIGH"@ && text::uppercase(s) != "MEDIUM"@ ==> issue_found(
                item,
            ).severity == Severity::Low
        },
        item.text_at("test_id"@) matches Some(s) ==> issue_found(item).code == s,
        item.text_at("issue_text"@) matches Some(s) ==> issue_found(item).message == s,
        item.text_at("filename"@) matches Some(s) ==> (s.len() > 0 ==> issue_found(item).location
            == Some(s + ":"@ + text::decimal(item.number_or("line_number"@, 0) as nat))),
{
    reveal_strlit("HIGH");
    reveal_strlit("MEDIUM");
    reveal_strlit("LOW");
    assert("HIGH"@.len() != "MEDIUM"@.len() && "LOW"@.len() != "HIGH"@.len());
    assert("LOW"@.len() != "MEDIUM"@.len());
}

/// The issue has this level, in whatever case it is written; one that states none is low.
pub open spec fn has_level(item: DataV, level: Seq<char>) -> bool {
    text::uppercase(item.text_or("issue_severity"@, "LOW"@)) == level
}

/// A scan reports every issue of its report, in order, and is partial exactly where one of
/// them is of the level HIGH or MEDIUM; else it passes. A scan that cannot be made fails.
pub proof fn law_scan_reports_each_issue(
    cmd: Seq<char>,
    out: ProcessOutput,
    ms: u64,
    k: int,
    items: Seq<DataV>,
    e: String,
)
    requires
        0 <= k < parts::documents_in(out.both()).len(),
        parts::documents_in(out.both())[k].list_at("results"@) == Some(items),
        forall|j: int|
            0 <= j < k ==> (#[trigger] parts::documents_in(out.both())[j]).list_at(
                "results"@,
            ) is None,
    ensures
        ({
            let r = reported(cmd, Ok(out), ms);
            &&& r.name == "hostile"@ && r.runner == "bandit"@ && r.duration_ms == ms
            &&& items.len() > 0 ==> r.findings.len() == items.len() && forall|i: int|
                0 <= i < items.len() ==> #[trigger] r.findings[i] == issue_found(items[i])
            &&& r.status == LayerStatus::Partial <==> exists|i: int|
                0 <= i < items.len() && (has_level(#[trigger] items[i], "HIGH"@) || has_level(
                    items[i],
                    "MEDIUM"@,
                ))
            &&& r.status == LayerStatus::Partial || r.status == LayerStatus::Pass
            &&& items.len() == 0 ==> r.findings.len() == 1 && r.findings[0].severity
                == Severity::Info && r.findings[0].code == "BANDIT_PASSED"@
        }),
        ({
            let r = reported(cmd, Err(e), ms);
            &&& r.status == LayerStatus::Fail && r.findings.len() == 1 && r.findings[0].severity
                == Severity::Critical && r.metrics.failed == 1 && r.runner == "bandit"@
        }),
{
    let docs = parts::documents_in(out.both());
    let f = |d: DataV| bandit_report(d);
    parts::law_first_report_counts(docs, f, k);
    assert forall|j: int| 0 <= j < k implies f(#[trigger] docs[j]) is None by {
        assert(docs[j].list_at("results"@) is None);
    }
    let v = issues_found(items);
    assert(bandit_findings(docs) == v);
    let r = reported(cmd, Ok(out), ms);
    assert(r.status == parts::scan_status(v));
    parts::law_worst_finding_decides(v, 0);
    assert forall|i: int| 0 <= i < items.len() implies #[trigger] v[i] == issue_found(items[i]) by {}
    assert(r.status != LayerStatus::Fail) by {
        if r.status == LayerStatus::Fail {
            let i = choose|i: int|
                0 <= i < v.len() && (#[trigger] v[i]).severity == Severity::Critical;
            law_levels_are_severities(items[i]);
        }
    }
    if r.status == LayerStatus::Partial {
        let i = choose|i: int|
            0 <= i < v.len() && ((#[trigger] v[i]).severity == Severity::High || v[i].severity
                == Severity::Medium);
        law_levels_are_severities(items[i]);
        assert(v[i] == issue_found(items[i]));
        lemma_has_level(items[i]);
        assert(has_level(items[i], "HIGH"@) || has_level(items[i], "MEDIUM"@));
    }
    if exists|i: int|
        0 <= i < items.len() && (has_level(#[trigger] items[i], "HIGH"@) || has_level(
            items[i],
            "MEDIUM"@,
        )) {
        let i = choose|i: int|
            0 <= i < items.len() && (has_level(#[trigger] items[i], "HIGH"@) || has_level(
                items[i],
                "MEDIUM"@,
            ));
        reveal_strlit("HIGH");
        reveal_strlit("MEDIUM");
        assert("HIGH"@.len() != "MEDIUM"@.len());
        assert(v[i].severity == Severity::High || v[i].severity == Severity::Medium);
        parts::law_worst_finding_decides(v, i);
    }
}

proof fn lemma_has_level(item: DataV)
    ensures
        issue_found(item).severity == Severity::High || issue_found(item).severity
            == Severity::Medium ==> has_level(item, "HIGH"@) || has_level(item, "MEDIUM"@),
{
    reveal_strlit("HIGH");
    reveal_strlit("MEDIUM");
    reveal_strlit("LOW");
}

/// How the tool is called.
pub proof fn law_arguments_of_the_tool()
    ensures
        bandit_args() == seq!["-r"@, "."@, "-f"@, "json"@, "-q"@],
{
}

/// What is said where nothing was found.
pub proof fn law_what_a_clean_run_says()
    ensures
        passed().severity == Severity::Info,
        passed().code == "BANDIT_PASSED"@,
        passed().message == "No security issues detected by bandit"@,
{
}

/// What is said where the tool cannot be run.
pub proof fn law_what_a_failed_start_says(cmd: Seq<char>, e: String, ms: u64)
    ensures
        ({
            let r = reported(cmd, Err(e), ms);
            &&& r.runner == "bandit"@ && r.status == LayerStatus::Fail && r.findings.len() == 1
            &&& r.findings[0].severity == Severity::Critical
            &&& r.findings[0].code == "BANDIT_EXECUTION_FAILED"@
            &&& r.findings[0].message == "Failed to run bandit: "@ + e@
            &&& r.findings[0].reproduce_cmd == Some(cmd + " -r . 2>&1"@)
        }),
{
}

/// What an issue says where it leaves something out, and where it stands.
pub proof fn law_what_an_issue_says(item: DataV)
    ensures
        item.text_at("test_id"@) is None ==> issue_found(item).code == "BANDIT"@,
        item.text_at("test_id"@) matches Some(s) ==> issue_found(item).code == s,
        item.text_at("issue_text"@) is None ==> issue_found(item).message == "Security issue"@,
        item.text_at("issue_text"@) matches Some(s) ==> issue_found(item).message == s,
        item.text_at("more_info"@) == issue_found(item).suggestion,
        item.text_at("filename"@) matches Some(f) ==> (f.len() > 0 ==> issue_found(item).location
            == Some(f + ":"@ + text::decimal(item.number_or("line_number"@, 0) as nat)))
            && issue_found(item).reproduce_cmd == Some(
            "bandit -r . 2>&1 | grep -A 5 '"@ + f + "'"@,
        ),
{
}

/// A result belongs to the layer and the runner that it is of, whatever came out.
pub proof fn law_where_results_belong(cmd: Seq<char>, outcome: Result<ProcessOutput, String>, duration_ms: u64)
    ensures
        reported(cmd, outcome, duration_ms).name == "hostile"@,
        reported(cmd, outcome, duration_ms).runner == "bandit"@,
        reported(cmd, outcome, duration_ms).duration_ms == duration_ms,
{
}

} // verus!
