//! npm audit: known vulnerabilities of JavaScript dependencies.
use vstd::prelude::*;

use crate::data;
use crate::data::{Data, DataV};
use crate::detect::{Language, ProjectInfo};
use crate::files::Files;
use crate::plugin::{Layer, TestRunner};
use crate::process::{ProcessOutput, SubprocessRunner};
use crate::report;
use crate::report::{Finding, FindingV, LayerMetrics, LayerResult, LayerResultV, LayerStatus, Severity};
use crate::runners::operational_command;
use crate::runners::parts;
use crate::text;
use crate::time;

verus! {

#[derive(Debug, Default)]
pub struct NpmAuditRunner;

pub const SKIP: &'static str = "npm-audit requires a lockfile — run `npm install` or `pnpm install` to generate one";

pub const UPDATE_HINT: &'static str = "Keep dependencies updated: `npx npm-check-updates -u`";

pub const FIX_HINT: &'static str = "Run `npm audit fix` to auto-fix. Review breaking changes first.";

pub const NO_FIX_HINT: &'static str = "No automatic fix available. Review and replace the dependency.";

impl TestRunner for NpmAuditRunner {
    fn name(&self) -> (r: &'static str)
        ensures
            r@ == "npm-audit"@,
    {
        "npm-audit"
    }

    fn layer(&self) -> (r: Layer)
        ensures
            r == Layer::Hostile,
    {
        Layer::Hostile
    }

    fn skip_message(&self) -> (r: &'static str)
        ensures
            r@ == SKIP@,
    {
        SKIP
    }
}

// ── where and how to audit ──────────────────────────────────────────────────

/// A directory has a lock file.
pub open spec fn locked(files: Files) -> bool {
    files.has("package-lock.json"@) || files.has("pnpm-lock.yaml"@) || files.has("yarn.lock"@)
}

pub fn has_lockfile(files: &Files) -> (r: bool)
    ensures
        r == locked(*files),
{
    files.is_there("package-lock.json") || files.is_there("pnpm-lock.yaml") || files.is_there(
        "yarn.lock",
    )
}

/// The audit is made at the root of the workspace: the package has no lock file of its own.
pub open spec fn at_workspace(project: ProjectInfo, files: Files) -> bool {
    !locked(files) && project.workspace_root is Some
}

/// The directory in which the audit is made.
pub open spec fn audit_root(project: ProjectInfo, files: Files) -> Seq<char> {
    match project.workspace_root {
        Some(ws) => if locked(files) {
            project.root@
        } else {
            ws@
        },
        None => project.root@,
    }
}

/// The package manager whose lock file a directory has: pnpm before yarn, else npm.
pub open spec fn audit_tool(files: Files) -> Seq<char> {
    if files.has("pnpm-lock.yaml"@) {
        "pnpm"@
    } else if files.has("yarn.lock"@) {
        "yarn"@
    } else {
        "npm"@
    }
}

fn select_tool(files: &Files) -> (r: &'static str)
    ensures
        r@ == audit_tool(*files),
{
    if files.is_there("pnpm-lock.yaml") {
        "pnpm"
    } else if files.is_there("yarn.lock") {
        "yarn"
    } else {
        "npm"
    }
}

// ── vulnerabilities ─────────────────────────────────────────────────────────

pub open spec fn vuln_severity(s: Seq<char>) -> Severity {
    if s == "critical"@ {
        Severity::Critical
    } else if s == "high"@ {
        Severity::High
    } else if s == "moderate"@ || s == "medium"@ {
        Severity::Medium
    } else {
        Severity::Low
    }
}

pub fn severity_of_vuln(s: &str) -> (r: Severity)
    ensures
        r == vuln_severity(s@),
{
    if text::same(s, "critical") {
        Severity::Critical
    } else if text::same(s, "high") {
        Severity::High
    } else if text::same(s, "moderate") || text::same(s, "medium") {
        Severity::Medium
    } else {
        Severity::Low
    }
}

/// A vulnerability can be fixed without help.
pub open spec fn fixable(vuln: DataV) -> bool {
    match vuln.field("fixAvailable"@) {
        Some(f) => f.as_bool() == Some(true),
        None => false,
    }
}

/// The finding for a vulnerable package.
pub open spec fn vuln_found(pkg: Seq<char>, vuln: DataV) -> FindingV {
    let level = vuln.text_or("severity"@, "low"@);
    parts::found(
        vuln_severity(level),
        "NPM_VULN_"@ + text::replaced(text::uppercase(pkg), '-', "_"@),
        "Vulnerability in `"@ + pkg + "` ("@ + level + ")"@,
        Some("npm audit --json 2>&1 | jq '.vulnerabilities.\""@ + pkg + "\"'"@),
        Some(
            if fixable(vuln) {
                FIX_HINT@
            } else {
                NO_FIX_HINT@
            },
        ),
    )
}

pub open spec fn vulns_found(fields: Seq<(Seq<char>, DataV)>) -> Seq<FindingV> {
    fields.map_values(|f: (Seq<char>, DataV)| vuln_found(f.0, f.1))
}

/// The findings in a report, if the document is one.
pub open spec fn npm_report(doc: DataV) -> Option<Seq<FindingV>> {
    match doc.field("vulnerabilities"@) {
        Some(DataV::Fields(fields)) => Some(vulns_found(fields)),
        _ => None,
    }
}

fn read_vuln(pkg: &str, vuln: &Data) -> (r: Finding)
    ensures
        r@ == vuln_found(pkg@, vuln@),
{
    let level = vuln.str_or("severity", "low");
    let fix = match vuln.get("fixAvailable") {
        Some(f) => match f.as_bool() {
            Some(b) => b,
            None => false,
        },
        None => false,
    };
    let upper = pkg.to_uppercase();
    let code = text::cat("NPM_VULN_", text::replace(upper.as_str(), '-', "_").as_str());
    let message = text::cat5("Vulnerability in `", pkg, "` (", level.as_str(), ")");
    let cmd = text::cat3("npm audit --json 2>&1 | jq '.vulnerabilities.\"", pkg, "\"'");
    parts::finding(
        severity_of_vuln(level.as_str()),
        code.as_str(),
        message.as_str(),
        Some(cmd.as_str()),
        Some(
            if fix {
                FIX_HINT
            } else {
                NO_FIX_HINT
            },
        ),
    )
}

/// The findings in a report, if the document is one.
pub fn extract_npm_findings(doc: &Data) -> (r: Option<Vec<Finding>>)
    ensures
        match r {
            Some(v) => npm_report(doc@) == Some(report::findings_view(v@)),
            None => npm_report(doc@) is None,
        },
{
    let fields = match doc.get("vulnerabilities") {
        Some(v) => match v.as_object() {
            Some(fields) => fields,
            None => {
                return None;
            },
        },
        None => {
            return None;
        },
    };
    let ghost all = data::field_trees(fields@);
    let mut r = parts::nothing();
    let mut i: usize = 0;
    assert(vulns_found(all.subrange(0, 0)) =~= Seq::<FindingV>::empty());
    while i < fields.len()
        invariant
            i <= fields@.len(),
            all == data::field_trees(fields@),
            report::findings_view(r@) == vulns_found(all.subrange(0, i as int)),
        decreases fields@.len() - i,
    {
        let f = read_vuln(fields[i].0.as_str(), &fields[i].1);
        assert(f@ == vuln_found(all[i as int].0, all[i as int].1));
        assert(vulns_found(all.subrange(0, i + 1)) =~= vulns_found(all.subrange(0, i as int)).push(
            f@,
        ));
        parts::push_finding(&mut r, f);
        i += 1;
    }
    assert(all.subrange(0, i as int) =~= all);
    Some(r)
}

/// The findings in the first report among some documents.
pub open spec fn npm_findings(docs: Seq<DataV>) -> Seq<FindingV> {
    parts::first_report(docs, |d: DataV| npm_report(d), 0)
}

pub fn find_npm_report(docs: &Vec<Data>) -> (r: Vec<Finding>)
    ensures
        report::findings_view(r@) == npm_findings(data::trees(docs@)),
{
    let ghost all = data::trees(docs@);
    let ghost f = |d: DataV| npm_report(d);
    let mut i: usize = 0;
    while i < docs.len()
        invariant
            i <= docs@.len(),
            all == data::trees(docs@),
            f == (|d: DataV| npm_report(d)),
            parts::first_report(all, f, i as int) == npm_findings(all),
        decreases docs@.len() - i,
    {
        assert(all[i as int] == docs@[i as int]@);
        match extract_npm_findings(&docs[i]) {
            Some(v) => {
                return v;
            },
            None => {},
        }
        i += 1;
    }
    parts::nothing()
}

/// The findings in the output of `npm audit --json`.
pub fn parse_npm_audit_json(output: &str) -> (r: Vec<Finding>)
    ensures
        report::findings_view(r@) == npm_findings(parts::documents_in(output@)),
{
    let docs = parts::documents(output);
    find_npm_report(&docs)
}

// ── reproducing ─────────────────────────────────────────────────────────────

/// The package that the code of a finding names; empty where it names none.
pub open spec fn coded_package(code: Seq<char>) -> Seq<char> {
    match text::without_front(code, "NPM_VULN_"@) {
        Some(s) => text::replaced(text::lowercase(s), '_', "-"@),
        None => Seq::empty(),
    }
}

/// The command that repeats an audit with the package manager `cmd` in `cwd`, for one
/// package where there is one.
pub open spec fn audit_command(cmd: Seq<char>, cwd: Seq<char>, pkg: Seq<char>) -> Seq<char> {
    let audit = "cd "@ + operational_command::quoted(cwd) + " && "@ + cmd
        + " audit --json 2>&1"@;
    if pkg.len() == 0 {
        audit
    } else {
        audit + " | jq '.vulnerabilities.\""@ + pkg + "\"'"@
    }
}

pub fn audit_reproduce_cmd(cmd: &str, cwd: &str, finding_code: &str) -> (r: String)
    ensures
        r@ == audit_command(cmd@, cwd@, coded_package(finding_code@)),
{
    let pkg = match text::strip_prefix(finding_code, "NPM_VULN_") {
        Some(s) => {
            let lower = s.as_str().to_lowercase();
            text::replace(lower.as_str(), '_', "-")
        },
        None => String::new(),
    };
    let dir = operational_command::shell_quote(cwd);
    let audit = text::cat5("cd ", dir.as_str(), " && ", cmd, " audit --json 2>&1");
    if pkg.as_str().is_empty() {
        audit
    } else {
        text::cat4(audit.as_str(), " | jq '.vulnerabilities.\"", pkg.as_str(), "\"'")
    }
}

/// The finding with the command that the audit was really made with.
pub open spec fn corrected(f: FindingV, cmd: Seq<char>, cwd: Seq<char>) -> FindingV {
    FindingV { reproduce_cmd: Some(audit_command(cmd, cwd, coded_package(f.code))), ..f }
}

pub open spec fn all_corrected(v: Seq<FindingV>, cmd: Seq<char>, cwd: Seq<char>) -> Seq<FindingV> {
    v.map_values(|f: FindingV| corrected(f, cmd, cwd))
}

fn correct(v: Vec<Finding>, cmd: &str, cwd: &str) -> (r: Vec<Finding>)
    ensures
        report::findings_view(r@) == all_corrected(report::findings_view(v@), cmd@, cwd@),
{
    let ghost all = report::findings_view(v@);
    let mut r = parts::nothing();
    let mut i: usize = 0;
    assert(all_corrected(all.subrange(0, 0), cmd@, cwd@) =~= Seq::<FindingV>::empty());
    while i < v.len()
        invariant
            i <= v@.len(),
            all == report::findings_view(v@),
            report::findings_view(r@) == all_corrected(all.subrange(0, i as int), cmd@, cwd@),
        decreases v@.len() - i,
    {
        let mut f = v[i].clone();
        let again = audit_reproduce_cmd(cmd, cwd, f.code.as_str());
        f.reproduce_cmd = Some(again);
        assert(f@ == corrected(all[i as int], cmd@, cwd@));
        assert(all_corrected(all.subrange(0, i + 1), cmd@, cwd@) =~= all_corrected(
            all.subrange(0, i as int),
            cmd@,
            cwd@,
        ).push(f@));
        parts::push_finding(&mut r, f);
        i += 1;
    }
    assert(all.subrange(0, i as int) =~= all);
    r
}

// ── the result ──────────────────────────────────────────────────────────────

pub open spec fn passed() -> FindingV {
    parts::found(
        Severity::Info,
        "NPM_AUDIT_PASSED"@,
        "No known vulnerabilities in npm dependencies"@,
        None,
        Some(UPDATE_HINT@),
    )
}

/// The result of an audit with findings, made with `cmd` in `cwd`.
pub open spec fn audited(
    cmd: Seq<char>,
    cwd: Seq<char>,
    findings: Seq<FindingV>,
    duration_ms: u64,
) -> LayerResultV {
    let v = all_corrected(findings, cmd, cwd);
    parts::result_of(
        Layer::Hostile,
        "npm-audit"@,
        parts::scan_status(v),
        parts::or_passed(v, passed()),
        report::no_metrics(),
        duration_ms,
    )
}

/// The result of an audit with findings, made with `cmd` in `cwd`.
pub fn report_findings(cmd: &str, cwd: &str, findings: Vec<Finding>, duration_ms: u64) -> (r: LayerResult)
    ensures
        r@ == audited(cmd@, cwd@, report::findings_view(findings@), duration_ms),
{
    let findings = correct(findings, cmd, cwd);
    let status = parts::status_of_scan(&findings);
    let findings = parts::or_else(
        findings,
        parts::finding(
            Severity::Info,
            "NPM_AUDIT_PASSED",
            "No known vulnerabilities in npm dependencies",
            None,
            Some(UPDATE_HINT),
        ),
    );
    parts::layer_result(
        Layer::Hostile,
        "npm-audit",
        status,
        findings,
        LayerMetrics::none(),
        duration_ms,
    )
}

/// The result of running an audit with `cmd` in `cwd`.
pub open spec fn reported(
    cmd: Seq<char>,
    cwd: Seq<char>,
    outcome: Result<ProcessOutput, String>,
    duration_ms: u64,
) -> LayerResultV {
    match outcome {
        Ok(out) => audited(cmd, cwd, npm_findings(parts::documents_in(out.both())), duration_ms),
        Err(e) => parts::failure_of(
            Layer::Hostile,
            "npm-audit"@,
            parts::found(
                Severity::Critical,
                "NPM_AUDIT_FAILED"@,
                "Failed to run "@ + cmd + " audit: "@ + e@,
                Some(audit_command(cmd, cwd, Seq::empty())),
                Some(
                    "Ensure "@ + cmd + " is installed and `"@ + cmd + " install` has been run."@,
                ),
            ),
            duration_ms,
        ),
    }
}

/// The result of running an audit with `cmd` in `cwd`.
pub fn report_npm_audit(
    cmd: &str,
    cwd: &str,
    outcome: &Result<ProcessOutput, String>,
    duration_ms: u64,
) -> (r: LayerResult)
    ensures
        r@ == reported(cmd@, cwd@, *outcome, duration_ms),
{
    match outcome {
        Ok(out) => {
            let findings = parse_npm_audit_json(out.combined().as_str());
            report_findings(cmd, cwd, findings, duration_ms)
        },
        Err(e) => {
            let message = text::cat4("Failed to run ", cmd, " audit: ", e.as_str());
            let dir = operational_command::shell_quote(cwd);
            let again = text::cat5("cd ", dir.as_str(), " && ", cmd, " audit --json 2>&1");
            let suggestion = text::cat5(
                "Ensure ",
                cmd,
                " is installed and `",
                cmd,
                " install` has been run.",
            );
            let f = parts::finding(
                Severity::Critical,
                "NPM_AUDIT_FAILED",
                message.as_str(),
                Some(again.as_str()),
                Some(suggestion.as_str()),
            );
            parts::failure(Layer::Hostile, "npm-audit", f, duration_ms)
        },
    }
}

pub open spec fn audit_args() -> Seq<Seq<char>> {
    seq!["audit"@, "--json"@]
}

/// `r` is the result of one of the outcomes that running an audit can have.
pub open spec fn is_run<P: SubprocessRunner>(
    before: P,
    after: P,
    cmd: Seq<char>,
    cwd: Seq<char>,
    r: LayerResultV,
) -> bool {
    exists|o: Result<ProcessOutput, String>, ms: u64|
        #[trigger] before.answers(cmd, audit_args(), cwd, o, after) && r == #[trigger] reported(
            cmd,
            cwd,
            o,
            ms,
        )
}

impl NpmAuditRunner {
    /// Whether there is a lock file, in the package or at the root of its workspace, whose
    /// files `workspace` holds.
    pub fn is_available(&self, project: &ProjectInfo, files: &Files, workspace: &Files) -> (r: bool)
        ensures
            r == (project.language == Language::TypeScript && (locked(*files) || (
            project.workspace_root is Some && locked(*workspace)))),
    {
        if project.language != Language::TypeScript {
            return false;
        }
        has_lockfile(files) || (project.workspace_root.is_some() && has_lockfile(workspace))
    }

    /// Runs the audit where the lock file is: in the package, else at the root of its
    /// workspace, whose files `workspace` holds.
    pub fn run<P: SubprocessRunner>(
        &self,
        proc: &mut P,
        project: &ProjectInfo,
        files: &Files,
        workspace: &Files,
    ) -> (r: LayerResult)
        ensures
            is_run(
                *old(proc),
                *final(proc),
                audit_tool(
                    if at_workspace(*project, *files) {
                        *workspace
                    } else {
                        *files
                    },
                ),
                audit_root(*project, *files),
                r@,
            ),
    {
        let start = time::started();
        let own = has_lockfile(files);
        let cwd = match &project.workspace_root {
            Some(ws) => if own {
                project.root.as_str()
            } else {
                ws.as_str()
            },
            None => project.root.as_str(),
        };
        let cmd = if !own && project.workspace_root.is_some() {
            select_tool(workspace)
        } else {
            select_tool(files)
        };
        let args = vec!["audit".to_string(), "--json".to_string()];
        assert(text::views(args@) =~= audit_args());
        let outcome = proc.run(cmd, &args, cwd);
        let ms = time::elapsed_ms(&start);
        let r = report_npm_audit(cmd, cwd, &outcome, ms);
        assert(old(proc).answers(cmd@, audit_args(), cwd@, outcome, *proc));
        assert(r@ == reported(cmd@, cwd@, outcome, ms));
        r
    }
}

// ── laws ────────────────────────────────────────────────────────────────────

/// A vulnerability gives a finding of its own severity; moderate is medium, and what is
/// none of these is low.
pub proof fn law_vulnerabilities_keep_their_severity(pkg: Seq<char>, vuln: DataV)
    ensures
        vuln.text_at("severity"@) == Some("critical"@) ==> vuln_found(pkg, vuln).severity
            == Severity::Critical,
        vuln.text_at("severity"@) == Some("high"@) ==> vuln_found(pkg, vuln).severity
            == Severity::High,
        vuln.text_at("severity"@) == Some("moderate"@) ==> vuln_found(pkg, vuln).severity
            == Severity::Medium,
        vuln.text_at("severity"@) == Some("medium"@) ==> vuln_found(pkg, vuln).severity
            == Severity::Medium,
        vuln.text_at("severity"@) == Some("low"@) ==> vuln_found(pkg, vuln).severity
            == Severity::Low,
        vuln.text_at("severity"@) is None ==> vuln_found(pkg, vuln).severity == Severity::Low,
        vuln.text_at("severity"@) matches Some(s) && s != "critical"@ && s != "high"@ && s
            != "moderate"@ && s != "medium"@ ==> vuln_found(pkg, vuln).severity == Severity::Low,
{
    reveal_strlit("critical");
    reveal_strlit("high");
    reveal_strlit("moderate");
    reveal_strlit("medium");
    reveal_strlit("low");
    assert("low"@.len() != "critical"@.len());
    assert("high"@.len() != "critical"@.len() && "high"@.len() != "low"@.len());
    assert("moderate"@[0] != "critical"@[0]);
    assert("moderate"@.len() != "high"@.len() && "moderate"@.len() != "low"@.len());
    assert("medium"@.len() != "high"@.len() && "medium"@.len() != "low"@.len()
        && "medium"@.len() != "critical"@.len());
}

/// An audit reports every vulnerable package, in order; it fails with a critical one, else
/// is partial with a high or a moderate one, else passes. One that cannot be made fails.
pub proof fn law_audit_reports_each_package(
    cmd: Seq<char>,
    cwd: Seq<char>,
    out: ProcessOutput,
    ms: u64,
    k: int,
    vulns: Seq<(Seq<char>, DataV)>,
    i: int,
    e: String,
)
    requires
        0 <= k < parts::documents_in(out.both()).len(),
        parts::documents_in(out.both())[k].field("vulnerabilities"@) == Some(DataV::Fields(vulns)),
        forall|j: int|
            0 <= j < k ==> !((#[trigger] parts::documents_in(out.both())[j]).field(
                "vulnerabilities"@,
            ) matches Some(d) && d is Fields),
    ensures
        ({
            let r = reported(cmd, cwd, Ok(out), ms);
            &&& r.name == "hostile"@ && r.runner == "npm-audit"@ && r.duration_ms == ms
            &&& vulns.len() > 0 ==> r.findings.len() == vulns.len()
            &&& 0 <= i < vulns.len() ==> r.findings[i].severity == vuln_found(
                vulns[i].0,
                vulns[i].1,
            ).severity && r.findings[i].code == vuln_found(vulns[i].0, vulns[i].1).code
                && r.findings[i].message == vuln_found(vulns[i].0, vulns[i].1).message
            &&& 0 <= i < vulns.len() && r.findings[i].severity == Severity::Critical ==> r.status
                == LayerStatus::Fail
            &&& 0 <= i < vulns.len() && (r.findings[i].severity == Severity::High
                || r.findings[i].severity == Severity::Medium) ==> r.status != LayerStatus::Pass
            &&& (forall|j: int|
                0 <= j < vulns.len() ==> (#[trigger] r.findings[j]).severity == Severity::Low)
                ==> r.status == LayerStatus::Pass
            &&& (forall|j: int|
                0 <= j < vulns.len() ==> (#[trigger] r.findings[j]).severity != Severity::Critical)
                ==> r.status != LayerStatus::Fail
            &&& vulns.len() == 0 ==> r.findings.len() == 1 && r.findings[0].severity
                == Severity::Info && r.status == LayerStatus::Pass
        }),
        ({
            let r = reported(cmd, cwd, Err(e), ms);
            &&& r.status == LayerStatus::Fail && r.findings.len() == 1 && r.findings[0].severity
                == Severity::Critical && r.metrics.failed == 1 && r.runner == "npm-audit"@
        }),
{
    let docs = parts::documents_in(out.both());
    let f = |d: DataV| npm_report(d);
    assert forall|j: int| 0 <= j < k implies f(#[trigger] docs[j]) is None by {
        assert(!(docs[j].field("vulnerabilities"@) matches Some(d) && d is Fields));
    }
    parts::law_first_report_counts(docs, f, k);
    assert(npm_findings(docs) == vulns_found(vulns));
    let v = all_corrected(vulns_found(vulns), cmd, cwd);
    let r = reported(cmd, cwd, Ok(out), ms);
    assert(r.status == parts::scan_status(v));
    assert(v.len() == vulns.len());
    parts::law_worst_finding_decides(v, i);
    if vulns.len() > 0 {
        assert(r.findings == v);
    }
    if r.status == LayerStatus::Fail {
        let j = choose|j: int| 0 <= j < v.len() && (#[trigger] v[j]).severity == Severity::Critical;
        assert(r.findings[j].severity == Severity::Critical);
    }
    if r.status == LayerStatus::Partial {
        let j = choose|j: int|
            0 <= j < v.len() && ((#[trigger] v[j]).severity == Severity::High || v[j].severity
                == Severity::Medium);
        assert(r.findings[j].severity != Severity::Low);
    }
}

/// The package manager whose lockfile is there does the audit: pnpm, then yarn, else npm.
pub proof fn law_lockfile_decides_the_tool(files: Files)
    ensures
        files.has("pnpm-lock.yaml"@) ==> audit_tool(files) == "pnpm"@,
        !files.has("pnpm-lock.yaml"@) && files.has("yarn.lock"@) ==> audit_tool(files) == "yarn"@,
        !files.has("pnpm-lock.yaml"@) && !files.has("yarn.lock"@) ==> audit_tool(files) == "npm"@,
        locked(files) <==> files.has("package-lock.json"@) || files.has("pnpm-lock.yaml"@)
            || files.has("yarn.lock"@),
{
}

/// An audit is made in the project where it has a lockfile of its own, else in the
/// workspace.
pub proof fn law_audit_is_made_at_the_lockfile(project: ProjectInfo, files: Files)
    ensures
        locked(files) ==> audit_root(project, files) == project.root@,
        !locked(files) ==> audit_root(project, files) == (match project.workspace_root {
            Some(ws) => ws@,
            None => project.root@,
        }),
{
}

/// How the tool is called.
pub proof fn law_arguments_of_the_tool()
    ensures
        audit_args() == seq!["audit"@, "--json"@],
{
}

/// What is said where nothing was found.
pub proof fn law_what_a_clean_run_says()
    ensures
        passed().severity == Severity::Info,
        passed().code == "NPM_AUDIT_PASSED"@,
        passed().message == "No known vulnerabilities in npm dependencies"@,
{
}

/// What is said where the tool cannot be run.
pub proof fn law_what_a_failed_start_says(cmd: Seq<char>, cwd: Seq<char>, e: String, ms: u64)
    ensures
        ({
            let r = reported(cmd, cwd, Err(e), ms);
            &&& r.runner == "npm-audit"@ && r.status == LayerStatus::Fail && r.findings.len() == 1
            &&& r.findings[0].severity == Severity::Critical
            &&& r.findings[0].code == "NPM_AUDIT_FAILED"@
            &&& r.findings[0].message == "Failed to run "@ + cmd + " audit: "@ + e@
            &&& r.findings[0].suggestion == Some(
                "Ensure "@ + cmd + " is installed and `"@ + cmd + " install` has been run."@,
            )
        }),
{
}

/// How an audit is made again: in the directory of the project, for one package or for all.
pub proof fn law_how_an_audit_is_repeated(cmd: Seq<char>, cwd: Seq<char>, pkg: Seq<char>)
    ensures
        audit_command(cmd, cwd, Seq::empty()) == "cd "@ + operational_command::quoted(cwd) + " && "@
            + cmd + " audit --json 2>&1"@,
        pkg.len() > 0 ==> audit_command(cmd, cwd, pkg) == "cd "@ + operational_command::quoted(cwd)
            + " && "@ + cmd + " audit --json 2>&1"@ + " | jq '.vulnerabilities.\""@ + pkg + "\"'"@,
{
}

/// What is said of a package with a vulnerability.
pub proof fn law_what_a_vulnerability_says(pkg: Seq<char>, vuln: DataV)
    ensures
        vuln_found(pkg, vuln).code == "NPM_VULN_"@ + text::replaced(
            text::uppercase(pkg),
            '-',
            "_"@,
        ),
        vuln_found(pkg, vuln).message == "Vulnerability in `"@ + pkg + "` ("@ + vuln.text_or(
            "severity"@,
            "low"@,
        ) + ")"@,
        vuln.field("fixAvailable"@) == Some(DataV::Bool(true)) ==> vuln_found(pkg, vuln).suggestion
            == Some(FIX_HINT@),
        vuln.field("fixAvailable"@) is None || vuln.field("fixAvailable"@) == Some(
            DataV::Bool(false),
        ) ==> vuln_found(pkg, vuln).suggestion == Some(NO_FIX_HINT@),
        vuln_found(pkg, vuln).reproduce_cmd == Some(
            "npm audit --json 2>&1 | jq '.vulnerabilities.\""@ + pkg + "\"'"@,
        ),
{
}

/// A result belongs to the layer and the runner that it is of, whatever came out.
pub proof fn law_where_results_belong(cmd: Seq<char>, cwd: Seq<char>, outcome: Result<ProcessOutput, String>, duration_ms: u64)
    ensures
        reported(cmd, cwd, outcome, duration_ms).name == "hostile"@,
        reported(cmd, cwd, outcome, duration_ms).runner == "npm-audit"@,
        reported(cmd, cwd, outcome, duration_ms).duration_ms == duration_ms,
{
}

} // verus!
