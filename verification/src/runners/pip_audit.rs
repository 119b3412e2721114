//! pip-audit: known vulnerabilities of Python dependencies.
use vstd::prelude::*;

use crate::data;
use crate::data::{Data, DataV};
use crate::detect::{Language, ProjectInfo};
use crate::files::Files;
use crate::plugin::{Layer, TestRunner};
use crate::process;
use crate::process::{ProcessOutput, SubprocessRunner};
use crate::report;
use crate::report::{Finding, FindingV, LayerMetrics, LayerResult, LayerResultV, LayerStatus, Severity};
use crate::runners::parts;
use crate::runners::python_venv;
use crate::text;
use crate::time;

verus! {

#[derive(Debug, Default)]
pub struct PipAuditRunner;

pub const SKIP: &'static str = "pip-audit not installed — run `pip install pip-audit` to scan Python dependencies for CVEs";

pub const UPDATE_HINT: &'static str = "Keep dependencies updated: `pip list --outdated`";

pub const INSTALL_HINT: &'static str = "Install: `pip install pip-audit` or `uv add --dev pip-audit`";

impl TestRunner for PipAuditRunner {
    fn name(&self) -> (r: &'static str)
        ensures
            r@ == "pip-audit"@,
    {
        "pip-audit"
    }

    fn layer(&self) -> (r: Layer)
        ensures
            r == Layer::Hostile,
    {
        Layer::Hostile
    }

    fn skip_message(&self) -> (r: &'static str)
        ensures
            r@ == SKIP@,
    {
        SKIP
    }
}

// ── vulnerabilities ─────────────────────────────────────────────────────────

/// The versions in which a vulnerability is fixed.
pub open spec fn fixes_of(vuln: DataV) -> Seq<Seq<char>> {
    match vuln.list_at("fix_versions"@) {
        Some(l) => data::texts_from(l),
        None => Seq::empty(),
    }
}

/// The finding for a vulnerability of a package.
pub open spec fn vuln_found(pkg: Seq<char>, version: Seq<char>, vuln: DataV) -> FindingV {
    let id = vuln.text_or("id"@, "UNKNOWN"@);
    let fixes = fixes_of(vuln);
    parts::found(
        Severity::High,
        "CVE_"@ + text::replaced(id, '-', "_"@),
        id + " "@ + pkg + "@"@ + version + ": "@ + vuln.text_or(
            "description"@,
            "Vulnerability detected"@,
        ),
        Some(
            "pip-audit --format=json 2>&1 | jq '.dependencies[] | select(.name==\""@ + pkg
                + "\")'"@,
        ),
        Some(
            if fixes.len() == 0 {
                "No fix available yet for `"@ + pkg + "`. Monitor for updates."@
            } else {
                "Upgrade `"@ + pkg + "` to "@ + fixes[0] + " or later: `pip install "@ + pkg
                    + "=="@ + fixes[0] + "`"@
            },
        ),
    )
}

pub open spec fn vulns_found(pkg: Seq<char>, version: Seq<char>, vulns: Seq<DataV>) -> Seq<FindingV>
    decreases vulns.len(),
{
    if vulns.len() == 0 {
        Seq::empty()
    } else {
        vulns_found(pkg, version, vulns.drop_last()).push(vuln_found(pkg, version, vulns.last()))
    }
}

/// The findings for a dependency.
pub open spec fn dependency_found(dep: DataV) -> Seq<FindingV> {
    match dep.list_at("vulns"@) {
        Some(vulns) => vulns_found(
            dep.text_or("name"@, "unknown"@),
            dep.text_or("version"@, "?"@),
            vulns,
        ),
        None => Seq::empty(),
    }
}

pub open spec fn dependencies_found(deps: Seq<DataV>) -> Seq<FindingV>
    decreases deps.len(),
{
    if deps.len() == 0 {
        Seq::empty()
    } else {
        dependencies_found(deps.drop_last()) + dependency_found(deps.last())
    }
}

/// The findings in a report, if the document is one.
pub open spec fn pip_report(doc: DataV) -> Option<Seq<FindingV>> {
    match doc.list_at("dependencies"@) {
        Some(deps) => Some(dependencies_found(deps)),
        None => None,
    }
}

fn read_fixes(vuln: &Data) -> (r: Vec<String>)
    ensures
        text::views(r@) == fixes_of(vuln@),
{
    match vuln.get_array("fix_versions") {
        Some(l) => data::strings(l),
        None => {
            let r: Vec<String> = Vec::new();
            assert(text::views(r@) =~= Seq::<Seq<char>>::empty());
            r
        },
    }
}

fn read_vuln(pkg: &str, version: &str, vuln: &Data) -> (r: Finding)
    ensures
        r@ == vuln_found(pkg@, version@, vuln@),
{
    let id = vuln.str_or("id", "UNKNOWN");
    let description = vuln.str_or("description", "Vulnerability detected");
    let fixes = read_fixes(vuln);
    let code = text::cat("CVE_", text::replace(id.as_str(), '-', "_").as_str());
    let head = text::cat5(id.as_str(), " ", pkg, "@", version);
    let message = text::cat3(head.as_str(), ": ", description.as_str());
    let cmd = text::cat3(
        "pip-audit --format=json 2>&1 | jq '.dependencies[] | select(.name==\"",
        pkg,
        "\")'",
    );
    assert(text::views(fixes@).len() == fixes@.len());
    let suggestion = if fixes.len() == 0 {
        text::cat3("No fix available yet for `", pkg, "`. Monitor for updates.")
    } else {
        assert(text::views(fixes@)[0] == fixes@[0]@);
        let fix = fixes[0].as_str();
        let head = text::cat5("Upgrade `", pkg, "` to ", fix, " or later: `pip install ");
        text::cat5(head.as_str(), pkg, "==", fix, "`")
    };
    parts::finding(
        Severity::High,
        code.as_str(),
        message.as_str(),
        Some(cmd.as_str()),
        Some(suggestion.as_str()),
    )
}

fn read_dependency(dep: &Data) -> (r: Vec<Finding>)
    ensures
        report::findings_view(r@) == dependency_found(dep@),
{
    let pkg = dep.str_or("name", "unknown");
    let version = dep.str_or("version", "?");
    let mut r = parts::nothing();
    let vulns = match dep.get_array("vulns") {
        Some(v) => v,
        None => {
            return r;
        },
    };
    let ghost all = data::trees(vulns@);
    let mut i: usize = 0;
    assert(all.subrange(0, 0) =~= Seq::<DataV>::empty());
    while i < vulns.len()
        invariant
            i <= vulns@.len(),
            all == data::trees(vulns@),
            report::findings_view(r@) == vulns_found(pkg@, version@, all.subrange(0, i as int)),
        decreases vulns@.len() - i,
    {
        proof {
            let next = all.subrange(0, i + 1);
            assert(next.drop_last() =~= all.subrange(0, i as int));
            assert(next.last() == vulns@[i as int]@);
        }
        parts::push_finding(&mut r, read_vuln(pkg.as_str(), version.as_str(), &vulns[i]));
        i += 1;
    }
    assert(all.subrange(0, i as int) =~= all);
    r
}

/// The findings in a report, if the document is one.
pub fn extract_pip_findings(doc: &Data) -> (r: Option<Vec<Finding>>)
    ensures
        match r {
            Some(v) => pip_report(doc@) == Some(report::findings_view(v@)),
            None => pip_report(doc@) is None,
        },
{
    let deps = match doc.get_array("dependencies") {
        Some(v) => v,
        None => {
            return None;
        },
    };
    let ghost all = data::trees(deps@);
    let mut r = parts::nothing();
    let mut i: usize = 0;
    assert(all.subrange(0, 0) =~= Seq::<DataV>::empty());
    while i < deps.len()
        invariant
            i <= deps@.len(),
            all == data::trees(deps@),
            report::findings_view(r@) == dependencies_found(all.subrange(0, i as int)),
        decreases deps@.len() - i,
    {
        proof {
            let next = all.subrange(0, i + 1);
            assert(next.drop_last() =~= all.subrange(0, i as int));
            assert(next.last() == deps@[i as int]@);
        }
        parts::append_findings(&mut r, read_dependency(&deps[i]));
        i += 1;
    }
    assert(all.subrange(0, i as int) =~= all);
    Some(r)
}

/// The findings in a report that has some.
pub open spec fn some_report(doc: DataV) -> Option<Seq<FindingV>> {
    match pip_report(doc) {
        Some(v) => if v.len() > 0 {
            Some(v)
        } else {
            None
        },
        None => None,
    }
}

/// The findings in the first report that has some.
pub open spec fn pip_findings(docs: Seq<DataV>) -> Seq<FindingV> {
    parts::first_report(docs, |d: DataV| some_report(d), 0)
}

pub fn find_pip_report(docs: &Vec<Data>) -> (r: Vec<Finding>)
    ensures
        report::findings_view(r@) == pip_findings(data::trees(docs@)),
{
    let ghost all = data::trees(docs@);
    let ghost f = |d: DataV| some_report(d);
    let mut i: usize = 0;
    while i < docs.len()
        invariant
            i <= docs@.len(),
            all == data::trees(docs@),
            f == (|d: DataV| some_report(d)),
            parts::first_report(all, f, i as int) == pip_findings(all),
        decreases docs@.len() - i,
    {
        assert(all[i as int] == docs@[i as int]@);
        match extract_pip_findings(&docs[i]) {
            Some(v) => {
                assert(report::findings_view(v@).len() == v@.len());
                if v.len() > 0 {
                    return v;
                }
            },
            None => {},
        }
        i += 1;
    }
    parts::nothing()
}

/// The findings in the output of `pip-audit --format=json`.
pub fn parse_pip_audit_json(output: &str) -> (r: Vec<Finding>)
    ensures
        report::findings_view(r@) == pip_findings(parts::documents_in(output@)),
{
    let docs = parts::documents(output);
    find_pip_report(&docs)
}

// ── the result ──────────────────────────────────────────────────────────────

pub open spec fn passed() -> FindingV {
    parts::found(
        Severity::Info,
        "PIP_AUDIT_PASSED"@,
        "No known vulnerabilities in Python dependencies"@,
        None,
        Some(UPDATE_HINT@),
    )
}

/// The result of an audit with findings.
pub open spec fn audited(findings: Seq<FindingV>, duration_ms: u64) -> LayerResultV {
    parts::result_of(
        Layer::Hostile,
        "pip-audit"@,
        parts::audit_status(findings),
        parts::or_passed(findings, passed()),
        report::no_metrics(),
        duration_ms,
    )
}

/// The result of running pip-audit as `cmd`.
pub open spec fn reported(
    cmd: Seq<char>,
    outcome: Result<ProcessOutput, String>,
    duration_ms: u64,
) -> LayerResultV {
    match outcome {
        Ok(out) => audited(pip_findings(parts::documents_in(out.both())), duration_ms),
        Err(e) => parts::failure_of(
            Layer::Hostile,
            "pip-audit"@,
            parts::found(
                Severity::Critical,
                "PIP_AUDIT_FAILED"@,
                "Failed to run pip-audit: "@ + e@,
                Some(cmd + " --format=json 2>&1"@),
                Some(INSTALL_HINT@),
            ),
            duration_ms,
        ),
    }
}

/// The result of running pip-audit as `cmd`.
pub fn report_pip_audit(cmd: &str, outcome: &Result<ProcessOutput, String>, duration_ms: u64) -> (r:
    LayerResult)
    ensures
        r@ == reported(cmd@, *outcome, duration_ms),
{
    match outcome {
        Ok(out) => {
            let findings = parse_pip_audit_json(out.combined().as_str());
            let status = parts::status_of_audit(&findings);
            let findings = parts::or_else(
                findings,
                parts::finding(
                    Severity::Info,
                    "PIP_AUDIT_PASSED",
                    "No known vulnerabilities in Python dependencies",
                    None,
                    Some(UPDATE_HINT),
                ),
            );
            parts::layer_result(
                Layer::Hostile,
                "pip-audit",
                status,
                findings,
                LayerMetrics::none(),
                duration_ms,
            )
        },
        Err(e) => {
            let message = text::cat("Failed to run pip-audit: ", e.as_str());
            let again = text::cat(cmd, " --format=json 2>&1");
            let f = parts::finding(
                Severity::Critical,
                "PIP_AUDIT_FAILED",
                message.as_str(),
                Some(again.as_str()),
                Some(INSTALL_HINT),
            );
            parts::failure(Layer::Hostile, "pip-audit", f, duration_ms)
        },
    }
}

pub open spec fn audit_args() -> Seq<Seq<char>> {
    seq!["--format=json"@, "--progress-spinner=off"@]
}

/// `r` is the result of one of the outcomes that running `cmd` in `root` can have.
pub open spec fn is_run<P: SubprocessRunner>(
    before: P,
    after: P,
    cmd: Seq<char>,
    root: Seq<char>,
    r: LayerResultV,
) -> bool {
    exists|o: Result<ProcessOutput, String>, ms: u64|
        #[trigger] before.answers(cmd, audit_args(), root, o, after) && r == #[trigger] reported(cmd, o, ms)
}

impl PipAuditRunner {
    pub fn is_available<P: SubprocessRunner>(
        &self,
        proc: &mut P,
        project: &ProjectInfo,
        files: &Files,
    ) -> (r: bool)
        ensures
            if project.language != Language::Python {
                !r && *final(proc) == *old(proc)
            } else if files.has(".venv/bin/"@ + "pip-audit"@) {
                r && *final(proc) == *old(proc)
            } else {
                process::is_probed(*old(proc), "pip-audit"@, seq!["--version"@], r, *final(proc))
            },
    {
        if project.language != Language::Python {
            return false;
        }
        if python_venv::has_local_tool(files, "pip-audit") {
            return true;
        }
        let args = vec!["--version".to_string()];
        assert(text::views(args@) =~= seq!["--version"@]);
        proc.is_available("pip-audit", &args)
    }

    pub fn run<P: SubprocessRunner>(&self, proc: &mut P, project: &ProjectInfo, files: &Files) -> (r: LayerResult)
        ensures
            is_run(
                *old(proc),
                *final(proc),
                python_venv::tool_command(*files, project.root@, "pip-audit"@),
                project.root@,
                r@,
            ),
    {
        let start = time::started();
        let cmd = python_venv::local_tool(files, project.root.as_str(), "pip-audit");
        let args = vec!["--format=json".to_string(), "--progress-spinner=off".to_string()];
        assert(text::views(args@) =~= audit_args());
        let outcome = proc.run(cmd.as_str(), &args, project.root.as_str());
        let ms = time::elapsed_ms(&start);
        let r = report_pip_audit(cmd.as_str(), &outcome, ms);
        assert(old(proc).answers(cmd@, audit_args(), project.root@, outcome, *proc));
        assert(r@ == reported(cmd@, outcome, ms));
        r
    }
}

// ── laws ────────────────────────────────────────────────────────────────────

/// Every vulnerability of every dependency gives a high finding, in order.
pub proof fn law_each_vulnerability_is_reported(
    deps: Seq<DataV>,
    dep: DataV,
    vulns: Seq<DataV>,
    i: int,
)
    ensures
        dependencies_found(Seq::empty()) == Seq::<FindingV>::empty(),
        dep.list_at("vulns"@) is None ==> dependencies_found(deps.push(dep)) == dependencies_found(
            deps,
        ),
        dep.list_at("vulns"@) == Some(vulns) ==> dependencies_found(deps.push(dep)).len()
            == dependencies_found(deps).len() + vulns.len() && dependencies_found(
            deps.push(dep),
        ).subrange(0, dependencies_found(deps).len() as int) == dependencies_found(deps),
        dep.list_at("vulns"@) == Some(vulns) && 0 <= i < vulns.len() ==> dependencies_found(
            deps.push(dep),
        )[dependencies_found(deps).len() + i] == vuln_found(
            dep.text_or("name"@, "unknown"@),
            dep.text_or("version"@, "?"@),
            vulns[i],
        ),
        0 <= i < vulns.len() ==> vuln_found(
            dep.text_or("name"@, "unknown"@),
            dep.text_or("version"@, "?"@),
            vulns[i],
        ).severity == Severity::High,
{
    assert(deps.push(dep).drop_last() =~= deps);
    let front = dependencies_found(deps);
    let all = dependencies_found(deps.push(dep));
    match dep.list_at("vulns"@) {
        Some(own) => {
            lemma_vulns(dep.text_or("name"@, "unknown"@), dep.text_or("version"@, "?"@), own);
            assert(all.subrange(0, front.len() as int) =~= front);
        },
        None => {
            assert(front + Seq::<FindingV>::empty() =~= front);
        },
    }
}

proof fn lemma_vulns(pkg: Seq<char>, version: Seq<char>, vulns: Seq<DataV>)
    ensures
        vulns_found(pkg, version, vulns).len() == vulns.len(),
        forall|i: int|
            0 <= i < vulns.len() ==> #[trigger] vulns_found(pkg, version, vulns)[i] == vuln_found(
                pkg,
                version,
                vulns[i],
            ),
    decreases vulns.len(),
{
    if vulns.len() > 0 {
        lemma_vulns(pkg, version, vulns.drop_last());
    }
}

/// The finding names the vulnerability, the package and its version, and the first version
/// that is fixed.
pub proof fn law_finding_names_the_fix(
    pkg: Seq<char>,
    version: Seq<char>,
    vuln: DataV,
    id: Seq<char>,
    what: Seq<char>,
)
    requires
        vuln.text_at("id"@) == Some(id),
        vuln.text_at("description"@) == Some(what),
    ensures
        vuln_found(pkg, version, vuln).message == id + " "@ + pkg + "@"@ + version + ": "@ + what,
        vuln_found(pkg, version, vuln).code == "CVE_"@ + text::replaced(id, '-', "_"@),
        fixes_of(vuln).len() > 0 ==> vuln_found(pkg, version, vuln).suggestion == Some(
            "Upgrade `"@ + pkg + "` to "@ + fixes_of(vuln)[0] + " or later: `pip install "@ + pkg
                + "=="@ + fixes_of(vuln)[0] + "`"@,
        ),
        vuln.list_at("fix_versions"@) matches Some(l) ==> fixes_of(vuln) == data::texts_from(l),
{
}

/// An audit with any vulnerability fails, one without any passes; one that cannot be made
/// fails. The first document that lists a vulnerable dependency counts.
pub proof fn law_any_vulnerability_fails(
    cmd: Seq<char>,
    out: ProcessOutput,
    ms: u64,
    k: int,
    deps: Seq<DataV>,
    e: String,
)
    requires
        0 <= k < parts::documents_in(out.both()).len(),
        parts::documents_in(out.both())[k].list_at("dependencies"@) == Some(deps),
        forall|j: int|
            0 <= j < k ==> (#[trigger] parts::documents_in(out.both())[j]).list_at(
                "dependencies"@,
            ) is None,
        dependencies_found(deps).len() > 0,
    ensures
        ({
            let r = reported(cmd, Ok(out), ms);
            &&& r.name == "hostile"@ && r.runner == "pip-audit"@ && r.duration_ms == ms
            &&& r.findings == dependencies_found(deps)
            &&& r.status == LayerStatus::Fail
        }),
        ({
            let r = reported(cmd, Err(e), ms);
            &&& r.status == LayerStatus::Fail && r.findings.len() == 1 && r.findings[0].severity
                == Severity::Critical && r.metrics.failed == 1 && r.runner == "pip-audit"@
        }),
{
    let docs = parts::documents_in(out.both());
    let f = |d: DataV| some_report(d);
    assert forall|j: int| 0 <= j < k implies f(#[trigger] docs[j]) is None by {
        assert(docs[j].list_at("dependencies"@) is None);
    }
    parts::law_first_report_counts(docs, f, k);
    let v = dependencies_found(deps);
    assert(pip_findings(docs) == v);
    lemma_all_high(deps);
    parts::law_worst_finding_decides(v, 0);
}

/// An audit whose documents list no vulnerability passes, with one finding that says so.
pub proof fn law_no_vulnerability_passes(cmd: Seq<char>, out: ProcessOutput, ms: u64)
    requires
        forall|j: int|
            0 <= j < parts::documents_in(out.both()).len() ==> ((
            #[trigger] parts::documents_in(out.both())[j]).list_at("dependencies"@) matches Some(
                deps,
            ) ==> dependencies_found(deps).len() == 0),
    ensures
        reported(cmd, Ok(out), ms).status == LayerStatus::Pass,
        reported(cmd, Ok(out), ms).findings.len() == 1,
        reported(cmd, Ok(out), ms).findings[0].severity == Severity::Info,
{
    let docs = parts::documents_in(out.both());
    let f = |d: DataV| some_report(d);
    assert forall|j: int| 0 <= j < docs.len() implies f(#[trigger] docs[j]) is None by {
        assert(docs[j].list_at("dependencies"@) matches Some(deps) ==> dependencies_found(
            deps,
        ).len() == 0);
    }
    parts::law_first_report_counts(docs, f, 0);
    parts::law_worst_finding_decides(Seq::empty(), 0);
}

proof fn lemma_all_high(deps: Seq<DataV>)
    ensures
        forall|i: int|
            0 <= i < dependencies_found(deps).len() ==> (#[trigger] dependencies_found(
                deps,
            )[i]).severity == Severity::High,
    decreases deps.len(),
{
    if deps.len() > 0 {
        lemma_all_high(deps.drop_last());
        match deps.last().list_at("vulns"@) {
            Some(vulns) => {
                lemma_vulns(
                    deps.last().text_or("name"@, "unknown"@),
                    deps.last().text_or("version"@, "?"@),
                    vulns,
                );
            },
            None => {},
        }
    }
}

/// How the tool is called.
pub proof fn law_arguments_of_the_tool()
    ensures
        audit_args() == seq!["--format=json"@, "--progress-spinner=off"@],
{
}

/// What is said where nothing was found.
pub proof fn law_what_a_clean_run_says()
    ensures
        passed().severity == Severity::Info,
        passed().code == "PIP_AUDIT_PASSED"@,
        passed().message == "No known vulnerabilities in Python dependencies"@,
{
}

/// What is said where the tool cannot be run.
pub proof fn law_what_a_failed_start_says(cmd: Seq<char>, e: String, ms: u64)
    ensures
        ({
            let r = reported(cmd, Err(e), ms);
            &&& r.runner == "pip-audit"@ && r.status == LayerStatus::Fail && r.findings.len() == 1
            &&& r.findings[0].severity == Severity::Critical
            &&& r.findings[0].code == "PIP_AUDIT_FAILED"@
            &&& r.findings[0].message == "Failed to run pip-audit: "@ + e@
            &&& r.findings[0].reproduce_cmd == Some(cmd + " --format=json 2>&1"@)
        }),
{
}

/// What is said of a package with a vulnerability.
pub proof fn law_what_a_vulnerability_says(pkg: Seq<char>, version: Seq<char>, vuln: DataV)
    ensures
        vuln.text_at("id"@) is None ==> vuln_found(pkg, version, vuln).code == "CVE_"@
            + text::replaced("UNKNOWN"@, '-', "_"@),
        vuln.text_at("id"@) matches Some(id) ==> vuln_found(pkg, version, vuln).code == "CVE_"@
            + text::replaced(id, '-', "_"@) && (vuln.text_at("description"@) is None ==> vuln_found(
            pkg,
            version,
            vuln,
        ).message == id + " "@ + pkg + "@"@ + version + ": "@ + "Vulnerability detected"@),
        vuln_found(pkg, version, vuln).reproduce_cmd == Some(
            "pip-audit --format=json 2>&1 | jq '.dependencies[] | select(.name==\""@ + pkg
                + "\")'"@,
        ),
        fixes_of(vuln).len() == 0 ==> vuln_found(pkg, version, vuln).suggestion == Some(
            "No fix available yet for `"@ + pkg + "`. Monitor for updates."@,
        ),
{
}

/// A result belongs to the layer and the runner that it is of, whatever came out.
pub proof fn law_where_results_belong(cmd: Seq<char>, outcome: Result<ProcessOutput, String>, duration_ms: u64)
    ensures
        reported(cmd, outcome, duration_ms).name == "hostile"@,
        reported(cmd, outcome, duration_ms).runner == "pip-audit"@,
        reported(cmd, outcome, duration_ms).duration_ms == duration_ms,
{
}

} // verus!
