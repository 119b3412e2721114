//! cargo-audit: known vulnerabilities of Rust dependencies.
use vstd::prelude::*;

use crate::data;
use crate::data::{Data, DataV};
use crate::detect::{Language, ProjectInfo};
use crate::files::Files;
use crate::plugin::{Layer, TestRunner};
use crate::process;
use crate::process::{ProcessOutput, SubprocessRunner};
use crate::report;
use crate::report::{Finding, FindingV, LayerMetrics, LayerResult, LayerResultV, LayerStatus, Severity};
use crate::runners::parts;
use crate::text;
use crate::time;

verus! {

#[derive(Debug, Default)]
pub struct CargoAuditRunner;

pub const SKIP: &'static str = "cargo-audit not installed — run `cargo install cargo-audit` to scan Rust dependencies for CVEs";

pub const UPDATE_HINT: &'static str = "Keep dependencies updated: `cargo update` and review with `cargo outdated`";

impl TestRunner for CargoAuditRunner {
    fn name(&self) -> (r: &'static str)
        ensures
            r@ == "cargo-audit"@,
    {
        "cargo-audit"
    }

    fn layer(&self) -> (r: Layer)
        ensures
            r == Layer::Hostile,
    {
        Layer::Hostile
    }

    fn skip_message(&self) -> (r: &'static str)
        ensures
            r@ == SKIP@,
    {
        SKIP
    }
}

// ── advisories ──────────────────────────────────────────────────────────────

pub open spec fn advisory_severity(s: Seq<char>) -> Severity {
    if s == "critical"@ {
        Severity::Critical
    } else if s == "high"@ {
        Severity::High
    } else if s == "medium"@ || s == "moderate"@ {
        Severity::Medium
    } else {
        Severity::Low
    }
}

pub fn severity_of(s: &str) -> (r: Severity)
    ensures
        r == advisory_severity(s@),
{
    if text::same(s, "critical") {
        Severity::Critical
    } else if text::same(s, "high") {
        Severity::High
    } else if text::same(s, "medium") || text::same(s, "moderate") {
        Severity::Medium
    } else {
        Severity::Low
    }
}

/// The first version in which an advisory is patched.
pub open spec fn patched_in(advisory: DataV) -> Option<Seq<char>> {
    match advisory.list_at("patched_versions"@) {
        Some(l) => if l.len() > 0 {
            l[0].as_text()
        } else {
            None
        },
        None => None,
    }
}

fn read_patched(advisory: &Data) -> (r: Option<String>)
    ensures
        text::opt_view(r) == patched_in(advisory@),
{
    match advisory.get_array("patched_versions") {
        Some(l) => {
            assert(data::trees(l@).len() == l@.len());
            if l.len() > 0 {
                assert(data::trees(l@)[0] == l@[0]@);
                match l[0].as_str() {
                    Some(s) => Some(s.to_string()),
                    None => None,
                }
            } else {
                None
            }
        },
        None => None,
    }
}

/// The finding for an advisory on a package.
pub open spec fn advisory_found(advisory: DataV, pkg: DataV) -> FindingV {
    let id = advisory.text_or("id"@, "UNKNOWN"@);
    let name = pkg.text_or("name"@, "unknown"@);
    parts::found(
        advisory_severity(advisory.text_or("severity"@, "medium"@)),
        "RUSTSEC_"@ + text::replaced(id, '-', "_"@),
        id + ": "@ + advisory.text_or("title"@, "Vulnerability"@) + " ("@ + name + "@"@
            + pkg.text_or("version"@, "?"@) + ")"@,
        Some("cargo audit 2>&1 | grep -A 10 '"@ + id + "'"@),
        Some(
            match patched_in(advisory) {
                Some(v) => "Upgrade `"@ + name + "` to "@ + v + " in Cargo.toml"@,
                None => "No patch available for `"@ + name
                    + "` yet. Consider replacing or pinning to a safe version."@,
            },
        ),
    )
}

/// The findings of a list of vulnerabilities; one without advisory or package is left out.
pub open spec fn advisories_found(list: Seq<DataV>) -> Seq<FindingV>
    decreases list.len(),
{
    if list.len() == 0 {
        Seq::empty()
    } else {
        let front = advisories_found(list.drop_last());
        match (list.last().field("advisory"@), list.last().field("package"@)) {
            (Some(advisory), Some(pkg)) => front.push(advisory_found(advisory, pkg)),
            _ => front,
        }
    }
}

/// The findings in a report, if the document is one.
pub open spec fn cargo_report(doc: DataV) -> Option<Seq<FindingV>> {
    match doc.field("vulnerabilities"@) {
        Some(v) => match v.list_at("list"@) {
            Some(list) => Some(advisories_found(list)),
            None => None,
        },
        None => None,
    }
}

fn read_advisory(advisory: &Data, pkg: &Data) -> (r: Finding)
    ensures
        r@ == advisory_found(advisory@, pkg@),
{
    let id = advisory.str_or("id", "UNKNOWN");
    let title = advisory.str_or("title", "Vulnerability");
    let level = advisory.str_or("severity", "medium");
    let name = pkg.str_or("name", "unknown");
    let version = pkg.str_or("version", "?");
    let code = text::cat("RUSTSEC_", text::replace(id.as_str(), '-', "_").as_str());
    let head = text::cat5(id.as_str(), ": ", title.as_str(), " (", name.as_str());
    let message = text::cat4(head.as_str(), "@", version.as_str(), ")");
    let cmd = text::cat3("cargo audit 2>&1 | grep -A 10 '", id.as_str(), "'");
    let suggestion = match read_patched(advisory) {
        Some(v) => text::cat5("Upgrade `", name.as_str(), "` to ", v.as_str(), " in Cargo.toml"),
        None => text::cat3(
            "No patch available for `",
            name.as_str(),
            "` yet. Consider replacing or pinning to a safe version.",
        ),
    };
    parts::finding(
        severity_of(level.as_str()),
        code.as_str(),
        message.as_str(),
        Some(cmd.as_str()),
        Some(suggestion.as_str()),
    )
}

/// The findings in a report, if the document is one.
pub fn extract_cargo_findings(doc: &Data) -> (r: Option<Vec<Finding>>)
    ensures
        match r {
            Some(v) => cargo_report(doc@) == Some(report::findings_view(v@)),
            None => cargo_report(doc@) is None,
        },
{
    let list = match doc.get("vulnerabilities") {
        Some(v) => match v.get_array("list") {
            Some(list) => list,
            None => {
                return None;
            },
        },
        None => {
            return None;
        },
    };
    let ghost all = data::trees(list@);
    let mut r = parts::nothing();
    let mut i: usize = 0;
    assert(all.subrange(0, 0) =~= Seq::<DataV>::empty());
    while i < list.len()
        invariant
            i <= list@.len(),
            all == data::trees(list@),
            report::findings_view(r@) == advisories_found(all.subrange(0, i as int)),
        decreases list@.len() - i,
    {
        proof {
            let next = all.subrange(0, i + 1);
            assert(next.drop_last() =~= all.subrange(0, i as int));
            assert(next.last() == list@[i as int]@);
        }
        match (list[i].get("advisory"), list[i].get("package")) {
            (Some(advisory), Some(pkg)) => {
                parts::push_finding(&mut r, read_advisory(advisory, pkg));
            },
            _ => {},
        }
        i += 1;
    }
    assert(all.subrange(0, i as int) =~= all);
    Some(r)
}

/// The findings in the first report among some documents.
pub open spec fn cargo_findings(docs: Seq<DataV>) -> Seq<FindingV> {
    parts::first_report(docs, |d: DataV| cargo_report(d), 0)
}

pub fn find_cargo_report(docs: &Vec<Data>) -> (r: Vec<Finding>)
    ensures
        report::findings_view(r@) == cargo_findings(data::trees(docs@)),
{
    let ghost all = data::trees(docs@);
    let ghost f = |d: DataV| cargo_report(d);
    let mut i: usize = 0;
    while i < docs.len()
        invariant
            i <= docs@.len(),
            all == data::trees(docs@),
            f == (|d: DataV| cargo_report(d)),
            parts::first_report(all, f, i as int) == cargo_findings(all),
        decreases docs@.len() - i,
    {
        assert(all[i as int] == docs@[i as int]@);
        match extract_cargo_findings(&docs[i]) {
            Some(v) => {
                return v;
            },
            None => {},
        }
        i += 1;
    }
    parts::nothing()
}

/// The findings in the output of `cargo audit --json`.
pub fn parse_cargo_audit_json(output: &str) -> (r: Vec<Finding>)
    ensures
        report::findings_view(r@) == cargo_findings(parts::documents_in(output@)),
{
    let docs = parts::documents(output);
    find_cargo_report(&docs)
}

// ── the result ──────────────────────────────────────────────────────────────

pub open spec fn passed() -> FindingV {
    parts::found(
        Severity::Info,
        "CARGO_AUDIT_PASSED"@,
        "No known vulnerabilities in Rust dependencies"@,
        None,
        Some(UPDATE_HINT@),
    )
}

/// The result of an audit with findings.
pub open spec fn audited(findings: Seq<FindingV>, duration_ms: u64) -> LayerResultV {
    parts::result_of(
        Layer::Hostile,
        "cargo-audit"@,
        parts::audit_status(findings),
        parts::or_passed(findings, passed()),
        report::no_metrics(),
        duration_ms,
    )
}

/// The result of running cargo-audit.
pub open spec fn reported(outcome: Result<ProcessOutput, String>, duration_ms: u64) -> LayerResultV {
    match outcome {
        Ok(out) => audited(cargo_findings(parts::documents_in(out.both())), duration_ms),
        Err(e) => parts::failure_of(
            Layer::Hostile,
            "cargo-audit"@,
            parts::found(
                Severity::Critical,
                "CARGO_AUDIT_FAILED"@,
                "Failed to run cargo audit: "@ + e@,
                Some("cargo audit 2>&1"@),
                Some("Install: `cargo install cargo-audit`"@),
            ),
            duration_ms,
        ),
    }
}

/// The result of running cargo-audit.
pub fn report_cargo_audit(outcome: &Result<ProcessOutput, String>, duration_ms: u64) -> (r: LayerResult)
    ensures
        r@ == reported(*outcome, duration_ms),
{
    match outcome {
        Ok(out) => {
            let findings = parse_cargo_audit_json(out.combined().as_str());
            let status = parts::status_of_audit(&findings);
            let findings = parts::or_else(
                findings,
                parts::finding(
                    Severity::Info,
                    "CARGO_AUDIT_PASSED",
                    "No known vulnerabilities in Rust dependencies",
                    None,
                    Some(UPDATE_HINT),
                ),
            );
            parts::layer_result(
                Layer::Hostile,
                "cargo-audit",
                status,
                findings,
                LayerMetrics::none(),
                duration_ms,
            )
        },
        Err(e) => {
            let message = text::cat("Failed to run cargo audit: ", e.as_str());
            let f = parts::finding(
                Severity::Critical,
                "CARGO_AUDIT_FAILED",
                message.as_str(),
                Some("cargo audit 2>&1"),
                Some("Install: `cargo install cargo-audit`"),
            );
            parts::failure(Layer::Hostile, "cargo-audit", f, duration_ms)
        },
    }
}

pub open spec fn audit_args() -> Seq<Seq<char>> {
    seq!["audit"@, "--json"@]
}

/// `r` is the result of one of the outcomes that running cargo-audit in `root` can have.
pub open spec fn is_run<P: SubprocessRunner>(
    before: P,
    after: P,
    root: Seq<char>,
    r: LayerResultV,
) -> bool {
    exists|o: Result<ProcessOutput, String>, ms: u64|
        #[trigger] before.answers("cargo"@, audit_args(), root, o, after) && r == #[trigger] reported(o, ms)
}

impl CargoAuditRunner {
    pub fn is_available<P: SubprocessRunner>(
        &self,
        proc: &mut P,
        project: &ProjectInfo,
        files: &Files,
    ) -> (r: bool)
        ensures
            if project.language != Language::Rust || !files.has("Cargo.lock"@) {
                !r && *final(proc) == *old(proc)
            } else {
                process::is_probed(*old(proc), "cargo"@, seq!["audit"@, "--version"@], r, *final(proc))
            },
    {
        if project.language != Language::Rust {
            return false;
        }
        if !files.is_there("Cargo.lock") {
            return false;
        }
        let args = vec!["audit".to_string(), "--version".to_string()];
        assert(text::views(args@) =~= seq!["audit"@, "--version"@]);
        proc.is_available("cargo", &args)
    }

    pub fn run<P: SubprocessRunner>(&self, proc: &mut P, project: &ProjectInfo) -> (r: LayerResult)
        ensures
            is_run(*old(proc), *final(proc), project.root@, r@),
    {
        let start = time::started();
        let args = vec!["audit".to_string(), "--json".to_string()];
        assert(text::views(args@) =~= audit_args());
        let outcome = proc.run("cargo", &args, project.root.as_str());
        let ms = time::elapsed_ms(&start);
        let r = report_cargo_audit(&outcome, ms);
        assert(old(proc).answers("cargo"@, audit_args(), project.root@, outcome, *proc));
        assert(r@ == reported(outcome, ms));
        r
    }
}

// ── laws ────────────────────────────────────────────────────────────────────

/// An advisory gives a finding of its own severity; moderate is medium, one that states
/// none is medium, and what is none of these is low.
pub proof fn law_advisories_keep_their_severity(advisory: DataV, pkg: DataV)
    ensures
        advisory.text_at("severity"@) == Some("critical"@) ==> advisory_found(
            advisory,
            pkg,
        ).severity == Severity::Critical,
        advisory.text_at("severity"@) == Some("high"@) ==> advisory_found(advisory, pkg).severity
            == Severity::High,
        advisory.text_at("severity"@) == Some("medium"@) ==> advisory_found(advisory, pkg).severity
            == Severity::Medium,
        advisory.text_at("severity"@) == Some("moderate"@) ==> advisory_found(
            advisory,
            pkg,
        ).severity == Severity::Medium,
        advisory.text_at("severity"@) is None ==> advisory_found(advisory, pkg).severity
            == Severity::Medium,
        advisory.text_at("severity"@) matches Some(s) && s != "critical"@ && s != "high"@ && s
            != "moderate"@ && s != "medium"@ ==> advisory_found(advisory, pkg).severity
            == Severity::Low,
{
    reveal_strlit("critical");
    reveal_strlit("high");
    reveal_strlit("moderate");
    reveal_strlit("medium");
    assert("high"@.len() != "critical"@.len());
    assert("moderate"@[0] != "critical"@[0]);
    assert("moderate"@.len() != "high"@.len());
    assert("medium"@.len() != "high"@.len() && "medium"@.len() != "critical"@.len());
}

/// Every advisory with a package gives a finding, in order; others give none.
pub proof fn law_each_advisory_is_reported(
    list: Seq<DataV>,
    item: DataV,
    advisory: DataV,
    pkg: DataV,
)
    ensures
        advisories_found(Seq::empty()) == Seq::<FindingV>::empty(),
        item.field("advisory"@) == Some(advisory) && item.field("package"@) == Some(pkg)
            ==> advisories_found(list.push(item)) == advisories_found(list).push(
            advisory_found(advisory, pkg),
        ),
        item.field("advisory"@) is None || item.field("package"@) is None ==> advisories_found(
            list.push(item),
        ) == advisories_found(list),
{
    assert(list.push(item).drop_last() =~= list);
}

/// An audit fails with a critical or a high advisory, else is partial with a medium one,
/// else passes. One that cannot be made fails.
pub proof fn law_worst_advisory_decides(
    out: ProcessOutput,
    ms: u64,
    k: int,
    list: Seq<DataV>,
    i: int,
    e: String,
)
    requires
        0 <= k < parts::documents_in(out.both()).len(),
        parts::documents_in(out.both())[k].field("vulnerabilities"@) matches Some(d) && d.list_at(
            "list"@,
        ) == Some(list),
        forall|j: int|
            0 <= j < k ==> !((#[trigger] parts::documents_in(out.both())[j]).field(
                "vulnerabilities"@,
            ) matches Some(d) && d.list_at("list"@) is Some),
    ensures
        ({
            let r = reported(Ok(out), ms);
            let v = advisories_found(list);
            &&& r.name == "hostile"@ && r.runner == "cargo-audit"@ && r.duration_ms == ms
            &&& v.len() > 0 ==> r.findings == v
            &&& v.len() == 0 ==> r.findings.len() == 1 && r.findings[0].severity == Severity::Info
                && r.status == LayerStatus::Pass
            &&& 0 <= i < v.len() && (v[i].severity == Severity::Critical || v[i].severity
                == Severity::High) ==> r.status == LayerStatus::Fail
            &&& 0 <= i < v.len() && v[i].severity == Severity::Medium ==> r.status
                != LayerStatus::Pass
            &&& (forall|j: int|
                0 <= j < v.len() ==> (#[trigger] v[j]).severity != Severity::Critical
                    && v[j].severity != Severity::High) ==> r.status != LayerStatus::Fail
            &&& (forall|j: int| 0 <= j < v.len() ==> (#[trigger] v[j]).severity == Severity::Low)
                ==> r.status == LayerStatus::Pass
        }),
        ({
            let r = reported(Err(e), ms);
            &&& r.status == LayerStatus::Fail && r.findings.len() == 1 && r.findings[0].severity
                == Severity::Critical && r.metrics.failed == 1 && r.runner == "cargo-audit"@
        }),
{
    let docs = parts::documents_in(out.both());
    let f = |d: DataV| cargo_report(d);
    assert forall|j: int| 0 <= j < k implies f(#[trigger] docs[j]) is None by {
        assert(!(docs[j].field("vulnerabilities"@) matches Some(d) && d.list_at("list"@) is Some));
    }
    parts::law_first_report_counts(docs, f, k);
    let v = advisories_found(list);
    assert(cargo_findings(docs) == v);
    parts::law_worst_finding_decides(v, i);
}

/// How the tool is called.
pub proof fn law_arguments_of_the_tool()
    ensures
        audit_args() == seq!["audit"@, "--json"@],
{
}

/// What is said where nothing was found.
pub proof fn law_what_a_clean_run_says()
    ensures
        passed().severity == Severity::Info,
        passed().code == "CARGO_AUDIT_PASSED"@,
        passed().message == "No known vulnerabilities in Rust dependencies"@,
{
}

/// What is said where the tool cannot be run.
pub proof fn law_what_a_failed_start_says(e: String, ms: u64)
    ensures
        ({
            let r = reported(Err(e), ms);
            &&& r.runner == "cargo-audit"@ && r.status == LayerStatus::Fail && r.findings.len() == 1
            &&& r.findings[0].severity == Severity::Critical
            &&& r.findings[0].code == "CARGO_AUDIT_FAILED"@
            &&& r.findings[0].message == "Failed to run cargo audit: "@ + e@
            &&& r.findings[0].reproduce_cmd == Some("cargo audit 2>&1"@)
            &&& r.findings[0].suggestion == Some("Install: `cargo install cargo-audit`"@)
        }),
{
}

/// Which program is started, with which arguments and where.
pub proof fn law_what_is_started<P: SubprocessRunner>(
    before: P,
    after: P,
    root: Seq<char>,
    r: LayerResultV,
    args: Seq<Seq<char>>,
)
    requires
        args == seq!["audit"@, "--json"@],
        is_run(before, after, root, r),
    ensures
        exists|o: Result<ProcessOutput, String>, ms: u64|
            #[trigger] before.answers(
                "cargo"@,
                args,
                root,
                o,
                after,
            ) && r == #[trigger] reported(o, ms),
{
    let (o, ms): (Result<ProcessOutput, String>, u64) = choose|
        o: Result<ProcessOutput, String>,
        ms: u64,
    | #[trigger] before.answers("cargo"@, audit_args(), root, o, after) && r == #[trigger] reported(o, ms);
    assert(before.answers("cargo"@, args, root, o, after));
    assert(r == reported(o, ms));
}

/// What an advisory says of a package.
pub proof fn law_what_an_advisory_says(
    advisory: DataV,
    pkg: DataV,
    id: Seq<char>,
    name: Seq<char>,
    version: Seq<char>,
    title: Seq<char>,
)
    requires
        advisory.text_at("id"@) == Some(id),
        pkg.text_at("name"@) == Some(name),
        pkg.text_at("version"@) == Some(version),
        advisory.text_at("title"@) == Some(title),
    ensures
        ({
            let f = advisory_found(advisory, pkg);
            &&& f.code == "RUSTSEC_"@ + text::replaced(id, '-', "_"@)
            &&& f.message == id + ": "@ + title + " ("@ + name + "@"@ + version + ")"@
            &&& f.reproduce_cmd == Some("cargo audit 2>&1 | grep -A 10 '"@ + id + "'"@)
            &&& (advisory.list_at("patched_versions"@) matches Some(l) && l.len() > 0 && l[0].as_text()
                matches Some(v)) ==> f.suggestion == Some(
                "Upgrade `"@ + name + "` to "@ + advisory.list_at(
                    "patched_versions"@,
                )->0[0].as_text()->0 + " in Cargo.toml"@,
            )
            &&& advisory.list_at("patched_versions"@) is None ==> f.suggestion == Some(
                "No patch available for `"@ + name
                    + "` yet. Consider replacing or pinning to a safe version."@,
            )
        }),
{
}

/// What is said of an advisory that leaves something out.
pub proof fn law_what_an_advisory_leaves_out(advisory: DataV, pkg: DataV)
    requires
        advisory.text_at("id"@) is None && advisory.text_at("title"@) is None,
        pkg.text_at("name"@) is None && pkg.text_at("version"@) is None,
    ensures
        advisory_found(advisory, pkg).code == "RUSTSEC_"@ + text::replaced("UNKNOWN"@, '-', "_"@),
        advisory_found(advisory, pkg).message == "UNKNOWN"@ + ": "@ + "Vulnerability"@ + " ("@
            + "unknown"@ + "@"@ + "?"@ + ")"@,
{
}

/// A result belongs to the layer and the runner that it is of, whatever came out.
pub proof fn law_where_results_belong(outcome: Result<ProcessOutput, String>, duration_ms: u64)
    ensures
        reported(outcome, duration_ms).name == "hostile"@,
        reported(outcome, duration_ms).runner == "cargo-audit"@,
        reported(outcome, duration_ms).duration_ms == duration_ms,
{
}

} // verus!
