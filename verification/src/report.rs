//! Verification reports: findings, layers, and the summary over them.
use vstd::prelude::*;

use crate::detect::ProjectInfo;
use crate::order;
use crate::percent::Percent;
use crate::text;
use crate::time;
use crate::time::Timestamp;

verus! {

#[derive(Debug, Clone, Copy, PartialEq, Eq, Structural)]
pub enum ReportStatus {
    Pass,
    Partial,
    Fail,
}

#[derive(Debug, Clone, Copy, PartialEq, Eq, Structural)]
pub enum LayerStatus {
    Pass,
    Partial,
    Fail,
    Skipped,
}

#[derive(Debug, Clone, Copy, PartialEq, Eq, Structural)]
pub enum Severity {
    Critical,
    High,
    Medium,
    Low,
    Info,
}

#[derive(Debug)]
pub struct Finding {
    pub severity: Severity,
    pub code: String,
    pub message: String,
    pub location: Option<String>,
    /// Exact shell command that reproduces this finding.
    pub reproduce_cmd: Option<String>,
    /// Actionable fix suggestion.
    pub suggestion: Option<String>,
}

/// The model of a `Finding`.
pub struct FindingV {
    pub severity: Severity,
    pub code: Seq<char>,
    pub message: Seq<char>,
    pub location: Option<Seq<char>>,
    pub reproduce_cmd: Option<Seq<char>>,
    pub suggestion: Option<Seq<char>>,
}

#[derive(Debug, Clone, Copy)]
pub struct LayerMetrics {
    pub tests_run: u64,
    pub passed: u64,
    pub failed: u64,
    pub coverage: Option<Percent>,
    pub mutation_score: Option<Percent>,
}

#[derive(Debug)]
pub struct LayerResult {
    pub name: String,
    pub runner: String,
    pub status: LayerStatus,
    pub findings: Vec<Finding>,
    pub metrics: LayerMetrics,
    pub duration_ms: u64,
}

/// The model of a `LayerResult`.
pub struct LayerResultV {
    pub name: Seq<char>,
    pub runner: Seq<char>,
    pub status: LayerStatus,
    pub findings: Seq<FindingV>,
    pub metrics: LayerMetrics,
    pub duration_ms: u64,
}

#[derive(Debug, Clone, Copy, PartialEq, Eq, Structural)]
pub struct Summary {
    pub total_findings: usize,
    pub critical: usize,
    pub high: usize,
    pub medium: usize,
    pub low: usize,
    pub overall_status: ReportStatus,
}

/// Package-level report nested inside a workspace aggregate.
#[derive(Debug)]
pub struct WorkspaceMemberReport {
    pub package_path: String,
    pub language: String,
    pub status: ReportStatus,
    pub layers: Vec<LayerResult>,
    pub summary: Summary,
}

#[derive(Debug)]
pub struct BarzelReport {
    pub id: String,
    pub timestamp: Timestamp,
    pub project: ProjectInfo,
    pub layers: Vec<LayerResult>,
    pub summary: Summary,
    pub status: ReportStatus,
    /// Minimum severity that triggers a non-zero exit: critical | high | medium | any
    pub fail_on: String,
    /// Per-package reports for workspace projects (empty for a single project)
    pub workspace_members: Vec<WorkspaceMemberReport>,
    /// Git revision that the run was limited to, even where the run fell back.
    pub diff_since: Option<String>,
    /// Number of changed files (absent when the lookup failed).
    pub diff_changed_files: Option<usize>,
    /// Reason why a limited run fell back to a full one.
    pub diff_fallback_reason: Option<String>,
}

impl View for Finding {
    type V = FindingV;

    open spec fn view(&self) -> FindingV {
        FindingV {
            severity: self.severity,
            code: self.code@,
            message: self.message@,
            location: text::opt_view(self.location),
            reproduce_cmd: text::opt_view(self.reproduce_cmd),
            suggestion: text::opt_view(self.suggestion),
        }
    }
}

/// The models of a list of findings.
pub open spec fn findings_view(v: Seq<Finding>) -> Seq<FindingV> {
    v.map_values(|f: Finding| f@)
}

impl View for LayerResult {
    type V = LayerResultV;

    open spec fn view(&self) -> LayerResultV {
        LayerResultV {
            name: self.name@,
            runner: self.runner@,
            status: self.status,
            findings: findings_view(self.findings@),
            metrics: self.metrics,
            duration_ms: self.duration_ms,
        }
    }
}

/// The models of a list of layer results.
pub open spec fn layers_view(v: Seq<LayerResult>) -> Seq<LayerResultV> {
    v.map_values(|l: LayerResult| l@)
}

impl Clone for Finding {
    fn clone(&self) -> (r: Self)
        ensures
            r == *self,
    {
        Finding {
            severity: self.severity,
            code: self.code.clone(),
            message: self.message.clone(),
            location: text::copy_opt(&self.location),
            reproduce_cmd: text::copy_opt(&self.reproduce_cmd),
            suggestion: text::copy_opt(&self.suggestion),
        }
    }
}

impl Default for Finding {
    fn default() -> (r: Self)
        ensures
            r@ == blank_finding(),
    {
        Finding {
            severity: Severity::Info,
            code: String::new(),
            message: String::new(),
            location: None,
            reproduce_cmd: None,
            suggestion: None,
        }
    }
}

/// The finding that says nothing: informational, with empty texts.
pub open spec fn blank_finding() -> FindingV {
    FindingV {
        severity: Severity::Info,
        code: Seq::empty(),
        message: Seq::empty(),
        location: None,
        reproduce_cmd: None,
        suggestion: None,
    }
}

/// No tests, no measurements.
pub open spec fn no_metrics() -> LayerMetrics {
    LayerMetrics { tests_run: 0, passed: 0, failed: 0, coverage: None, mutation_score: None }
}

/// One failure and nothing else: what a run that could not be made is counted as.
pub open spec fn failed_metrics() -> LayerMetrics {
    LayerMetrics { tests_run: 0, passed: 0, failed: 1, coverage: None, mutation_score: None }
}

impl LayerMetrics {
    pub fn none() -> (r: LayerMetrics)
        ensures
            r == no_metrics(),
    {
        LayerMetrics { tests_run: 0, passed: 0, failed: 0, coverage: None, mutation_score: None }
    }

    pub fn one_failure() -> (r: LayerMetrics)
        ensures
            r == failed_metrics(),
    {
        LayerMetrics { tests_run: 0, passed: 0, failed: 1, coverage: None, mutation_score: None }
    }
}

impl Default for LayerMetrics {
    fn default() -> (r: Self)
        ensures
            r == no_metrics(),
    {
        LayerMetrics::none()
    }
}

// ── names ───────────────────────────────────────────────────────────────────

impl ReportStatus {
    pub open spec fn text(self) -> Seq<char> {
        match self {
            ReportStatus::Pass => "pass"@,
            ReportStatus::Partial => "partial"@,
            ReportStatus::Fail => "fail"@,
        }
    }

    pub fn as_str(self) -> (r: &'static str)
        ensures
            r@ == self.text(),
    {
        match self {
            ReportStatus::Pass => "pass",
            ReportStatus::Partial => "partial",
            ReportStatus::Fail => "fail",
        }
    }
}

impl LayerStatus {
    pub open spec fn text(self) -> Seq<char> {
        match self {
            LayerStatus::Pass => "PASS"@,
            LayerStatus::Partial => "PARTIAL"@,
            LayerStatus::Fail => "FAIL"@,
            LayerStatus::Skipped => "SKIPPED"@,
        }
    }

    pub fn as_str(self) -> (r: &'static str)
        ensures
            r@ == self.text(),
    {
        match self {
            LayerStatus::Pass => "PASS",
            LayerStatus::Partial => "PARTIAL",
            LayerStatus::Fail => "FAIL",
            LayerStatus::Skipped => "SKIPPED",
        }
    }
}

impl Severity {
    pub open spec fn text(self) -> Seq<char> {
        match self {
            Severity::Critical => "CRITICAL"@,
            Severity::High => "HIGH"@,
            Severity::Medium => "MEDIUM"@,
            Severity::Low => "LOW"@,
            Severity::Info => "INFO"@,
        }
    }

    pub fn as_str(self) -> (r: &'static str)
        ensures
            r@ == self.text(),
    {
        match self {
            Severity::Critical => "CRITICAL",
            Severity::High => "HIGH",
            Severity::Medium => "MEDIUM",
            Severity::Low => "LOW",
            Severity::Info => "INFO",
        }
    }
}

// ── counting ────────────────────────────────────────────────────────────────

/// How many findings have the severity `s`.
pub open spec fn count(findings: Seq<Finding>, s: Severity) -> nat
    decreases findings.len(),
{
    if findings.len() == 0 {
        0
    } else {
        count(findings.drop_last(), s) + if findings.last().severity == s { 1nat } else { 0nat }
    }
}

/// How many findings of all layers have the severity `s`.
pub open spec fn tally(layers: Seq<LayerResult>, s: Severity) -> nat
    decreases layers.len(),
{
    if layers.len() == 0 {
        0
    } else {
        tally(layers.drop_last(), s) + count(layers.last().findings@, s)
    }
}

/// How many findings all layers have.
pub open spec fn total(layers: Seq<LayerResult>) -> nat
    decreases layers.len(),
{
    if layers.len() == 0 {
        0
    } else {
        total(layers.drop_last()) + layers.last().findings@.len()
    }
}

/// What counts of findings make of a report: critical ones fail it, high and
/// medium ones leave it partial.
pub open spec fn status_of(critical: int, high: int, medium: int) -> ReportStatus {
    if critical > 0 {
        ReportStatus::Fail
    } else if high > 0 || medium > 0 {
        ReportStatus::Partial
    } else {
        ReportStatus::Pass
    }
}

/// The summary that counts the findings of the layers.
pub open spec fn summary_of(layers: Seq<LayerResult>) -> Summary {
    Summary {
        total_findings: total(layers) as usize,
        critical: tally(layers, Severity::Critical) as usize,
        high: tally(layers, Severity::High) as usize,
        medium: tally(layers, Severity::Medium) as usize,
        low: tally(layers, Severity::Low) as usize,
        overall_status: status_of(
            tally(layers, Severity::Critical) as int,
            tally(layers, Severity::High) as int,
            tally(layers, Severity::Medium) as int,
        ),
    }
}

proof fn lemma_count_bound(findings: Seq<Finding>, s: Severity)
    ensures
        count(findings, s) <= findings.len(),
    decreases findings.len(),
{
    if findings.len() > 0 {
        lemma_count_bound(findings.drop_last(), s);
    }
}

proof fn lemma_tally_bound(layers: Seq<LayerResult>, s: Severity)
    ensures
        tally(layers, s) <= total(layers),
    decreases layers.len(),
{
    if layers.len() > 0 {
        lemma_tally_bound(layers.drop_last(), s);
        lemma_count_bound(layers.last().findings@, s);
    }
}

pub proof fn lemma_total_front(layers: Seq<LayerResult>, n: int)
    requires
        0 <= n <= layers.len(),
    ensures
        total(layers.subrange(0, n)) <= total(layers),
    decreases layers.len(),
{
    if n == layers.len() {
        assert(layers.subrange(0, n) == layers);
    } else {
        lemma_total_front(layers.drop_last(), n);
        assert(layers.drop_last().subrange(0, n) == layers.subrange(0, n));
    }
}

/// The four severities and the informational findings make up the total.
pub proof fn law_severities_make_up_the_total(layers: Seq<LayerResult>)
    ensures
        total(layers) == tally(layers, Severity::Critical) + tally(layers, Severity::High) + tally(
            layers,
            Severity::Medium,
        ) + tally(layers, Severity::Low) + tally(layers, Severity::Info),
    decreases layers.len(),
{
    if layers.len() > 0 {
        law_severities_make_up_the_total(layers.drop_last());
        lemma_counts_sum(layers.last().findings@);
    }
}

proof fn lemma_counts_sum(f: Seq<Finding>)
    ensures
        f.len() == count(f, Severity::Critical) + count(f, Severity::High) + count(
            f,
            Severity::Medium,
        ) + count(f, Severity::Low) + count(f, Severity::Info),
    decreases f.len(),
{
    if f.len() > 0 {
        lemma_counts_sum(f.drop_last());
    }
}

/// A summary of running counts.
fn add_findings(base: Summary, findings: &Vec<Finding>) -> (r: Summary)
    requires
        base.total_findings + findings@.len() <= usize::MAX,
        base.critical + count(findings@, Severity::Critical) <= usize::MAX,
        base.high + count(findings@, Severity::High) <= usize::MAX,
        base.medium + count(findings@, Severity::Medium) <= usize::MAX,
        base.low + count(findings@, Severity::Low) <= usize::MAX,
    ensures
        r.total_findings == base.total_findings + findings@.len(),
        r.critical == base.critical + count(findings@, Severity::Critical),
        r.high == base.high + count(findings@, Severity::High),
        r.medium == base.medium + count(findings@, Severity::Medium),
        r.low == base.low + count(findings@, Severity::Low),
        r.overall_status == base.overall_status,
{
    let mut r = base;
    let mut i: usize = 0;
    while i < findings.len()
        invariant
            i <= findings@.len(),
            base.total_findings + findings@.len() <= usize::MAX,
            base.critical + count(findings@, Severity::Critical) <= usize::MAX,
            base.high + count(findings@, Severity::High) <= usize::MAX,
            base.medium + count(findings@, Severity::Medium) <= usize::MAX,
            base.low + count(findings@, Severity::Low) <= usize::MAX,
            r.total_findings == base.total_findings + i,
            r.critical == base.critical + count(findings@.subrange(0, i as int), Severity::Critical),
            r.high == base.high + count(findings@.subrange(0, i as int), Severity::High),
            r.medium == base.medium + count(findings@.subrange(0, i as int), Severity::Medium),
            r.low == base.low + count(findings@.subrange(0, i as int), Severity::Low),
            r.overall_status == base.overall_status,
        decreases findings@.len() - i,
    {
        let s = findings[i].severity;
        proof {
            let next = findings@.subrange(0, i + 1);
            assert(next.drop_last() == findings@.subrange(0, i as int));
            lemma_count_grows(findings@, i + 1, s);
        }
        r.total_findings = r.total_findings + 1;
        match s {
            Severity::Critical => {
                r.critical = r.critical + 1;
            },
            Severity::High => {
                r.high = r.high + 1;
            },
            Severity::Medium => {
                r.medium = r.medium + 1;
            },
            Severity::Low => {
                r.low = r.low + 1;
            },
            Severity::Info => {},
        }
        i += 1;
    }
    assert(findings@.subrange(0, i as int) == findings@);
    r
}

proof fn lemma_count_grows(f: Seq<Finding>, n: int, s: Severity)
    requires
        0 <= n <= f.len(),
    ensures
        count(f.subrange(0, n), s) <= count(f, s),
    decreases f.len(),
{
    if n == f.len() {
        assert(f.subrange(0, n) == f);
    } else {
        lemma_count_grows(f.drop_last(), n, s);
        assert(f.drop_last().subrange(0, n) == f.subrange(0, n));
    }
}

// ── reports ─────────────────────────────────────────────────────────────────

/// The form of a random identifier: 36 characters in five groups, which hyphens part, of
/// hexadecimal digits in lower case; the third group begins with the version `4`, the
/// fourth with the variant.
pub open spec fn is_random_id(s: Seq<char>) -> bool {
    &&& s.len() == 36
    &&& forall|i: int|
        0 <= i < 36 ==> if i == 8 || i == 13 || i == 18 || i == 23 {
            #[trigger] s[i] == '-'
        } else {
            text::is_digit(s[i]) || 'a' <= s[i] <= 'f'
        }
    &&& s[14] == '4'
    &&& s[19] == '8' || s[19] == '9' || s[19] == 'a' || s[19] == 'b'
}

/// `Uuid::new_v4` draws a random identifier, and `to_string` writes it with hyphens and in
/// lower case. Which identifier is drawn is left open.
#[verifier::external_body]
fn random_id() -> (r: String)
    ensures
        is_random_id(r@),
{
    uuid::Uuid::new_v4().to_string()
}

/// The report of a project before any layer was run.
pub open spec fn is_fresh(r: BarzelReport, project: ProjectInfo) -> bool {
    &&& r.project == project
    &&& r.layers@.len() == 0
    &&& r.summary == summary_of(Seq::empty())
    &&& r.status == ReportStatus::Pass
    &&& r.fail_on@ == "high"@
    &&& r.workspace_members@.len() == 0
    &&& r.diff_since is None
    &&& r.diff_changed_files is None
    &&& r.diff_fallback_reason is None
}

/// Two reports that agree in everything but layers, summary and status.
pub open spec fn same_heading(a: BarzelReport, b: BarzelReport) -> bool {
    &&& a.id == b.id
    &&& a.timestamp == b.timestamp
    &&& a.project == b.project
    &&& a.fail_on == b.fail_on
    &&& a.workspace_members == b.workspace_members
    &&& a.diff_since == b.diff_since
    &&& a.diff_changed_files == b.diff_changed_files
    &&& a.diff_fallback_reason == b.diff_fallback_reason
}

impl BarzelReport {
    /// The summary counts the findings of the layers, and the status follows from it.
    pub open spec fn is_counted(self) -> bool {
        &&& total(self.layers@) <= usize::MAX
        &&& self.summary == summary_of(self.layers@)
        &&& self.status == self.summary.overall_status
    }

    /// A report with a fresh identifier and the time of the call.
    pub fn new(project: ProjectInfo) -> (r: Self)
        ensures
            is_fresh(r, project),
            r.is_counted(),
            is_random_id(r.id@),
    {
        let id = random_id();
        let timestamp = time::now();
        BarzelReport::with_identity(project, id, timestamp)
    }

    /// A report with the given identifier and time.
    pub fn with_identity(project: ProjectInfo, id: String, timestamp: Timestamp) -> (r: Self)
        ensures
            is_fresh(r, project),
            r.is_counted(),
            r.id == id,
            r.timestamp == timestamp,
    {
        let r = BarzelReport {
            id,
            timestamp,
            project,
            layers: Vec::new(),
            summary: Summary {
                total_findings: 0,
                critical: 0,
                high: 0,
                medium: 0,
                low: 0,
                overall_status: ReportStatus::Pass,
            },
            status: ReportStatus::Pass,
            fail_on: "high".to_string(),
            workspace_members: Vec::new(),
            diff_since: None,
            diff_changed_files: None,
            diff_fallback_reason: None,
        };
        assert(r.layers@ == Seq::<LayerResult>::empty());
        r
    }

    /// Counts the findings of a layer into the summary and appends the layer. The
    /// status only gets worse: without critical, high or medium findings it stays.
    pub fn add_layer(&mut self, layer: LayerResult)
        requires
            old(self).summary.total_findings + layer.findings@.len() <= usize::MAX,
            old(self).summary.critical + count(layer.findings@, Severity::Critical) <= usize::MAX,
            old(self).summary.high + count(layer.findings@, Severity::High) <= usize::MAX,
            old(self).summary.medium + count(layer.findings@, Severity::Medium) <= usize::MAX,
            old(self).summary.low + count(layer.findings@, Severity::Low) <= usize::MAX,
        ensures
            same_heading(*final(self), *old(self)),
            final(self).layers@ == old(self).layers@.push(layer),
            final(self).summary.total_findings == old(self).summary.total_findings
                + layer.findings@.len(),
            final(self).summary.critical == old(self).summary.critical + count(
                layer.findings@,
                Severity::Critical,
            ),
            final(self).summary.high == old(self).summary.high + count(
                layer.findings@,
                Severity::High,
            ),
            final(self).summary.medium == old(self).summary.medium + count(
                layer.findings@,
                Severity::Medium,
            ),
            final(self).summary.low == old(self).summary.low + count(layer.findings@, Severity::Low),
            final(self).status == (if final(self).summary.critical == 0
                && final(self).summary.high == 0 && final(self).summary.medium == 0 {
                old(self).status
            } else {
                status_of(
                    final(self).summary.critical as int,
                    final(self).summary.high as int,
                    final(self).summary.medium as int,
                )
            }),
            final(self).summary.overall_status == final(self).status,
            old(self).is_counted() ==> final(self).is_counted(),
    {
        self.summary = add_findings(self.summary, &layer.findings);
        if self.summary.critical > 0 {
            self.status = ReportStatus::Fail;
        } else if self.summary.high > 0 || self.summary.medium > 0 {
            self.status = ReportStatus::Partial;
        }
        self.summary.overall_status = self.status;
        self.layers.push(layer);
        proof {
            let before = old(self).layers@;
            let after = self.layers@;
            assert(after.drop_last() == before);
            assert(after.last() == layer);
            lemma_tally_bound(before, Severity::Critical);
            lemma_tally_bound(before, Severity::High);
            lemma_tally_bound(before, Severity::Medium);
            lemma_tally_bound(before, Severity::Low);
        }
    }

    /// Recomputes summary counts and overall status from the current layers.
    pub fn recompute_summary(&mut self)
        requires
            total(old(self).layers@) <= usize::MAX,
        ensures
            same_heading(*final(self), *old(self)),
            final(self).layers == old(self).layers,
            final(self).is_counted(),
    {
        let mut s = Summary {
            total_findings: 0,
            critical: 0,
            high: 0,
            medium: 0,
            low: 0,
            overall_status: ReportStatus::Pass,
        };
        let ghost layers = self.layers@;
        let mut i: usize = 0;
        while i < self.layers.len()
            invariant
                layers == self.layers@,
                *self == *old(self),
                i <= layers.len(),
                total(layers) <= usize::MAX,
                s.total_findings == total(layers.subrange(0, i as int)),
                s.critical == tally(layers.subrange(0, i as int), Severity::Critical),
                s.high == tally(layers.subrange(0, i as int), Severity::High),
                s.medium == tally(layers.subrange(0, i as int), Severity::Medium),
                s.low == tally(layers.subrange(0, i as int), Severity::Low),
            decreases layers.len() - i,
        {
            proof {
                let next = layers.subrange(0, i + 1);
                assert(next.drop_last() == layers.subrange(0, i as int));
                assert(next.last() == layers[i as int]);
                lemma_total_front(layers, i + 1);
                lemma_tally_bound(next, Severity::Critical);
                lemma_tally_bound(next, Severity::High);
                lemma_tally_bound(next, Severity::Medium);
                lemma_tally_bound(next, Severity::Low);
            }
            s = add_findings(s, &self.layers[i].findings);
            i += 1;
        }
        assert(layers.subrange(0, i as int) == layers);
        let status = if s.critical > 0 {
            ReportStatus::Fail
        } else if s.high > 0 || s.medium > 0 {
            ReportStatus::Partial
        } else {
            ReportStatus::Pass
        };
        s.overall_status = status;
        self.summary = s;
        self.status = status;
        proof {
            lemma_tally_bound(layers, Severity::Critical);
            lemma_tally_bound(layers, Severity::High);
            lemma_tally_bound(layers, Severity::Medium);
            lemma_tally_bound(layers, Severity::Low);
        }
    }
}

/// Where the findings of a layer fit the total of a counted report, they fit each count.
pub proof fn lemma_room(r: BarzelReport, layer: LayerResult)
    requires
        r.is_counted(),
        r.summary.total_findings + layer.findings@.len() <= usize::MAX,
    ensures
        r.summary.critical + count(layer.findings@, Severity::Critical) <= usize::MAX,
        r.summary.high + count(layer.findings@, Severity::High) <= usize::MAX,
        r.summary.medium + count(layer.findings@, Severity::Medium) <= usize::MAX,
        r.summary.low + count(layer.findings@, Severity::Low) <= usize::MAX,
{
    lemma_tally_bound(r.layers@, Severity::Critical);
    lemma_tally_bound(r.layers@, Severity::High);
    lemma_tally_bound(r.layers@, Severity::Medium);
    lemma_tally_bound(r.layers@, Severity::Low);
    lemma_count_bound(layer.findings@, Severity::Critical);
    lemma_count_bound(layer.findings@, Severity::High);
    lemma_count_bound(layer.findings@, Severity::Medium);
    lemma_count_bound(layer.findings@, Severity::Low);
}

/// A report that counts its findings passes only without critical, high and
/// medium findings, and fails exactly with a critical one.
pub proof fn law_status_follows_findings(r: BarzelReport)
    requires
        r.is_counted(),
    ensures
        r.status == ReportStatus::Fail <==> tally(r.layers@, Severity::Critical) > 0,
        r.status == ReportStatus::Pass <==> tally(r.layers@, Severity::Critical) == 0 && tally(
            r.layers@,
            Severity::High,
        ) == 0 && tally(r.layers@, Severity::Medium) == 0,
        r.summary.total_findings == total(r.layers@),
{
}

// ── stored reports ──────────────────────────────────────────────────────────

/// A report and the path of the file that it was read from.
#[derive(Debug)]
pub struct StoredReport {
    pub path: String,
    pub report: BarzelReport,
}

/// `a` is the later report; of two of the same time the one with the greater path.
pub open spec fn is_newer(a: StoredReport, b: StoredReport) -> bool {
    a.report.timestamp.is_after(b.report.timestamp) || (a.report.timestamp == b.report.timestamp
        && order::text_less(b.path@, a.path@))
}

/// The first eight bytes of an identifier, or all of one that is shorter or has no
/// character boundary there.
pub open spec fn short_id(id: Seq<char>) -> Seq<char> {
    match text::byte_front(id, 8) {
        Some(s) => s,
        None => id,
    }
}

fn newer(a: &StoredReport, b: &StoredReport) -> (r: bool)
    ensures
        r == is_newer(*a, *b),
{
    a.report.timestamp.after(b.report.timestamp) || (a.report.timestamp == b.report.timestamp
        && order::text_before(b.path.as_str(), a.path.as_str()))
}

proof fn lemma_newer_transitive(a: StoredReport, b: StoredReport, c: StoredReport)
    requires
        is_newer(a, b),
        !is_newer(c, b),
    ensures
        is_newer(a, c),
{
    order::lemma_text_less_total(a.path@, b.path@);
    order::lemma_text_less_total(a.path@, c.path@);
    order::lemma_text_less_total(b.path@, c.path@);
    if order::text_less(b.path@, a.path@) {
        order::lemma_text_less_splits(b.path@, c.path@, a.path@);
    }
}

/// The latest report does not depend on the order in which reports were found: of reports
/// in different files only one is such that no other is newer.
pub proof fn law_latest_is_unique(a: StoredReport, b: StoredReport)
    requires
        a.path@ != b.path@,
    ensures
        is_newer(a, b) || is_newer(b, a),
        !(is_newer(a, b) && is_newer(b, a)),
{
    order::lemma_text_less_total(a.path@, b.path@);
}

impl BarzelReport {
    /// The name of the file of a report: its second and the front of its identifier. None
    /// for a time that has no text.
    pub fn file_name(&self) -> (r: Option<String>)
        ensures
            match time::formatted(self.timestamp.secs, self.timestamp.nanos, "%Y%m%d-%H%M%S"@) {
                Some(stamp) => r matches Some(n) && n@ == "report-"@ + stamp + "-"@ + short_id(
                    self.id@,
                ) + ".json"@,
                None => r is None,
            },
    {
        let id = match text::front_bytes(self.id.as_str(), 8) {
            Some(s) => s,
            None => self.id.clone(),
        };
        match time::file_stamp(self.timestamp) {
            Some(stamp) => Some(
                text::cat5("report-", stamp.as_str(), "-", id.as_str(), ".json"),
            ),
            None => None,
        }
    }

    /// The position of the latest report.
    pub fn load_latest(stored: &Vec<StoredReport>) -> (r: Option<usize>)
        ensures
            r is None <==> stored@.len() == 0,
            r matches Some(i) ==> i < stored@.len() && (forall|j: int|
                0 <= j < stored@.len() ==> !is_newer(#[trigger] stored@[j], stored@[i as int]))
                && (forall|j: int|
                0 <= j < i ==> is_newer(stored@[i as int], #[trigger] stored@[j])),
    {
        if stored.len() == 0 {
            return None;
        }
        let mut best: usize = 0;
        let mut k: usize = 1;
        proof {
            order::lemma_text_less_total(stored@[0].path@, stored@[0].path@);
        }
        while k < stored.len()
            invariant
                best < k <= stored@.len(),
                forall|j: int| 0 <= j < k ==> !is_newer(#[trigger] stored@[j], stored@[best as int]),
                forall|j: int| 0 <= j < best ==> is_newer(stored@[best as int], #[trigger] stored@[j]),
            decreases stored@.len() - k,
        {
            if newer(&stored[k], &stored[best]) {
                proof {
                    assert forall|j: int| 0 <= j < k implies is_newer(
                        stored@[k as int],
                        #[trigger] stored@[j],
                    ) by {
                        lemma_newer_transitive(stored@[k as int], stored@[best as int], stored@[j]);
                    }
                    assert forall|j: int| 0 <= j < k + 1 implies !is_newer(
                        #[trigger] stored@[j],
                        stored@[k as int],
                    ) by {
                        order::lemma_text_less_total(stored@[j].path@, stored@[k as int].path@);
                    }
                }
                best = k;
            }
            k += 1;
        }
        Some(best)
    }

    /// The position of the first report whose identifier begins with `id`.
    pub fn load_by_id(stored: &Vec<StoredReport>, id: &str) -> (r: Option<usize>)
        ensures
            match r {
                Some(i) => i < stored@.len() && text::begins(stored@[i as int].report.id@, id@)
                    && forall|j: int|
                    0 <= j < i ==> !text::begins((#[trigger] stored@[j]).report.id@, id@),
                None => forall|j: int|
                    0 <= j < stored@.len() ==> !text::begins(
                        (#[trigger] stored@[j]).report.id@,
                        id@,
                    ),
            },
    {
        let mut i: usize = 0;
        while i < stored.len()
            invariant
                i <= stored@.len(),
                forall|j: int|
                    0 <= j < i ==> !text::begins((#[trigger] stored@[j]).report.id@, id@),
            decreases stored@.len() - i,
        {
            if text::starts_with(stored[i].report.id.as_str(), id) {
                return Some(i);
            }
            i += 1;
        }
        None
    }
}

// ── laws ────────────────────────────────────────────────────────────────────

/// Some layer has a finding of this severity.
pub open spec fn some_finding(layers: Seq<LayerResult>, s: Severity) -> bool {
    exists|i: int, k: int|
        0 <= i < layers.len() && 0 <= k < layers[i].findings@.len() && (
        #[trigger] layers[i].findings@[k]).severity == s
}

proof fn lemma_count_is_filter(findings: Seq<Finding>, s: Severity)
    ensures
        count(findings, s) == findings.filter(|f: Finding| f.severity == s).len(),
        count(findings, s) > 0 <==> exists|k: int|
            0 <= k < findings.len() && (#[trigger] findings[k]).severity == s,
    decreases findings.len(),
{
    reveal(Seq::filter);
    if findings.len() > 0 {
        let front = findings.drop_last();
        lemma_count_is_filter(front, s);
        if count(front, s) > 0 {
            let k = choose|k: int| 0 <= k < front.len() && (#[trigger] front[k]).severity == s;
            assert(findings[k].severity == s);
        }
        if findings.last().severity == s {
            assert(findings[findings.len() - 1].severity == s);
        }
        if exists|k: int| 0 <= k < findings.len() && (#[trigger] findings[k]).severity == s {
            let k = choose|k: int|
                0 <= k < findings.len() && (#[trigger] findings[k]).severity == s;
            if k < front.len() {
                assert(front[k].severity == s);
            }
        }
    }
}

pub proof fn lemma_tally_finds(layers: Seq<LayerResult>, s: Severity)
    ensures
        tally(layers, s) > 0 <==> some_finding(layers, s),
    decreases layers.len(),
{
    if layers.len() > 0 {
        let front = layers.drop_last();
        let last = layers.last();
        lemma_tally_finds(front, s);
        lemma_count_is_filter(last.findings@, s);
        if some_finding(front, s) {
            let (i, k) = choose|i: int, k: int|
                0 <= i < front.len() && 0 <= k < front[i].findings@.len() && (
                #[trigger] front[i].findings@[k]).severity == s;
            assert(layers[i].findings@[k].severity == s);
        }
        if count(last.findings@, s) > 0 {
            let k = choose|k: int|
                0 <= k < last.findings@.len() && (#[trigger] last.findings@[k]).severity == s;
            assert(layers[layers.len() - 1].findings@[k].severity == s);
        }
        if some_finding(layers, s) {
            let (i, k) = choose|i: int, k: int|
                0 <= i < layers.len() && 0 <= k < layers[i].findings@.len() && (
                #[trigger] layers[i].findings@[k]).severity == s;
            if i < front.len() {
                assert(front[i].findings@[k].severity == s);
            } else {
                assert(last.findings@[k].severity == s);
            }
        }
    }
}

/// A counted report fails exactly where some layer has a critical finding; else it is
/// partial exactly where one has a high or a medium finding; else it passes.
pub proof fn law_worst_finding_decides(r: BarzelReport)
    requires
        r.is_counted(),
    ensures
        r.status == (if some_finding(r.layers@, Severity::Critical) {
            ReportStatus::Fail
        } else if some_finding(r.layers@, Severity::High) || some_finding(
            r.layers@,
            Severity::Medium,
        ) {
            ReportStatus::Partial
        } else {
            ReportStatus::Pass
        }),
        r.summary.overall_status == r.status,
{
    lemma_tally_finds(r.layers@, Severity::Critical);
    lemma_tally_finds(r.layers@, Severity::High);
    lemma_tally_finds(r.layers@, Severity::Medium);
}

/// With a layer more, each count of a report grows by the findings of that severity which
/// the layer has, and the total by all its findings. Without layers all are nothing.
pub proof fn law_each_finding_counts_once(before: BarzelReport, after: BarzelReport, l: LayerResult)
    requires
        before.is_counted(),
        after.is_counted(),
        after.layers@ == before.layers@.push(l),
    ensures
        after.summary.critical == before.summary.critical + l.findings@.filter(
            |f: Finding| f.severity == Severity::Critical,
        ).len(),
        after.summary.high == before.summary.high + l.findings@.filter(
            |f: Finding| f.severity == Severity::High,
        ).len(),
        after.summary.medium == before.summary.medium + l.findings@.filter(
            |f: Finding| f.severity == Severity::Medium,
        ).len(),
        after.summary.low == before.summary.low + l.findings@.filter(
            |f: Finding| f.severity == Severity::Low,
        ).len(),
        after.summary.total_findings == before.summary.total_findings + l.findings@.len(),
        before.layers@.len() == 0 ==> before.summary.critical == 0 && before.summary.high == 0
            && before.summary.medium == 0 && before.summary.low == 0
            && before.summary.total_findings == 0,
{
    assert(after.layers@.drop_last() =~= before.layers@);
    lemma_count_is_filter(l.findings@, Severity::Critical);
    lemma_count_is_filter(l.findings@, Severity::High);
    lemma_count_is_filter(l.findings@, Severity::Medium);
    lemma_count_is_filter(l.findings@, Severity::Low);
    lemma_tally_bound(after.layers@, Severity::Critical);
    lemma_tally_bound(after.layers@, Severity::High);
    lemma_tally_bound(after.layers@, Severity::Medium);
    lemma_tally_bound(after.layers@, Severity::Low);
    lemma_tally_bound(before.layers@, Severity::Critical);
    lemma_tally_bound(before.layers@, Severity::High);
    lemma_tally_bound(before.layers@, Severity::Medium);
    lemma_tally_bound(before.layers@, Severity::Low);
}

/// Of two stored reports the one of the later second is newer, wherever they are stored.
pub proof fn law_later_reports_are_newer(a: StoredReport, b: StoredReport)
    ensures
        a.report.timestamp.secs > b.report.timestamp.secs ==> is_newer(a, b) && !is_newer(b, a),
        a.report.timestamp.secs == b.report.timestamp.secs && a.report.timestamp.nanos
            > b.report.timestamp.nanos ==> is_newer(a, b) && !is_newer(b, a),
        a.report.timestamp == b.report.timestamp && order::text_less(b.path@, a.path@) ==> is_newer(
            a,
            b,
        ),
{
}

/// The words for the statuses and severities.
pub proof fn law_words_for_statuses_and_severities()
    ensures
        ReportStatus::Pass.text() == "pass"@,
        ReportStatus::Partial.text() == "partial"@,
        ReportStatus::Fail.text() == "fail"@,
        LayerStatus::Pass.text() == "PASS"@,
        LayerStatus::Partial.text() == "PARTIAL"@,
        LayerStatus::Fail.text() == "FAIL"@,
        LayerStatus::Skipped.text() == "SKIPPED"@,
        Severity::Critical.text() == "CRITICAL"@,
        Severity::High.text() == "HIGH"@,
        Severity::Medium.text() == "MEDIUM"@,
        Severity::Low.text() == "LOW"@,
        Severity::Info.text() == "INFO"@,
{
}

/// The short form of an identifier in ASCII is its first eight characters.
pub proof fn law_short_identifiers(id: Seq<char>)
    ensures
        short_id(id) == id || text::byte_front(id, 8) == Some(short_id(id)),
        text::byte_front(id, 8) matches Some(s) ==> short_id(id) == s,
        failed_metrics().failed == 1 && failed_metrics().tests_run == 0 && failed_metrics().passed
            == 0 && failed_metrics().coverage is None,
        no_metrics().failed == 0 && no_metrics().tests_run == 0 && no_metrics().passed == 0
            && no_metrics().coverage is None && no_metrics().mutation_score is None,
{
}

} // verus!
