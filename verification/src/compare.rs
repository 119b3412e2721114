//! Report comparison for regression detection.
//!
//! A finding is identified by severity, code, location and message: codes alone repeat
//! across files. `Skipped` is neutral in both directions: that a runner stops or starts
//! being applicable is neither a regression nor an improvement, and what a layer no longer
//! reports because it was skipped is no progress. New critical and high findings, and
//! measurements that drop, are regressions in any layer.
use vstd::prelude::*;

use crate::order;
use crate::order::{stable_order, Key};
use crate::percent;
use crate::percent::Percent;
use crate::report;
use crate::report::{BarzelReport, Finding, LayerResult, LayerStatus, ReportStatus, Severity};
use crate::text;
use crate::time::Timestamp;

verus! {

#[derive(Debug, Clone, Copy, PartialEq, Eq, Structural)]
pub enum Verdict {
    Regressed,
    Improved,
    Unchanged,
}

/// Differences of the counts of findings. Positive: more findings in the newer report.
#[derive(Debug, Clone, Copy, PartialEq, Eq, Structural)]
pub struct SummaryDelta {
    pub critical: i64,
    pub high: i64,
    pub medium: i64,
    pub low: i64,
    pub total: i64,
}

/// A finding that appeared or disappeared between baseline and head.
#[derive(Debug)]
pub struct FindingChange {
    pub code: String,
    pub severity: Severity,
    pub location: Option<String>,
    pub message: String,
}

/// The model of a `FindingChange`.
pub struct FindingChangeV {
    pub code: Seq<char>,
    pub severity: Severity,
    pub location: Option<Seq<char>>,
    pub message: Seq<char>,
}

#[derive(Debug)]
pub struct LayerChange {
    pub layer: String,
    pub runner: String,
    /// Status in baseline (None if layer did not exist in baseline).
    pub status_from: Option<LayerStatus>,
    /// Status in head (None if layer was removed).
    pub status_to: Option<LayerStatus>,
    /// Findings present in head but not in baseline for this layer.
    pub new_findings: Vec<FindingChange>,
    /// Findings present in baseline but not in head.
    pub resolved_findings: Vec<FindingChange>,
    /// Coverage change (head − baseline). None when either report lacks coverage.
    pub coverage_delta: Option<Percent>,
    /// Mutation score change (head − baseline). None when either lacks a mutation score.
    pub mutation_score_delta: Option<Percent>,
}

/// The model of a `LayerChange`.
pub struct LayerChangeV {
    pub layer: Seq<char>,
    pub runner: Seq<char>,
    pub status_from: Option<LayerStatus>,
    pub status_to: Option<LayerStatus>,
    pub new_findings: Seq<FindingChangeV>,
    pub resolved_findings: Seq<FindingChangeV>,
    pub coverage_delta: Option<Percent>,
    pub mutation_score_delta: Option<Percent>,
}

#[allow(inconsistent_fields)]
#[derive(Debug)]
pub enum Regression {
    StatusWorsened { layer: String, runner: String, from: LayerStatus, to: LayerStatus },
    NewFinding {
        layer: String,
        runner: String,
        code: String,
        severity: Severity,
        message: String,
        location: Option<String>,
    },
    CoverageDrop { layer: String, runner: String, from: Percent, to: Percent, delta: Percent },
    MutationScoreDrop { layer: String, runner: String, from: Percent, to: Percent, delta: Percent },
}

/// The model of a `Regression`.
#[allow(inconsistent_fields)]
pub enum RegressionV {
    StatusWorsened { layer: Seq<char>, runner: Seq<char>, from: LayerStatus, to: LayerStatus },
    NewFinding {
        layer: Seq<char>,
        runner: Seq<char>,
        code: Seq<char>,
        severity: Severity,
        message: Seq<char>,
        location: Option<Seq<char>>,
    },
    CoverageDrop { layer: Seq<char>, runner: Seq<char>, from: Percent, to: Percent, delta: Percent },
    MutationScoreDrop {
        layer: Seq<char>,
        runner: Seq<char>,
        from: Percent,
        to: Percent,
        delta: Percent,
    },
}

#[allow(inconsistent_fields)]
#[derive(Debug)]
pub enum Improvement {
    StatusImproved { layer: String, runner: String, from: LayerStatus, to: LayerStatus },
    FindingResolved {
        layer: String,
        runner: String,
        code: String,
        severity: Severity,
        location: Option<String>,
    },
    CoverageImproved { layer: String, runner: String, from: Percent, to: Percent, delta: Percent },
    MutationScoreImproved {
        layer: String,
        runner: String,
        from: Percent,
        to: Percent,
        delta: Percent,
    },
}

/// The model of an `Improvement`.
#[allow(inconsistent_fields)]
pub enum ImprovementV {
    StatusImproved { layer: Seq<char>, runner: Seq<char>, from: LayerStatus, to: LayerStatus },
    FindingResolved {
        layer: Seq<char>,
        runner: Seq<char>,
        code: Seq<char>,
        severity: Severity,
        location: Option<Seq<char>>,
    },
    CoverageImproved {
        layer: Seq<char>,
        runner: Seq<char>,
        from: Percent,
        to: Percent,
        delta: Percent,
    },
    MutationScoreImproved {
        layer: Seq<char>,
        runner: Seq<char>,
        from: Percent,
        to: Percent,
        delta: Percent,
    },
}

#[derive(Debug)]
pub struct ReportComparison {
    pub baseline_id: String,
    pub head_id: String,
    pub baseline_timestamp: Timestamp,
    pub head_timestamp: Timestamp,
    pub baseline_status: ReportStatus,
    pub head_status: ReportStatus,
    pub summary_delta: SummaryDelta,
    pub layer_changes: Vec<LayerChange>,
    /// Sorted by severity priority, then layer, runner, code, location.
    pub regressions: Vec<Regression>,
    pub improvements: Vec<Improvement>,
    pub verdict: Verdict,
}

/// Head minus baseline of the measurements of one layer. Each is read only where
/// both reports hold the measurement.
#[derive(Debug, Clone, Copy, PartialEq, Eq, Structural)]
pub struct LayerDifference {
    pub coverage: Percent,
    pub mutation_score: Percent,
}

/// The measurements of one layer in both reports, of which differences are taken.
#[derive(Debug, Clone, Copy)]
pub struct LayerMeasurements {
    pub coverage_from: Option<Percent>,
    pub coverage_to: Option<Percent>,
    pub mutation_score_from: Option<Percent>,
    pub mutation_score_to: Option<Percent>,
}

impl View for FindingChange {
    type V = FindingChangeV;

    open spec fn view(&self) -> FindingChangeV {
        FindingChangeV {
            code: self.code@,
            severity: self.severity,
            location: text::opt_view(self.location),
            message: self.message@,
        }
    }
}

pub open spec fn changes_view(v: Seq<FindingChange>) -> Seq<FindingChangeV> {
    v.map_values(|c: FindingChange| c@)
}

impl View for LayerChange {
    type V = LayerChangeV;

    open spec fn view(&self) -> LayerChangeV {
        LayerChangeV {
            layer: self.layer@,
            runner: self.runner@,
            status_from: self.status_from,
            status_to: self.status_to,
            new_findings: changes_view(self.new_findings@),
            resolved_findings: changes_view(self.resolved_findings@),
            coverage_delta: self.coverage_delta,
            mutation_score_delta: self.mutation_score_delta,
        }
    }
}

impl View for Regression {
    type V = RegressionV;

    open spec fn view(&self) -> RegressionV {
        match *self {
            Regression::StatusWorsened { layer, runner, from, to } => RegressionV::StatusWorsened {
                layer: layer@,
                runner: runner@,
                from,
                to,
            },
            Regression::NewFinding { layer, runner, code, severity, message, location } =>
                RegressionV::NewFinding {
                layer: layer@,
                runner: runner@,
                code: code@,
                severity,
                message: message@,
                location: text::opt_view(location),
            },
            Regression::CoverageDrop { layer, runner, from, to, delta } =>
                RegressionV::CoverageDrop { layer: layer@, runner: runner@, from, to, delta },
            Regression::MutationScoreDrop { layer, runner, from, to, delta } =>
                RegressionV::MutationScoreDrop { layer: layer@, runner: runner@, from, to, delta },
        }
    }
}

pub open spec fn regressions_view(v: Seq<Regression>) -> Seq<RegressionV> {
    v.map_values(|r: Regression| r@)
}

impl View for Improvement {
    type V = ImprovementV;

    open spec fn view(&self) -> ImprovementV {
        match *self {
            Improvement::StatusImproved { layer, runner, from, to } =>
                ImprovementV::StatusImproved { layer: layer@, runner: runner@, from, to },
            Improvement::FindingResolved { layer, runner, code, severity, location } =>
                ImprovementV::FindingResolved {
                layer: layer@,
                runner: runner@,
                code: code@,
                severity,
                location: text::opt_view(location),
            },
            Improvement::CoverageImproved { layer, runner, from, to, delta } =>
                ImprovementV::CoverageImproved { layer: layer@, runner: runner@, from, to, delta },
            Improvement::MutationScoreImproved { layer, runner, from, to, delta } =>
                ImprovementV::MutationScoreImproved {
                layer: layer@,
                runner: runner@,
                from,
                to,
                delta,
            },
        }
    }
}

pub open spec fn improvements_view(v: Seq<Improvement>) -> Seq<ImprovementV> {
    v.map_values(|i: Improvement| i@)
}

// ── statuses ────────────────────────────────────────────────────────────────

/// Higher is worse.
pub open spec fn rank_of(s: LayerStatus) -> u8 {
    match s {
        LayerStatus::Pass => 0,
        LayerStatus::Skipped => 1,
        LayerStatus::Partial => 2,
        LayerStatus::Fail => 3,
    }
}

pub open spec fn worsened(from: LayerStatus, to: LayerStatus) -> bool {
    from != LayerStatus::Skipped && to != LayerStatus::Skipped && rank_of(to) > rank_of(from)
}

pub open spec fn improved(from: LayerStatus, to: LayerStatus) -> bool {
    from != LayerStatus::Skipped && to != LayerStatus::Skipped && rank_of(to) < rank_of(from)
}

pub fn status_rank(s: LayerStatus) -> (r: u8)
    ensures
        r == rank_of(s),
{
    match s {
        LayerStatus::Pass => 0,
        LayerStatus::Skipped => 1,
        LayerStatus::Partial => 2,
        LayerStatus::Fail => 3,
    }
}

pub fn status_worsened(from: LayerStatus, to: LayerStatus) -> (r: bool)
    ensures
        r == worsened(from, to),
{
    if from == LayerStatus::Skipped || to == LayerStatus::Skipped {
        return false;
    }
    status_rank(to) > status_rank(from)
}

pub fn status_improved(from: LayerStatus, to: LayerStatus) -> (r: bool)
    ensures
        r == improved(from, to),
{
    if from == LayerStatus::Skipped || to == LayerStatus::Skipped {
        return false;
    }
    status_rank(to) < status_rank(from)
}

/// The most severe findings come first.
pub open spec fn priority_of(s: Severity) -> int {
    match s {
        Severity::Critical => 0,
        Severity::High => 1,
        Severity::Medium => 2,
        Severity::Low => 3,
        Severity::Info => 4,
    }
}

pub fn severity_priority(s: Severity) -> (r: u8)
    ensures
        r == priority_of(s),
{
    match s {
        Severity::Critical => 0,
        Severity::High => 1,
        Severity::Medium => 2,
        Severity::Low => 3,
        Severity::Info => 4,
    }
}

// ── finding changes ─────────────────────────────────────────────────────────

/// What identifies a finding within a layer.
pub open spec fn change_of(f: report::FindingV) -> FindingChangeV {
    FindingChangeV {
        code: f.code,
        severity: f.severity,
        location: f.location,
        message: f.message,
    }
}

pub open spec fn changes_of(findings: Seq<report::FindingV>) -> Seq<FindingChangeV> {
    findings.map_values(|f: report::FindingV| change_of(f))
}

pub open spec fn or_empty(o: Option<Seq<char>>) -> Seq<char> {
    match o {
        Some(s) => s,
        None => Seq::empty(),
    }
}

pub open spec fn change_key(c: FindingChangeV) -> order::KeyV {
    order::KeyV {
        major: priority_of(c.severity),
        minor: 0,
        texts: seq![c.code, or_empty(c.location)],
    }
}

/// Sorted by severity priority, then code, then location.
pub open spec fn is_sorted(list: Seq<FindingChangeV>) -> bool {
    forall|i: int, j: int|
        0 <= i < j < list.len() ==> !order::key_less(
            change_key(#[trigger] list[j]),
            change_key(#[trigger] list[i]),
        )
}

/// `list` holds, once each and sorted, what is in `these` and not in `those`.
pub open spec fn is_change_list(
    list: Seq<FindingChangeV>,
    these: Seq<FindingChangeV>,
    those: Seq<FindingChangeV>,
) -> bool {
    &&& list.no_duplicates()
    &&& forall|c: FindingChangeV|
        #[trigger] list.contains(c) <==> these.contains(c) && !those.contains(c)
    &&& is_sorted(list)
}

fn key_from(f: &Finding) -> (r: FindingChange)
    ensures
        r@ == change_of(f@),
{
    FindingChange {
        code: f.code.clone(),
        severity: f.severity,
        location: text::copy_opt(&f.location),
        message: f.message.clone(),
    }
}

fn copy_change(c: &FindingChange) -> (r: FindingChange)
    ensures
        r == *c,
{
    FindingChange {
        code: c.code.clone(),
        severity: c.severity,
        location: text::copy_opt(&c.location),
        message: c.message.clone(),
    }
}

fn same_opt(a: &Option<String>, b: &Option<String>) -> (r: bool)
    ensures
        r == (text::opt_view(*a) == text::opt_view(*b)),
{
    match (a, b) {
        (Some(x), Some(y)) => text::same(x.as_str(), y.as_str()),
        (None, None) => true,
        _ => false,
    }
}

fn same_change(a: &FindingChange, b: &FindingChange) -> (r: bool)
    ensures
        r == (a@ == b@),
{
    a.severity == b.severity && text::same(a.code.as_str(), b.code.as_str()) && same_opt(
        &a.location,
        &b.location,
    ) && text::same(a.message.as_str(), b.message.as_str())
}

fn holds_change(v: &Vec<FindingChange>, c: &FindingChange) -> (r: bool)
    ensures
        r == changes_view(v@).contains(c@),
{
    let mut i: usize = 0;
    while i < v.len()
        invariant
            i <= v@.len(),
            forall|k: int| 0 <= k < i ==> changes_view(v@)[k] != c@,
        decreases v@.len() - i,
    {
        if same_change(&v[i], c) {
            assert(changes_view(v@)[i as int] == c@);
            return true;
        }
        i += 1;
    }
    false
}

fn keys_from(v: &Vec<Finding>) -> (r: Vec<FindingChange>)
    ensures
        changes_view(r@) == changes_of(report::findings_view(v@)),
{
    let mut r: Vec<FindingChange> = Vec::new();
    let mut i: usize = 0;
    while i < v.len()
        invariant
            i <= v@.len(),
            r@.len() == i,
            forall|k: int| 0 <= k < i ==> (#[trigger] r@[k])@ == change_of(v@[k]@),
        decreases v@.len() - i,
    {
        r.push(key_from(&v[i]));
        i += 1;
    }
    assert(changes_view(r@) =~= changes_of(report::findings_view(v@)));
    r
}

fn text_or_empty(o: &Option<String>) -> (r: String)
    ensures
        r@ == or_empty(text::opt_view(*o)),
{
    match o {
        Some(s) => s.clone(),
        None => String::new(),
    }
}

fn pair(a: String, b: String) -> (r: Vec<String>)
    ensures
        text::views(r@) == seq![a@, b@],
{
    let mut r: Vec<String> = Vec::new();
    r.push(a);
    r.push(b);
    assert(text::views(r@) =~= seq![a@, b@]);
    r
}

/// Sorts by severity priority, then code, then location; equal keys keep their order.
pub fn sort_finding_changes(v: &Vec<FindingChange>) -> (r: Vec<FindingChange>)
    ensures
        order::is_stable_sort(
            changes_view(r@),
            changes_view(v@),
            |c: FindingChangeV| change_key(c),
        ),
{
    let ghost key = |c: FindingChangeV| change_key(c);
    let mut keys: Vec<Key> = Vec::new();
    let mut i: usize = 0;
    while i < v.len()
        invariant
            i <= v@.len(),
            keys@.len() == i,
            forall|k: int| 0 <= k < i ==> (#[trigger] keys@[k])@ == change_key(v@[k]@),
        decreases v@.len() - i,
    {
        let texts = pair(v[i].code.clone(), text_or_empty(&v[i].location));
        let k = Key { major: severity_priority(v[i].severity) as i64, minor: 0, texts };
        keys.push(k);
        i += 1;
    }
    let order = stable_order(&keys);
    let mut r: Vec<FindingChange> = Vec::new();
    let mut j: usize = 0;
    proof {
        assert(order::keys_of(keys@) =~= changes_view(v@).map_values(key));
    }
    while j < order.len()
        invariant
            j <= order@.len(),
            order::is_stable_order(order::positions(order@), changes_view(v@).map_values(key)),
            r@.len() == j,
            forall|k: int| 0 <= k < j ==> #[trigger] r@[k] == v@[order@[k] as int],
        decreases order@.len() - j,
    {
        assert(0 <= order::positions(order@)[j as int] < v@.len());
        r.push(copy_change(&v[order[j]]));
        j += 1;
    }
    proof {
        let o = order::positions(order@);
        let source = changes_view(v@);
        assert forall|k: int| 0 <= k < r@.len() implies changes_view(r@)[k] == source[o[k]] by {
            assert(0 <= o[k] < v@.len());
        }
        assert(changes_view(r@) =~= Seq::new(o.len(), |k: int| source[o[k]]));
    }
    r
}

/// What the findings of one layer have and those of another do not, sorted.
fn changes_between(these: &Vec<Finding>, those: &Vec<Finding>) -> (r: Vec<FindingChange>)
    ensures
        is_change_list(
            changes_view(r@),
            changes_of(report::findings_view(these@)),
            changes_of(report::findings_view(those@)),
        ),
{
    let a = keys_from(these);
    let b = keys_from(those);
    let ghost av = changes_view(a@);
    let ghost bv = changes_view(b@);
    let mut out: Vec<FindingChange> = Vec::new();
    let mut i: usize = 0;
    while i < a.len()
        invariant
            i <= a@.len(),
            av == changes_view(a@),
            bv == changes_view(b@),
            changes_view(out@).no_duplicates(),
            forall|c: FindingChangeV|
                #[trigger] changes_view(out@).contains(c) <==> av.subrange(0, i as int).contains(c)
                    && !bv.contains(c),
        decreases a@.len() - i,
    {
        let ghost before = changes_view(out@);
        let fresh = !holds_change(&b, &a[i]) && !holds_change(&out, &a[i]);
        proof {
            let c = a@[i as int]@;
            let front = av.subrange(0, i as int);
            let next = av.subrange(0, i + 1);
            assert(next == front.push(c));
            assert forall|x: FindingChangeV| next.contains(x) <==> front.contains(x) || x == c by {
                if front.contains(x) {
                    let k = choose|k: int| 0 <= k < front.len() && front[k] == x;
                    assert(next[k] == x);
                }
                if x == c {
                    assert(next[i as int] == x);
                }
            }
        }
        if fresh {
            out.push(copy_change(&a[i]));
            proof {
                let c = a@[i as int]@;
                let now = changes_view(out@);
                assert(now == before.push(c));
                assert forall|x: FindingChangeV| now.contains(x) <==> before.contains(x) || x == c by {
                    if before.contains(x) {
                        let k = choose|k: int| 0 <= k < before.len() && before[k] == x;
                        assert(now[k] == x);
                    }
                    if x == c {
                        assert(now[before.len() as int] == x);
                    }
                }
            }
        }
        i += 1;
    }
    assert(av.subrange(0, i as int) == av);
    let r = sort_finding_changes(&out);
    proof {
        let key = |c: FindingChangeV| change_key(c);
        order::law_stable_sort_keeps_items(changes_view(r@), changes_view(out@), key);
        order::law_stable_sort_is_sorted(changes_view(r@), changes_view(out@), key);
        order::lemma_stable_sort_distinct(changes_view(r@), changes_view(out@), key);
        assert forall|i: int, j: int|
            0 <= i < j < changes_view(r@).len() implies !order::key_less(
            change_key(#[trigger] changes_view(r@)[j]),
            change_key(#[trigger] changes_view(r@)[i]),
        ) by {
            assert(!order::key_less(key(changes_view(r@)[j]), key(changes_view(r@)[i])));
        }
    }
    r
}

// ── one layer ───────────────────────────────────────────────────────────────

/// A layer as it stands in both reports.
pub struct LayerPairV {
    pub name: Seq<char>,
    pub runner: Seq<char>,
    pub base: Option<report::LayerResultV>,
    pub head: Option<report::LayerResultV>,
}

pub open spec fn status_in(l: Option<report::LayerResultV>) -> Option<LayerStatus> {
    match l {
        Some(l) => Some(l.status),
        None => None,
    }
}

pub open spec fn findings_in(l: Option<report::LayerResultV>) -> Seq<report::FindingV> {
    match l {
        Some(l) => l.findings,
        None => Seq::empty(),
    }
}

pub open spec fn coverage_in(l: Option<report::LayerResultV>) -> Option<Percent> {
    match l {
        Some(l) => l.metrics.coverage,
        None => None,
    }
}

pub open spec fn mutation_score_in(l: Option<report::LayerResultV>) -> Option<Percent> {
    match l {
        Some(l) => l.metrics.mutation_score,
        None => None,
    }
}

/// What head less base comes to: `difference`, but nothing for a number that stayed what it
/// was. Infinity less itself is no number, and what is no number stays none.
pub open spec fn settled_difference(base: Percent, head: Percent, difference: Percent) -> Percent {
    if base != head {
        difference
    } else if base.is_finite() {
        Percent { bits: percent::ZERO }
    } else {
        Percent { bits: percent::NO_NUMBER }
    }
}

/// The difference, where both reports hold the measurement.
pub open spec fn delta_of(
    base: Option<Percent>,
    head: Option<Percent>,
    difference: Percent,
) -> Option<Percent> {
    match (base, head) {
        (Some(b), Some(h)) => Some(settled_difference(b, h, difference)),
        _ => None,
    }
}

/// `c` tells what changed in a layer.
pub open spec fn is_layer_change(c: LayerChangeV, p: LayerPairV, d: LayerDifference) -> bool {
    &&& c.layer == p.name
    &&& c.runner == p.runner
    &&& c.status_from == status_in(p.base)
    &&& c.status_to == status_in(p.head)
    &&& is_change_list(
        c.new_findings,
        changes_of(findings_in(p.head)),
        changes_of(findings_in(p.base)),
    )
    &&& is_change_list(
        c.resolved_findings,
        changes_of(findings_in(p.base)),
        changes_of(findings_in(p.head)),
    )
    &&& c.coverage_delta == delta_of(coverage_in(p.base), coverage_in(p.head), d.coverage)
    &&& c.mutation_score_delta == delta_of(
        mutation_score_in(p.base),
        mutation_score_in(p.head),
        d.mutation_score,
    )
}

/// More than a tenth less.
pub open spec fn dropped(delta: Percent) -> bool {
    delta.under(Percent { bits: percent::MINUS_TENTH })
}

/// More than a tenth more.
pub open spec fn rose(delta: Percent) -> bool {
    (Percent { bits: percent::TENTH }).under(delta)
}

pub open spec fn is_severe(s: Severity) -> bool {
    s == Severity::Critical || s == Severity::High
}

/// The regressions that new findings are: the critical and the high ones.
pub open spec fn finding_regressions(
    layer: Seq<char>,
    runner: Seq<char>,
    list: Seq<FindingChangeV>,
) -> Seq<RegressionV>
    decreases list.len(),
{
    if list.len() == 0 {
        Seq::empty()
    } else {
        let before = finding_regressions(layer, runner, list.drop_last());
        let c = list.last();
        if is_severe(c.severity) {
            before.push(
                RegressionV::NewFinding {
                    layer,
                    runner,
                    code: c.code,
                    severity: c.severity,
                    message: c.message,
                    location: c.location,
                },
            )
        } else {
            before
        }
    }
}

/// The improvements that resolved findings are: all of them.
pub open spec fn finding_improvements(
    layer: Seq<char>,
    runner: Seq<char>,
    list: Seq<FindingChangeV>,
) -> Seq<ImprovementV> {
    list.map_values(
        |c: FindingChangeV|
            ImprovementV::FindingResolved {
                layer,
                runner,
                code: c.code,
                severity: c.severity,
                location: c.location,
            },
    )
}

pub open spec fn status_regressions(c: LayerChangeV) -> Seq<RegressionV> {
    match (c.status_from, c.status_to) {
        (Some(from), Some(to)) => if worsened(from, to) {
            seq![RegressionV::StatusWorsened { layer: c.layer, runner: c.runner, from, to }]
        } else {
            Seq::empty()
        },
        _ => Seq::empty(),
    }
}

pub open spec fn status_improvements(c: LayerChangeV) -> Seq<ImprovementV> {
    match (c.status_from, c.status_to) {
        (Some(from), Some(to)) => if improved(from, to) {
            seq![ImprovementV::StatusImproved { layer: c.layer, runner: c.runner, from, to }]
        } else {
            Seq::empty()
        },
        _ => Seq::empty(),
    }
}

pub open spec fn coverage_regressions(c: LayerChangeV, p: LayerPairV) -> Seq<RegressionV> {
    match c.coverage_delta {
        Some(delta) => if dropped(delta) {
            seq![
                RegressionV::CoverageDrop {
                    layer: c.layer,
                    runner: c.runner,
                    from: coverage_in(p.base)->0,
                    to: coverage_in(p.head)->0,
                    delta,
                },
            ]
        } else {
            Seq::empty()
        },
        None => Seq::empty(),
    }
}

pub open spec fn coverage_improvements(c: LayerChangeV, p: LayerPairV) -> Seq<ImprovementV> {
    match c.coverage_delta {
        Some(delta) => if rose(delta) {
            seq![
                ImprovementV::CoverageImproved {
                    layer: c.layer,
                    runner: c.runner,
                    from: coverage_in(p.base)->0,
                    to: coverage_in(p.head)->0,
                    delta,
                },
            ]
        } else {
            Seq::empty()
        },
        None => Seq::empty(),
    }
}

pub open spec fn mutation_regressions(c: LayerChangeV, p: LayerPairV) -> Seq<RegressionV> {
    match c.mutation_score_delta {
        Some(delta) => if dropped(delta) {
            seq![
                RegressionV::MutationScoreDrop {
                    layer: c.layer,
                    runner: c.runner,
                    from: mutation_score_in(p.base)->0,
                    to: mutation_score_in(p.head)->0,
                    delta,
                },
            ]
        } else {
            Seq::empty()
        },
        None => Seq::empty(),
    }
}

pub open spec fn mutation_improvements(c: LayerChangeV, p: LayerPairV) -> Seq<ImprovementV> {
    match c.mutation_score_delta {
        Some(delta) => if rose(delta) {
            seq![
                ImprovementV::MutationScoreImproved {
                    layer: c.layer,
                    runner: c.runner,
                    from: mutation_score_in(p.base)->0,
                    to: mutation_score_in(p.head)->0,
                    delta,
                },
            ]
        } else {
            Seq::empty()
        },
        None => Seq::empty(),
    }
}

/// The regressions of one layer: of its status, its findings, its measurements.
pub open spec fn regressions_of(c: LayerChangeV, p: LayerPairV) -> Seq<RegressionV> {
    status_regressions(c) + finding_regressions(c.layer, c.runner, c.new_findings)
        + coverage_regressions(c, p) + mutation_regressions(c, p)
}

/// The layer is skipped in one of the reports.
pub open spec fn is_skipped_once(c: LayerChangeV) -> bool {
    c.status_from == Some(LayerStatus::Skipped) || c.status_to == Some(LayerStatus::Skipped)
}

/// The improvements of one layer: of its status, its findings, its measurements. A layer
/// that is skipped in one of the reports has none: what a runner that did not run no
/// longer reports is no progress.
pub open spec fn improvements_of(c: LayerChangeV, p: LayerPairV) -> Seq<ImprovementV> {
    if is_skipped_once(c) {
        Seq::empty()
    } else {
        status_improvements(c) + finding_improvements(c.layer, c.runner, c.resolved_findings)
            + coverage_improvements(c, p) + mutation_improvements(c, p)
    }
}

pub open spec fn opt_layer(l: Option<&LayerResult>) -> Option<report::LayerResultV> {
    match l {
        Some(l) => Some(l@),
        None => None,
    }
}

/// The difference, where both reports hold the measurement.
pub fn delta_opt(base: Option<Percent>, head: Option<Percent>, difference: Percent) -> (r: Option<
    Percent,
>)
    ensures
        r == delta_of(base, head, difference),
{
    match (base, head) {
        (Some(b), Some(h)) => if b != h {
            Some(difference)
        } else if b.finite() {
            Some(Percent { bits: percent::ZERO })
        } else {
            Some(Percent { bits: percent::NO_NUMBER })
        },
        _ => None,
    }
}

/// What changed in a layer that stands in one report or in both.
fn layer_change(
    name: &str,
    runner: &str,
    base: Option<&LayerResult>,
    head: Option<&LayerResult>,
    d: LayerDifference,
) -> (r: LayerChange)
    ensures
        is_layer_change(
            r@,
            (LayerPairV {
                name: name@,
                runner: runner@,
                base: opt_layer(base),
                head: opt_layer(head),
            }),
            d,
        ),
{
    let none: Vec<Finding> = Vec::new();
    assert(report::findings_view(none@) =~= Seq::<report::FindingV>::empty());
    let base_findings = match base {
        Some(l) => &l.findings,
        None => &none,
    };
    let head_findings = match head {
        Some(l) => &l.findings,
        None => &none,
    };
    let new_findings = changes_between(head_findings, base_findings);
    let resolved_findings = changes_between(base_findings, head_findings);
    let base_coverage = match base {
        Some(l) => l.metrics.coverage,
        None => None,
    };
    let head_coverage = match head {
        Some(l) => l.metrics.coverage,
        None => None,
    };
    let base_score = match base {
        Some(l) => l.metrics.mutation_score,
        None => None,
    };
    let head_score = match head {
        Some(l) => l.metrics.mutation_score,
        None => None,
    };
    LayerChange {
        layer: name.to_string(),
        runner: runner.to_string(),
        status_from: match base {
            Some(l) => Some(l.status),
            None => None,
        },
        status_to: match head {
            Some(l) => Some(l.status),
            None => None,
        },
        new_findings,
        resolved_findings,
        coverage_delta: delta_opt(base_coverage, head_coverage, d.coverage),
        mutation_score_delta: delta_opt(base_score, head_score, d.mutation_score),
    }
}

fn push_regression(v: &mut Vec<Regression>, r: Regression)
    ensures
        regressions_view(final(v)@) == regressions_view(old(v)@).push(r@),
{
    v.push(r);
    assert(regressions_view(v@) =~= regressions_view(old(v)@).push(r@));
}

fn push_improvement(v: &mut Vec<Improvement>, i: Improvement)
    ensures
        improvements_view(final(v)@) == improvements_view(old(v)@).push(i@),
{
    v.push(i);
    assert(improvements_view(v@) =~= improvements_view(old(v)@).push(i@));
}

/// Appends the regressions of one layer.
fn add_regressions(
    out: &mut Vec<Regression>,
    c: &LayerChange,
    base: Option<&LayerResult>,
    head: Option<&LayerResult>,
    d: LayerDifference,
)
    requires
        is_layer_change(
            c@,
            (LayerPairV {
                name: c@.layer,
                runner: c@.runner,
                base: opt_layer(base),
                head: opt_layer(head),
            }),
            d,
        ),
    ensures
        regressions_view(final(out)@) == regressions_view(old(out)@) + regressions_of(
            c@,
            (LayerPairV {
                name: c@.layer,
                runner: c@.runner,
                base: opt_layer(base),
                head: opt_layer(head),
            }),
        ),
{
    let ghost p = LayerPairV {
        name: c@.layer,
        runner: c@.runner,
        base: opt_layer(base),
        head: opt_layer(head),
    };
    let ghost v0 = regressions_view(out@);
    if let (Some(from), Some(to)) = (c.status_from, c.status_to) {
        if status_worsened(from, to) {
            push_regression(
                out,
                Regression::StatusWorsened {
                    layer: c.layer.clone(),
                    runner: c.runner.clone(),
                    from,
                    to,
                },
            );
        }
    }
    let ghost v1 = regressions_view(out@);
    assert(v1 =~= v0 + status_regressions(c@));
    let mut i: usize = 0;
    assert(changes_view(c.new_findings@).subrange(0, 0) =~= Seq::<FindingChangeV>::empty());
    assert(v1 =~= v1 + finding_regressions(c.layer@, c.runner@, Seq::empty()));
    while i < c.new_findings.len()
        invariant
            i <= c.new_findings@.len(),
            regressions_view(out@) == v1 + finding_regressions(
                c.layer@,
                c.runner@,
                changes_view(c.new_findings@).subrange(0, i as int),
            ),
        decreases c.new_findings@.len() - i,
    {
        let f = &c.new_findings[i];
        proof {
            let next = changes_view(c.new_findings@).subrange(0, i + 1);
            assert(next.drop_last() =~= changes_view(c.new_findings@).subrange(0, i as int));
            assert(next.last() == f@);
        }
        if f.severity == Severity::Critical || f.severity == Severity::High {
            push_regression(
                out,
                Regression::NewFinding {
                    layer: c.layer.clone(),
                    runner: c.runner.clone(),
                    code: f.code.clone(),
                    severity: f.severity,
                    message: f.message.clone(),
                    location: text::copy_opt(&f.location),
                },
            );
        }
        i += 1;
        assert(regressions_view(out@) =~= v1 + finding_regressions(
            c.layer@,
            c.runner@,
            changes_view(c.new_findings@).subrange(0, i as int),
        ));
    }
    assert(changes_view(c.new_findings@).subrange(0, i as int) =~= c@.new_findings);
    let ghost v2 = regressions_view(out@);
    if let (Some(delta), Some(b), Some(h)) = (c.coverage_delta, base, head) {
        if let (Some(from), Some(to)) = (b.metrics.coverage, h.metrics.coverage) {
            if delta.below(Percent { bits: percent::MINUS_TENTH }) {
                push_regression(
                    out,
                    Regression::CoverageDrop {
                        layer: c.layer.clone(),
                        runner: c.runner.clone(),
                        from,
                        to,
                        delta,
                    },
                );
            }
        }
    }
    let ghost v3 = regressions_view(out@);
    assert(v3 =~= v2 + coverage_regressions(c@, p));
    if let (Some(delta), Some(b), Some(h)) = (c.mutation_score_delta, base, head) {
        if let (Some(from), Some(to)) = (b.metrics.mutation_score, h.metrics.mutation_score) {
            if delta.below(Percent { bits: percent::MINUS_TENTH }) {
                push_regression(
                    out,
                    Regression::MutationScoreDrop {
                        layer: c.layer.clone(),
                        runner: c.runner.clone(),
                        from,
                        to,
                        delta,
                    },
                );
            }
        }
    }
    let ghost v4 = regressions_view(out@);
    assert(v4 =~= v3 + mutation_regressions(c@, p));
    assert(v4 =~= v0 + regressions_of(c@, p));
}

/// Appends the improvements of one layer.
fn add_improvements(
    out: &mut Vec<Improvement>,
    c: &LayerChange,
    base: Option<&LayerResult>,
    head: Option<&LayerResult>,
    d: LayerDifference,
)
    requires
        is_layer_change(
            c@,
            (LayerPairV {
                name: c@.layer,
                runner: c@.runner,
                base: opt_layer(base),
                head: opt_layer(head),
            }),
            d,
        ),
    ensures
        improvements_view(final(out)@) == improvements_view(old(out)@) + improvements_of(
            c@,
            (LayerPairV {
                name: c@.layer,
                runner: c@.runner,
                base: opt_layer(base),
                head: opt_layer(head),
            }),
        ),
{
    let ghost p = LayerPairV {
        name: c@.layer,
        runner: c@.runner,
        base: opt_layer(base),
        head: opt_layer(head),
    };
    let ghost v0 = improvements_view(out@);
    if c.status_from == Some(LayerStatus::Skipped) || c.status_to == Some(LayerStatus::Skipped) {
        assert(v0 =~= v0 + improvements_of(c@, p));
        return;
    }
    if let (Some(from), Some(to)) = (c.status_from, c.status_to) {
        if status_improved(from, to) {
            push_improvement(
                out,
                Improvement::StatusImproved {
                    layer: c.layer.clone(),
                    runner: c.runner.clone(),
                    from,
                    to,
                },
            );
        }
    }
    let ghost v1 = improvements_view(out@);
    assert(v1 =~= v0 + status_improvements(c@));
    let ghost all = finding_improvements(c.layer@, c.runner@, c@.resolved_findings);
    let mut i: usize = 0;
    assert(v1 =~= v1 + all.subrange(0, 0));
    while i < c.resolved_findings.len()
        invariant
            i <= c.resolved_findings@.len(),
            all == finding_improvements(c.layer@, c.runner@, c@.resolved_findings),
            improvements_view(out@) == v1 + all.subrange(0, i as int),
        decreases c.resolved_findings@.len() - i,
    {
        let f = &c.resolved_findings[i];
        push_improvement(
            out,
            Improvement::FindingResolved {
                layer: c.layer.clone(),
                runner: c.runner.clone(),
                code: f.code.clone(),
                severity: f.severity,
                location: text::copy_opt(&f.location),
            },
        );
        i += 1;
        assert(improvements_view(out@) =~= v1 + all.subrange(0, i as int));
    }
    assert(all.subrange(0, i as int) =~= all);
    let ghost v2 = improvements_view(out@);
    if let (Some(delta), Some(b), Some(h)) = (c.coverage_delta, base, head) {
        if let (Some(from), Some(to)) = (b.metrics.coverage, h.metrics.coverage) {
            if (Percent { bits: percent::TENTH }).below(delta) {
                push_improvement(
                    out,
                    Improvement::CoverageImproved {
                        layer: c.layer.clone(),
                        runner: c.runner.clone(),
                        from,
                        to,
                        delta,
                    },
                );
            }
        }
    }
    let ghost v3 = improvements_view(out@);
    assert(v3 =~= v2 + coverage_improvements(c@, p));
    if let (Some(delta), Some(b), Some(h)) = (c.mutation_score_delta, base, head) {
        if let (Some(from), Some(to)) = (b.metrics.mutation_score, h.metrics.mutation_score) {
            if (Percent { bits: percent::TENTH }).below(delta) {
                push_improvement(
                    out,
                    Improvement::MutationScoreImproved {
                        layer: c.layer.clone(),
                        runner: c.runner.clone(),
                        from,
                        to,
                        delta,
                    },
                );
            }
        }
    }
    let ghost v4 = improvements_view(out@);
    assert(v4 =~= v3 + mutation_improvements(c@, p));
    assert(v4 =~= v0 + improvements_of(c@, p));
}

// ── whole reports ───────────────────────────────────────────────────────────

/// What tells layers apart: the layer's name and the runner.
pub struct LayerKey {
    pub name: String,
    pub runner: String,
}

pub open spec fn key_of(l: report::LayerResultV) -> (Seq<char>, Seq<char>) {
    (l.name, l.runner)
}

/// `keys`, and behind them the keys of `layers` that are not there yet.
pub open spec fn with_keys(
    keys: Seq<(Seq<char>, Seq<char>)>,
    layers: Seq<report::LayerResultV>,
) -> Seq<(Seq<char>, Seq<char>)>
    decreases layers.len(),
{
    if layers.len() == 0 {
        keys
    } else {
        let before = with_keys(keys, layers.drop_last());
        if before.contains(key_of(layers.last())) {
            before
        } else {
            before.push(key_of(layers.last()))
        }
    }
}

/// The keys of all layers of the baseline, then those that only head has.
pub open spec fn keys_of_both(
    base: Seq<report::LayerResultV>,
    head: Seq<report::LayerResultV>,
) -> Seq<(Seq<char>, Seq<char>)> {
    with_keys(base.map_values(|l: report::LayerResultV| key_of(l)), head)
}

/// The first layer with a key, from position `i` on.
pub open spec fn layer_from(
    layers: Seq<report::LayerResultV>,
    key: (Seq<char>, Seq<char>),
    i: int,
) -> Option<report::LayerResultV>
    decreases layers.len() - i,
{
    if i < 0 || i >= layers.len() {
        None
    } else if key_of(layers[i]) == key {
        Some(layers[i])
    } else {
        layer_from(layers, key, i + 1)
    }
}

/// The layer with a key, as it stands in both reports.
pub open spec fn pair_at(
    base: Seq<report::LayerResultV>,
    head: Seq<report::LayerResultV>,
    i: int,
) -> LayerPairV {
    let key = keys_of_both(base, head)[i];
    LayerPairV {
        name: key.0,
        runner: key.1,
        base: layer_from(base, key, 0),
        head: layer_from(head, key, 0),
    }
}

/// The regressions of the first `n` layers, layer by layer.
pub open spec fn regressions_up_to(
    changes: Seq<LayerChangeV>,
    base: Seq<report::LayerResultV>,
    head: Seq<report::LayerResultV>,
    n: int,
) -> Seq<RegressionV>
    decreases n,
{
    if n <= 0 {
        Seq::empty()
    } else {
        regressions_up_to(changes, base, head, n - 1) + regressions_of(
            changes[n - 1],
            pair_at(base, head, n - 1),
        )
    }
}

/// The improvements of the first `n` layers, layer by layer.
pub open spec fn improvements_up_to(
    changes: Seq<LayerChangeV>,
    base: Seq<report::LayerResultV>,
    head: Seq<report::LayerResultV>,
    n: int,
) -> Seq<ImprovementV>
    decreases n,
{
    if n <= 0 {
        Seq::empty()
    } else {
        improvements_up_to(changes, base, head, n - 1) + improvements_of(
            changes[n - 1],
            pair_at(base, head, n - 1),
        )
    }
}

/// Severity priority, layer, runner, code, location.
pub open spec fn regression_key(r: RegressionV) -> order::KeyV {
    match r {
        RegressionV::NewFinding { layer, runner, code, severity, location, .. } => order::KeyV {
            major: priority_of(severity),
            minor: 0,
            texts: seq![layer, runner, code, or_empty(location)],
        },
        RegressionV::StatusWorsened { layer, runner, .. } => order::KeyV {
            major: 0,
            minor: 0,
            texts: seq![layer, runner, Seq::empty(), Seq::empty()],
        },
        RegressionV::CoverageDrop { layer, runner, .. } => order::KeyV {
            major: 1,
            minor: 0,
            texts: seq![layer, runner, "coverage"@, Seq::empty()],
        },
        RegressionV::MutationScoreDrop { layer, runner, .. } => order::KeyV {
            major: 1,
            minor: 0,
            texts: seq![layer, runner, "mutation_score"@, Seq::empty()],
        },
    }
}

/// Any regression makes a regressed report; without one any improvement an improved one.
pub open spec fn verdict_of(regressions: nat, improvements: nat) -> Verdict {
    if regressions > 0 {
        Verdict::Regressed
    } else if improvements > 0 {
        Verdict::Improved
    } else {
        Verdict::Unchanged
    }
}

pub open spec fn is_summary_delta(d: SummaryDelta, base: report::Summary, head: report::Summary) -> bool {
    &&& d.critical == head.critical - base.critical
    &&& d.high == head.high - base.high
    &&& d.medium == head.medium - base.medium
    &&& d.low == head.low - base.low
    &&& d.total == head.total_findings - base.total_findings
}

pub open spec fn layer_changes_view(v: Seq<LayerChange>) -> Seq<LayerChangeV> {
    v.map_values(|c: LayerChange| c@)
}

/// Counts that fit the differences of a `SummaryDelta`.
pub open spec fn is_countable(s: report::Summary) -> bool {
    &&& s.critical <= i64::MAX
    &&& s.high <= i64::MAX
    &&& s.medium <= i64::MAX
    &&& s.low <= i64::MAX
    &&& s.total_findings <= i64::MAX
}

/// `c` compares `head` with `base`.
pub open spec fn is_comparison(
    c: ReportComparison,
    base: BarzelReport,
    head: BarzelReport,
    differences: Seq<LayerDifference>,
) -> bool {
    let b = report::layers_view(base.layers@);
    let h = report::layers_view(head.layers@);
    let n = keys_of_both(b, h).len() as int;
    let changes = layer_changes_view(c.layer_changes@);
    &&& c.baseline_id == base.id
    &&& c.head_id == head.id
    &&& c.baseline_timestamp == base.timestamp
    &&& c.head_timestamp == head.timestamp
    &&& c.baseline_status == base.status
    &&& c.head_status == head.status
    &&& is_summary_delta(c.summary_delta, base.summary, head.summary)
    &&& changes.len() == n
    &&& forall|i: int|
        0 <= i < n ==> is_layer_change(#[trigger] changes[i], pair_at(b, h, i), differences[i])
    &&& order::is_stable_sort(
        regressions_view(c.regressions@),
        regressions_up_to(changes, b, h, n),
        |r: RegressionV| regression_key(r),
    )
    &&& improvements_view(c.improvements@) == improvements_up_to(changes, b, h, n)
    &&& c.verdict == verdict_of(c.regressions@.len(), c.improvements@.len())
}

fn key_list(base: &Vec<LayerResult>, head: &Vec<LayerResult>) -> (r: Vec<LayerKey>)
    ensures
        r@.len() == keys_of_both(report::layers_view(base@), report::layers_view(head@)).len(),
        forall|i: int|
            0 <= i < r@.len() ==> (#[trigger] r@[i]).name@ == keys_of_both(
                report::layers_view(base@),
                report::layers_view(head@),
            )[i].0 && r@[i].runner@ == keys_of_both(
                report::layers_view(base@),
                report::layers_view(head@),
            )[i].1,
{
    let ghost b = report::layers_view(base@);
    let ghost h = report::layers_view(head@);
    let ghost bk = b.map_values(|l: report::LayerResultV| key_of(l));
    let mut r: Vec<LayerKey> = Vec::new();
    let mut i: usize = 0;
    while i < base.len()
        invariant
            i <= base@.len(),
            b == report::layers_view(base@),
            bk == b.map_values(|l: report::LayerResultV| key_of(l)),
            r@.len() == i,
            forall|k: int|
                0 <= k < i ==> (#[trigger] r@[k]).name@ == bk[k].0 && r@[k].runner@ == bk[k].1,
        decreases base@.len() - i,
    {
        r.push(LayerKey { name: base[i].name.clone(), runner: base[i].runner.clone() });
        i += 1;
    }
    let mut j: usize = 0;
    assert(h.subrange(0, 0) =~= Seq::<report::LayerResultV>::empty());
    while j < head.len()
        invariant
            j <= head@.len(),
            h == report::layers_view(head@),
            r@.len() == with_keys(bk, h.subrange(0, j as int)).len(),
            forall|k: int|
                0 <= k < r@.len() ==> (#[trigger] r@[k]).name@ == with_keys(
                    bk,
                    h.subrange(0, j as int),
                )[k].0 && r@[k].runner@ == with_keys(bk, h.subrange(0, j as int))[k].1,
        decreases head@.len() - j,
    {
        let ghost known = with_keys(bk, h.subrange(0, j as int));
        proof {
            let next = h.subrange(0, j + 1);
            assert(next.drop_last() =~= h.subrange(0, j as int));
            assert(next.last() == head@[j as int]@);
        }
        let seen = holds_key(&r, head[j].name.as_str(), head[j].runner.as_str());
        proof {
            let key = key_of(head@[j as int]@);
            if seen {
                let k = choose|k: int|
                    0 <= k < r@.len() && (#[trigger] r@[k]).name@ == head@[j as int].name@
                        && r@[k].runner@ == head@[j as int].runner@;
                assert(known[k] == key);
            } else if known.contains(key) {
                let k = choose|k: int| 0 <= k < known.len() && known[k] == key;
                assert(r@[k].name@ == head@[j as int].name@);
            }
        }
        if !seen {
            r.push(LayerKey { name: head[j].name.clone(), runner: head[j].runner.clone() });
        }
        j += 1;
    }
    assert(h.subrange(0, j as int) =~= h);
    r
}

fn holds_key(v: &Vec<LayerKey>, name: &str, runner: &str) -> (r: bool)
    ensures
        r == exists|k: int|
            0 <= k < v@.len() && (#[trigger] v@[k]).name@ == name@ && v@[k].runner@ == runner@,
{
    let mut i: usize = 0;
    while i < v.len()
        invariant
            i <= v@.len(),
            forall|k: int|
                0 <= k < i ==> !((#[trigger] v@[k]).name@ == name@ && v@[k].runner@ == runner@),
        decreases v@.len() - i,
    {
        if text::same(v[i].name.as_str(), name) && text::same(v[i].runner.as_str(), runner) {
            return true;
        }
        i += 1;
    }
    false
}

fn find_layer<'a>(layers: &'a Vec<LayerResult>, name: &str, runner: &str) -> (r: Option<
    &'a LayerResult,
>)
    ensures
        opt_layer(r) == layer_from(report::layers_view(layers@), (name@, runner@), 0),
{
    let ghost v = report::layers_view(layers@);
    let mut i: usize = 0;
    while i < layers.len()
        invariant
            i <= layers@.len(),
            v == report::layers_view(layers@),
            layer_from(v, (name@, runner@), i as int) == layer_from(v, (name@, runner@), 0),
        decreases layers@.len() - i,
    {
        assert(v[i as int] == layers@[i as int]@);
        if text::same(layers[i].name.as_str(), name) && text::same(
            layers[i].runner.as_str(),
            runner,
        ) {
            return Some(&layers[i]);
        }
        i += 1;
    }
    None
}

/// The measurements of each layer in both reports, in the order in which
/// `compare_reports` takes their differences.
pub fn measurements(baseline: &BarzelReport, head: &BarzelReport) -> (r: Vec<LayerMeasurements>)
    ensures
        r@.len() == keys_of_both(
            report::layers_view(baseline.layers@),
            report::layers_view(head.layers@),
        ).len(),
        forall|i: int|
            0 <= i < r@.len() ==> is_measurements(
                #[trigger] r@[i],
                pair_at(
                    report::layers_view(baseline.layers@),
                    report::layers_view(head.layers@),
                    i,
                ),
            ),
{
    let keys = key_list(&baseline.layers, &head.layers);
    let mut r: Vec<LayerMeasurements> = Vec::new();
    let mut i: usize = 0;
    let ghost b = report::layers_view(baseline.layers@);
    let ghost h = report::layers_view(head.layers@);
    while i < keys.len()
        invariant
            i <= keys@.len(),
            b == report::layers_view(baseline.layers@),
            h == report::layers_view(head.layers@),
            keys@.len() == keys_of_both(b, h).len(),
            forall|k: int|
                0 <= k < keys@.len() ==> (#[trigger] keys@[k]).name@ == keys_of_both(b, h)[k].0
                    && keys@[k].runner@ == keys_of_both(b, h)[k].1,
            r@.len() == i,
            forall|k: int| 0 <= k < i ==> is_measurements(#[trigger] r@[k], pair_at(b, h, k)),
        decreases keys@.len() - i,
    {
        let base_layer = find_layer(
            &baseline.layers,
            keys[i].name.as_str(),
            keys[i].runner.as_str(),
        );
        let head_layer = find_layer(&head.layers, keys[i].name.as_str(), keys[i].runner.as_str());
        assert(keys_of_both(b, h)[i as int] == (keys@[i as int].name@, keys@[i as int].runner@));
        let m = LayerMeasurements {
            coverage_from: match base_layer {
                Some(l) => l.metrics.coverage,
                None => None,
            },
            coverage_to: match head_layer {
                Some(l) => l.metrics.coverage,
                None => None,
            },
            mutation_score_from: match base_layer {
                Some(l) => l.metrics.mutation_score,
                None => None,
            },
            mutation_score_to: match head_layer {
                Some(l) => l.metrics.mutation_score,
                None => None,
            },
        };
        r.push(m);
        i += 1;
    }
    r
}

pub open spec fn is_measurements(m: LayerMeasurements, p: LayerPairV) -> bool {
    &&& m.coverage_from == coverage_in(p.base)
    &&& m.coverage_to == coverage_in(p.head)
    &&& m.mutation_score_from == mutation_score_in(p.base)
    &&& m.mutation_score_to == mutation_score_in(p.head)
}

fn four(a: String, b: String, c: String, d: String) -> (r: Vec<String>)
    ensures
        text::views(r@) == seq![a@, b@, c@, d@],
{
    let mut r: Vec<String> = Vec::new();
    r.push(a);
    r.push(b);
    r.push(c);
    r.push(d);
    assert(text::views(r@) =~= seq![a@, b@, c@, d@]);
    r
}

/// What regressions are sorted by.
pub fn regression_sort_key(r: &Regression) -> (k: Key)
    ensures
        k@ == regression_key(r@),
{
    match r {
        Regression::NewFinding { severity, layer, runner, code, location, .. } => Key {
            major: severity_priority(*severity) as i64,
            minor: 0,
            texts: four(layer.clone(), runner.clone(), code.clone(), text_or_empty(location)),
        },
        Regression::StatusWorsened { layer, runner, .. } => Key {
            major: 0,
            minor: 0,
            texts: four(layer.clone(), runner.clone(), String::new(), String::new()),
        },
        Regression::CoverageDrop { layer, runner, .. } => Key {
            major: 1,
            minor: 0,
            texts: four(layer.clone(), runner.clone(), "coverage".to_string(), String::new()),
        },
        Regression::MutationScoreDrop { layer, runner, .. } => Key {
            major: 1,
            minor: 0,
            texts: four(layer.clone(), runner.clone(), "mutation_score".to_string(), String::new()),
        },
    }
}

fn copy_regression(r: &Regression) -> (c: Regression)
    ensures
        c == *r,
{
    match r {
        Regression::StatusWorsened { layer, runner, from, to } => Regression::StatusWorsened {
            layer: layer.clone(),
            runner: runner.clone(),
            from: *from,
            to: *to,
        },
        Regression::NewFinding { layer, runner, code, severity, message, location } =>
            Regression::NewFinding {
            layer: layer.clone(),
            runner: runner.clone(),
            code: code.clone(),
            severity: *severity,
            message: message.clone(),
            location: text::copy_opt(location),
        },
        Regression::CoverageDrop { layer, runner, from, to, delta } => Regression::CoverageDrop {
            layer: layer.clone(),
            runner: runner.clone(),
            from: *from,
            to: *to,
            delta: *delta,
        },
        Regression::MutationScoreDrop { layer, runner, from, to, delta } =>
            Regression::MutationScoreDrop {
            layer: layer.clone(),
            runner: runner.clone(),
            from: *from,
            to: *to,
            delta: *delta,
        },
    }
}

fn sort_regressions(v: &Vec<Regression>) -> (r: Vec<Regression>)
    ensures
        order::is_stable_sort(
            regressions_view(r@),
            regressions_view(v@),
            |x: RegressionV| regression_key(x),
        ),
{
    let ghost key = |x: RegressionV| regression_key(x);
    let mut keys: Vec<Key> = Vec::new();
    let mut i: usize = 0;
    while i < v.len()
        invariant
            i <= v@.len(),
            keys@.len() == i,
            forall|k: int| 0 <= k < i ==> (#[trigger] keys@[k])@ == regression_key(v@[k]@),
        decreases v@.len() - i,
    {
        keys.push(regression_sort_key(&v[i]));
        i += 1;
    }
    let order = stable_order(&keys);
    assert(order::keys_of(keys@) =~= regressions_view(v@).map_values(key));
    let mut r: Vec<Regression> = Vec::new();
    let mut j: usize = 0;
    while j < order.len()
        invariant
            j <= order@.len(),
            order::is_stable_order(order::positions(order@), regressions_view(v@).map_values(key)),
            r@.len() == j,
            forall|k: int| 0 <= k < j ==> #[trigger] r@[k] == v@[order@[k] as int],
        decreases order@.len() - j,
    {
        assert(0 <= order::positions(order@)[j as int] < v@.len());
        r.push(copy_regression(&v[order[j]]));
        j += 1;
    }
    proof {
        let o = order::positions(order@);
        let source = regressions_view(v@);
        assert forall|k: int| 0 <= k < r@.len() implies regressions_view(r@)[k] == source[o[k]] by {
            assert(0 <= o[k] < v@.len());
        }
        assert(regressions_view(r@) =~= Seq::new(o.len(), |k: int| source[o[k]]));
    }
    r
}

/// Compares `baseline` (older) with `head` (newer). `differences` gives head minus
/// baseline for each entry of `measurements(baseline, head)`; where a measurement stayed
/// the same it is not looked at.
pub fn compare_reports(
    baseline: &BarzelReport,
    head: &BarzelReport,
    differences: &Vec<LayerDifference>,
) -> (r: ReportComparison)
    requires
        is_countable(baseline.summary),
        is_countable(head.summary),
        differences@.len() == keys_of_both(
            report::layers_view(baseline.layers@),
            report::layers_view(head.layers@),
        ).len(),
    ensures
        is_comparison(r, *baseline, *head, differences@),
{
    let ghost b = report::layers_view(baseline.layers@);
    let ghost h = report::layers_view(head.layers@);
    let summary_delta = SummaryDelta {
        critical: head.summary.critical as i64 - baseline.summary.critical as i64,
        high: head.summary.high as i64 - baseline.summary.high as i64,
        medium: head.summary.medium as i64 - baseline.summary.medium as i64,
        low: head.summary.low as i64 - baseline.summary.low as i64,
        total: head.summary.total_findings as i64 - baseline.summary.total_findings as i64,
    };
    let keys = key_list(&baseline.layers, &head.layers);
    let mut regressions: Vec<Regression> = Vec::new();
    let mut improvements: Vec<Improvement> = Vec::new();
    let mut layer_changes: Vec<LayerChange> = Vec::new();
    let mut i: usize = 0;
    assert(regressions_view(regressions@) =~= Seq::<RegressionV>::empty());
    assert(improvements_view(improvements@) =~= Seq::<ImprovementV>::empty());
    while i < keys.len()
        invariant
            i <= keys@.len(),
            b == report::layers_view(baseline.layers@),
            h == report::layers_view(head.layers@),
            keys@.len() == keys_of_both(b, h).len(),
            differences@.len() == keys@.len(),
            forall|k: int|
                0 <= k < keys@.len() ==> (#[trigger] keys@[k]).name@ == keys_of_both(b, h)[k].0
                    && keys@[k].runner@ == keys_of_both(b, h)[k].1,
            layer_changes@.len() == i,
            forall|k: int|
                0 <= k < i ==> is_layer_change(
                    #[trigger] layer_changes_view(layer_changes@)[k],
                    pair_at(b, h, k),
                    differences@[k],
                ),
            regressions_view(regressions@) == regressions_up_to(
                layer_changes_view(layer_changes@),
                b,
                h,
                i as int,
            ),
            improvements_view(improvements@) == improvements_up_to(
                layer_changes_view(layer_changes@),
                b,
                h,
                i as int,
            ),
        decreases keys@.len() - i,
    {
        let base_layer = find_layer(
            &baseline.layers,
            keys[i].name.as_str(),
            keys[i].runner.as_str(),
        );
        let head_layer = find_layer(&head.layers, keys[i].name.as_str(), keys[i].runner.as_str());
        assert(keys_of_both(b, h)[i as int] == (keys@[i as int].name@, keys@[i as int].runner@));
        let change = layer_change(
            keys[i].name.as_str(),
            keys[i].runner.as_str(),
            base_layer,
            head_layer,
            differences[i],
        );
        let ghost before = layer_changes_view(layer_changes@);
        add_regressions(&mut regressions, &change, base_layer, head_layer, differences[i]);
        add_improvements(&mut improvements, &change, base_layer, head_layer, differences[i]);
        layer_changes.push(change);
        proof {
            let now = layer_changes_view(layer_changes@);
            assert(now =~= before.push(change@));
            lemma_up_to_front(before, now, b, h, i as int);
            assert forall|k: int| 0 <= k < i + 1 implies is_layer_change(
                #[trigger] now[k],
                pair_at(b, h, k),
                differences@[k],
            ) by {
                if k < i {
                    assert(now[k] == before[k]);
                }
            }
        }
        i += 1;
    }
    let sorted = sort_regressions(&regressions);
    proof {
        order::law_stable_sort_keeps_items(
            regressions_view(sorted@),
            regressions_view(regressions@),
            |x: RegressionV| regression_key(x),
        );
    }
    let verdict = if sorted.len() > 0 {
        Verdict::Regressed
    } else if improvements.len() > 0 {
        Verdict::Improved
    } else {
        Verdict::Unchanged
    };
    ReportComparison {
        baseline_id: baseline.id.clone(),
        head_id: head.id.clone(),
        baseline_timestamp: baseline.timestamp,
        head_timestamp: head.timestamp,
        baseline_status: baseline.status,
        head_status: head.status,
        summary_delta,
        layer_changes,
        regressions: sorted,
        improvements,
        verdict,
    }
}

/// What the first layers add up to does not depend on the layers behind them.
proof fn lemma_up_to_front(
    a: Seq<LayerChangeV>,
    b: Seq<LayerChangeV>,
    base: Seq<report::LayerResultV>,
    head: Seq<report::LayerResultV>,
    n: int,
)
    requires
        0 <= n <= a.len(),
        n <= b.len(),
        forall|k: int| 0 <= k < n ==> a[k] == b[k],
    ensures
        regressions_up_to(a, base, head, n) == regressions_up_to(b, base, head, n),
        improvements_up_to(a, base, head, n) == improvements_up_to(b, base, head, n),
    decreases n,
{
    if n > 0 {
        lemma_up_to_front(a, b, base, head, n - 1);
    }
}

// ── laws ────────────────────────────────────────────────────────────────────

/// A layer that becomes or stops being skipped neither worsens nor improves.
pub proof fn law_skipped_is_neutral(s: LayerStatus)
    ensures
        !worsened(s, LayerStatus::Skipped),
        !worsened(LayerStatus::Skipped, s),
        !improved(s, LayerStatus::Skipped),
        !improved(LayerStatus::Skipped, s),
{
}

/// What worsens one way improves the other way, and nothing does both.
pub proof fn law_worse_and_better_mirror(a: LayerStatus, b: LayerStatus)
    ensures
        worsened(a, b) <==> improved(b, a),
        !(worsened(a, b) && improved(a, b)),
{
}

/// What is new one way is resolved the other way.
pub proof fn law_new_and_resolved_mirror(
    c: LayerChangeV,
    back: LayerChangeV,
    p: LayerPairV,
    d: LayerDifference,
    e: LayerDifference,
    x: FindingChangeV,
)
    requires
        is_layer_change(c, p, d),
        is_layer_change(
            back,
            (LayerPairV { name: p.name, runner: p.runner, base: p.head, head: p.base }),
            e,
        ),
    ensures
        c.new_findings.contains(x) <==> back.resolved_findings.contains(x),
        c.resolved_findings.contains(x) <==> back.new_findings.contains(x),
{
}

/// No finding is both new and resolved.
pub proof fn law_new_is_not_resolved(
    c: LayerChangeV,
    p: LayerPairV,
    d: LayerDifference,
    x: FindingChangeV,
)
    requires
        is_layer_change(c, p, d),
    ensures
        !(c.new_findings.contains(x) && c.resolved_findings.contains(x)),
{
}

proof fn lemma_no_changes(list: Seq<FindingChangeV>, these: Seq<FindingChangeV>)
    requires
        is_change_list(list, these, these),
    ensures
        list.len() == 0,
{
    if list.len() > 0 {
        assert(list.contains(list[0]));
    }
}

proof fn lemma_nothing_up_to(
    changes: Seq<LayerChangeV>,
    r: Seq<report::LayerResultV>,
    differences: Seq<LayerDifference>,
    n: int,
)
    requires
        0 <= n <= changes.len(),
        forall|i: int|
            0 <= i < n ==> is_layer_change(#[trigger] changes[i], pair_at(r, r, i), differences[i]),
    ensures
        regressions_up_to(changes, r, r, n).len() == 0,
        improvements_up_to(changes, r, r, n).len() == 0,
        forall|i: int| 0 <= i < n ==> is_unchanged(#[trigger] changes[i]),
    decreases n,
{
    if n > 0 {
        lemma_nothing_up_to(changes, r, differences, n - 1);
        let c = changes[n - 1];
        let p = pair_at(r, r, n - 1);
        assert(is_layer_change(c, p, differences[n - 1]));
        assert(p.base == p.head);
        lemma_no_changes(c.new_findings, changes_of(findings_in(p.head)));
        lemma_no_changes(c.resolved_findings, changes_of(findings_in(p.base)));
    }
}

/// A layer in which nothing changed.
pub open spec fn is_unchanged(c: LayerChangeV) -> bool {
    &&& c.status_from == c.status_to
    &&& c.new_findings.len() == 0
    &&& c.resolved_findings.len() == 0
}

/// A report compared with itself is unchanged: nothing is better or worse, no count and no
/// layer differs.
pub proof fn law_report_is_unchanged_from_itself(
    c: ReportComparison,
    r: BarzelReport,
    differences: Seq<LayerDifference>,
)
    requires
        is_comparison(c, r, r, differences),
    ensures
        c.verdict == Verdict::Unchanged,
        c.regressions@.len() == 0,
        c.improvements@.len() == 0,
        c.summary_delta == (SummaryDelta { critical: 0, high: 0, medium: 0, low: 0, total: 0 }),
        forall|i: int|
            0 <= i < c.layer_changes@.len() ==> is_unchanged((#[trigger] c.layer_changes@[i])@),
{
    let l = report::layers_view(r.layers@);
    let changes = layer_changes_view(c.layer_changes@);
    lemma_nothing_up_to(changes, l, differences, changes.len() as int);
    order::law_stable_sort_keeps_items(
        regressions_view(c.regressions@),
        regressions_up_to(changes, l, l, changes.len() as int),
        |x: RegressionV| regression_key(x),
    );
    assert(improvements_view(c.improvements@).len() == 0);
    assert forall|i: int| 0 <= i < c.layer_changes@.len() implies is_unchanged(
        (#[trigger] c.layer_changes@[i])@,
    ) by {
        assert(is_unchanged(changes[i]));
    }
}

/// The layer and the runner that an improvement is for.
pub open spec fn improvement_place(x: ImprovementV) -> (Seq<char>, Seq<char>) {
    match x {
        ImprovementV::StatusImproved { layer, runner, .. } => (layer, runner),
        ImprovementV::FindingResolved { layer, runner, .. } => (layer, runner),
        ImprovementV::CoverageImproved { layer, runner, .. } => (layer, runner),
        ImprovementV::MutationScoreImproved { layer, runner, .. } => (layer, runner),
    }
}

proof fn lemma_improvement_source(
    changes: Seq<LayerChangeV>,
    base: Seq<report::LayerResultV>,
    head: Seq<report::LayerResultV>,
    differences: Seq<LayerDifference>,
    n: int,
    j: int,
) -> (i: int)
    requires
        0 <= n <= changes.len(),
        forall|i: int|
            0 <= i < n ==> is_layer_change(
                #[trigger] changes[i],
                pair_at(base, head, i),
                differences[i],
            ),
        0 <= j < improvements_up_to(changes, base, head, n).len(),
    ensures
        0 <= i < n,
        !is_skipped_once(changes[i]),
        improvement_place(improvements_up_to(changes, base, head, n)[j]) == (
            changes[i].layer,
            changes[i].runner,
        ),
    decreases n,
{
    let front = improvements_up_to(changes, base, head, n - 1);
    let own = improvements_of(changes[n - 1], pair_at(base, head, n - 1));
    if j < front.len() {
        assert(improvements_up_to(changes, base, head, n)[j] == front[j]);
        lemma_improvement_source(changes, base, head, differences, n - 1, j)
    } else {
        let x = improvements_up_to(changes, base, head, n)[j];
        assert(x == own[j - front.len()]);
        n - 1
    }
}

/// Skipped is neutral: no improvement is listed for a layer that is skipped in one of the
/// reports, and neither becoming skipped nor ceasing to be is a change for the worse.
pub proof fn law_skipped_layers_do_not_improve(
    c: ReportComparison,
    base: BarzelReport,
    head: BarzelReport,
    differences: Seq<LayerDifference>,
    i: int,
    j: int,
)
    requires
        is_comparison(c, base, head, differences),
        0 <= i < c.layer_changes@.len(),
        is_skipped_once(c.layer_changes@[i]@),
        0 <= j < c.improvements@.len(),
    ensures
        improvement_place(c.improvements@[j]@) != (
            c.layer_changes@[i].layer@,
            c.layer_changes@[i].runner@,
        ),
        status_regressions(c.layer_changes@[i]@).len() == 0,
{
    let b = report::layers_view(base.layers@);
    let h = report::layers_view(head.layers@);
    let changes = layer_changes_view(c.layer_changes@);
    let n = changes.len() as int;
    assert(improvements_view(c.improvements@)[j] == c.improvements@[j]@);
    let k = lemma_improvement_source(changes, b, h, differences, n, j);
    assert(is_layer_change(changes[i], pair_at(b, h, i), differences[i]));
    assert(is_layer_change(changes[k], pair_at(b, h, k), differences[k]));
    assert(changes[i] == c.layer_changes@[i]@);
}

pub open spec fn as_regression(layer: Seq<char>, runner: Seq<char>, c: FindingChangeV) -> RegressionV {
    RegressionV::NewFinding {
        layer,
        runner,
        code: c.code,
        severity: c.severity,
        message: c.message,
        location: c.location,
    }
}

proof fn lemma_finding_regression_listed(
    layer: Seq<char>,
    runner: Seq<char>,
    list: Seq<FindingChangeV>,
    i: int,
)
    requires
        0 <= i < list.len(),
        is_severe(list[i].severity),
    ensures
        finding_regressions(layer, runner, list).contains(as_regression(layer, runner, list[i])),
    decreases list.len(),
{
    let all = finding_regressions(layer, runner, list);
    let before = finding_regressions(layer, runner, list.drop_last());
    if i == list.len() - 1 {
        assert(all.last() == as_regression(layer, runner, list[i]));
    } else {
        lemma_finding_regression_listed(layer, runner, list.drop_last(), i);
        let k = choose|k: int|
            0 <= k < before.len() && before[k] == as_regression(layer, runner, list[i]);
        assert(all[k] == before[k]);
    }
}

proof fn lemma_layer_listed(
    changes: Seq<LayerChangeV>,
    base: Seq<report::LayerResultV>,
    head: Seq<report::LayerResultV>,
    n: int,
    i: int,
    x: RegressionV,
)
    requires
        0 <= i < n <= changes.len(),
        regressions_of(changes[i], pair_at(base, head, i)).contains(x),
    ensures
        regressions_up_to(changes, base, head, n).contains(x),
    decreases n,
{
    let front = regressions_up_to(changes, base, head, n - 1);
    let own = regressions_of(changes[n - 1], pair_at(base, head, n - 1));
    if i == n - 1 {
        let k = choose|k: int| 0 <= k < own.len() && own[k] == x;
        assert((front + own)[front.len() + k] == x);
    } else {
        lemma_layer_listed(changes, base, head, n - 1, i, x);
        let k = choose|k: int| 0 <= k < front.len() && front[k] == x;
        assert((front + own)[k] == x);
    }
}

/// A new critical or high finding of any layer is listed as a regression, and the
/// report has regressed.
pub proof fn law_new_severe_finding_regresses(
    c: ReportComparison,
    base: BarzelReport,
    head: BarzelReport,
    differences: Seq<LayerDifference>,
    i: int,
    k: int,
)
    requires
        is_comparison(c, base, head, differences),
        0 <= i < c.layer_changes@.len(),
        0 <= k < c.layer_changes@[i].new_findings@.len(),
        is_severe(c.layer_changes@[i].new_findings@[k].severity),
    ensures
        regressions_view(c.regressions@).contains(
            as_regression(
                c.layer_changes@[i].layer@,
                c.layer_changes@[i].runner@,
                c.layer_changes@[i].new_findings@[k]@,
            ),
        ),
        c.verdict == Verdict::Regressed,
{
    let b = report::layers_view(base.layers@);
    let h = report::layers_view(head.layers@);
    let changes = layer_changes_view(c.layer_changes@);
    let n = changes.len() as int;
    let own = changes[i];
    let p = pair_at(b, h, i);
    let x = as_regression(own.layer, own.runner, own.new_findings[k]);
    lemma_finding_regression_listed(own.layer, own.runner, own.new_findings, k);
    let found = finding_regressions(own.layer, own.runner, own.new_findings);
    let j = choose|j: int| 0 <= j < found.len() && found[j] == x;
    assert(regressions_of(own, p)[status_regressions(own).len() + j] == x);
    lemma_layer_listed(changes, b, h, n, i, x);
    order::law_stable_sort_keeps_items(
        regressions_view(c.regressions@),
        regressions_up_to(changes, b, h, n),
        |x: RegressionV| regression_key(x),
    );
    assert(regressions_view(c.regressions@).contains(x));
}

/// Regressions are listed by severity priority, then layer, runner, code and location.
pub proof fn law_regressions_are_sorted(
    c: ReportComparison,
    base: BarzelReport,
    head: BarzelReport,
    differences: Seq<LayerDifference>,
    i: int,
    j: int,
)
    requires
        is_comparison(c, base, head, differences),
        0 <= i < j < c.regressions@.len(),
    ensures
        !order::key_less(regression_key(c.regressions@[j]@), regression_key(c.regressions@[i]@)),
{
    let b = report::layers_view(base.layers@);
    let h = report::layers_view(head.layers@);
    let changes = layer_changes_view(c.layer_changes@);
    let key = |x: RegressionV| regression_key(x);
    order::law_stable_sort_is_sorted(
        regressions_view(c.regressions@),
        regressions_up_to(changes, b, h, changes.len() as int),
        key,
    );
    let v = regressions_view(c.regressions@);
    assert(!order::key_less(key(v[j]), key(v[i])));
}

// ── laws on the reports themselves ──────────────────────────────────────────

/// The layer with this name and runner stands at `at` for the first time, or nowhere.
pub open spec fn stands_at(
    layers: Seq<LayerResult>,
    name: Seq<char>,
    runner: Seq<char>,
    at: Option<int>,
) -> bool {
    match at {
        Some(i) => 0 <= i < layers.len() && layers[i].name@ == name && layers[i].runner@ == runner
            && forall|k: int|
            0 <= k < i ==> !((#[trigger] layers[k]).name@ == name && layers[k].runner@ == runner),
        None => forall|k: int|
            0 <= k < layers.len() ==> !((#[trigger] layers[k]).name@ == name && layers[k].runner@
                == runner),
    }
}

/// The layer at `at` has a finding with this severity, code, location and message.
pub open spec fn has_finding(layers: Seq<LayerResult>, at: Option<int>, x: FindingChangeV) -> bool {
    match at {
        Some(i) => exists|k: int|
            0 <= k < layers[i].findings@.len() && (#[trigger] layers[i].findings@[k]).severity
                == x.severity && layers[i].findings@[k].code@ == x.code && text::opt_view(
                layers[i].findings@[k].location,
            ) == x.location && layers[i].findings@[k].message@ == x.message,
        None => false,
    }
}

proof fn lemma_layer_from(
    layers: Seq<LayerResult>,
    name: Seq<char>,
    runner: Seq<char>,
    at: Option<int>,
    i: int,
)
    requires
        stands_at(layers, name, runner, at),
        0 <= i,
        match at {
            Some(k) => i <= k,
            None => i <= layers.len(),
        },
    ensures
        layer_from(report::layers_view(layers), (name, runner), i) == (match at {
            Some(k) => Some(layers[k]@),
            None => None,
        }),
    decreases layers.len() - i,
{
    let v = report::layers_view(layers);
    if i < layers.len() {
        assert(v[i] == layers[i]@);
        assert(key_of(v[i]) == (layers[i].name@, layers[i].runner@));
        if at != Some(i) {
            assert(!(layers[i].name@ == name && layers[i].runner@ == runner));
            lemma_layer_from(layers, name, runner, at, i + 1);
        }
    }
}

proof fn lemma_has_finding(layers: Seq<LayerResult>, at: Option<int>, x: FindingChangeV)
    requires
        at matches Some(i) ==> 0 <= i < layers.len(),
    ensures
        has_finding(layers, at, x) <==> changes_of(
            findings_in(
                match at {
                    Some(k) => Some(layers[k]@),
                    None => None,
                },
            ),
        ).contains(x),
{
    match at {
        Some(i) => {
            let f = layers[i].findings@;
            let v = changes_of(report::findings_view(f));
            assert forall|k: int| 0 <= k < f.len() implies #[trigger] v[k] == change_of(f[k]@) by {}
            if has_finding(layers, at, x) {
                let k = choose|k: int|
                    0 <= k < f.len() && (#[trigger] layers[i].findings@[k]).severity == x.severity
                        && layers[i].findings@[k].code@ == x.code && text::opt_view(
                        layers[i].findings@[k].location,
                    ) == x.location && layers[i].findings@[k].message@ == x.message;
                assert(v[k] == x);
            }
            if v.contains(x) {
                let k = choose|k: int| 0 <= k < v.len() && v[k] == x;
                assert(layers[i].findings@[k].severity == x.severity);
            }
        },
        None => {
            assert(changes_of(findings_in(None)).len() == 0);
        },
    }
}

proof fn lemma_with_keys(
    keys: Seq<(Seq<char>, Seq<char>)>,
    layers: Seq<report::LayerResultV>,
    key: (Seq<char>, Seq<char>),
)
    ensures
        with_keys(keys, layers).contains(key) <==> keys.contains(key) || exists|k: int|
            0 <= k < layers.len() && key_of(#[trigger] layers[k]) == key,
    decreases layers.len(),
{
    if layers.len() > 0 {
        let front = layers.drop_last();
        let before = with_keys(keys, front);
        let own = key_of(layers.last());
        let all = with_keys(keys, layers);
        lemma_with_keys(keys, front, key);
        if before.contains(key) {
            let k = choose|k: int| 0 <= k < before.len() && before[k] == key;
            assert(all[k] == key);
        }
        if !before.contains(own) {
            assert(all =~= before.push(own));
            assert(all[all.len() - 1] == own);
        }
        if all.contains(key) && !before.contains(key) {
            let k = choose|k: int| 0 <= k < all.len() && all[k] == key;
            if k < before.len() {
                assert(before[k] == key);
            }
            assert(key_of(layers[layers.len() - 1]) == key);
        }
        if exists|k: int| 0 <= k < front.len() && key_of(#[trigger] front[k]) == key {
            let k = choose|k: int| 0 <= k < front.len() && key_of(#[trigger] front[k]) == key;
            assert(key_of(layers[k]) == key);
        }
        if exists|k: int| 0 <= k < layers.len() && key_of(#[trigger] layers[k]) == key {
            let k = choose|k: int| 0 <= k < layers.len() && key_of(#[trigger] layers[k]) == key;
            if k < front.len() {
                assert(key_of(front[k]) == key);
            }
        }
    }
}

proof fn lemma_key_listed(
    base: Seq<LayerResult>,
    head: Seq<LayerResult>,
    name: Seq<char>,
    runner: Seq<char>,
    b: Option<int>,
    h: Option<int>,
)
    requires
        stands_at(base, name, runner, b),
        stands_at(head, name, runner, h),
    ensures
        keys_of_both(report::layers_view(base), report::layers_view(head)).contains((name, runner))
            <==> b is Some || h is Some,
{
    let v = report::layers_view(base);
    let w = report::layers_view(head);
    let keys = v.map_values(|l: report::LayerResultV| key_of(l));
    lemma_with_keys(keys, w, (name, runner));
    assert forall|k: int| 0 <= k < base.len() implies #[trigger] keys[k] == (
        base[k].name@,
        base[k].runner@,
    ) by {
        assert(v[k] == base[k]@);
    }
    assert forall|k: int| 0 <= k < head.len() implies key_of(#[trigger] w[k]) == (
        head[k].name@,
        head[k].runner@,
    ) by {
        assert(w[k] == head[k]@);
    }
    match b {
        Some(i) => {
            assert(keys[i] == (name, runner));
        },
        None => {
            if keys.contains((name, runner)) {
                let k = choose|k: int| 0 <= k < keys.len() && keys[k] == (name, runner);
                assert(base[k].name@ == name && base[k].runner@ == runner);
            }
        },
    }
    match h {
        Some(i) => {
            assert(key_of(w[i]) == (name, runner));
        },
        None => {
            if exists|k: int| 0 <= k < w.len() && key_of(#[trigger] w[k]) == (name, runner) {
                let k = choose|k: int|
                    0 <= k < w.len() && key_of(#[trigger] w[k]) == (name, runner);
                assert(head[k].name@ == name && head[k].runner@ == runner);
            }
        },
    }
}

pub open spec fn regression_place(x: RegressionV) -> (Seq<char>, Seq<char>) {
    match x {
        RegressionV::StatusWorsened { layer, runner, .. } => (layer, runner),
        RegressionV::NewFinding { layer, runner, .. } => (layer, runner),
        RegressionV::CoverageDrop { layer, runner, .. } => (layer, runner),
        RegressionV::MutationScoreDrop { layer, runner, .. } => (layer, runner),
    }
}

proof fn lemma_finding_regressions(
    layer: Seq<char>,
    runner: Seq<char>,
    list: Seq<FindingChangeV>,
    x: RegressionV,
)
    ensures
        finding_regressions(layer, runner, list).contains(x) <==> (x matches RegressionV::NewFinding {
            layer: l,
            runner: r,
            code,
            severity,
            message,
            location,
        } && l == layer && r == runner && (severity == Severity::Critical || severity
            == Severity::High) && list.contains(
            (FindingChangeV { code, severity, location, message }),
        )),
    decreases list.len(),
{
    if list.len() > 0 {
        let front = list.drop_last();
        let c = list.last();
        let before = finding_regressions(layer, runner, front);
        let all = finding_regressions(layer, runner, list);
        lemma_finding_regressions(layer, runner, front, x);
        let own = as_regression(layer, runner, c);
        assert(list =~= front.push(c));
        assert forall|y: FindingChangeV| list.contains(y) <==> front.contains(y) || y == c by {
            if front.contains(y) {
                let k = choose|k: int| 0 <= k < front.len() && front[k] == y;
                assert(list[k] == y);
            }
            if y == c {
                assert(list[list.len() - 1] == y);
            }
            if list.contains(y) && y != c {
                let k = choose|k: int| 0 <= k < list.len() && list[k] == y;
                assert(front[k] == y);
            }
        }
        if is_severe(c.severity) {
            assert(all =~= before.push(own));
            if before.contains(x) {
                let k = choose|k: int| 0 <= k < before.len() && before[k] == x;
                assert(all[k] == x);
            }
            if x == own {
                assert(all[all.len() - 1] == x);
            }
            if all.contains(x) && x != own {
                let k = choose|k: int| 0 <= k < all.len() && all[k] == x;
                assert(before[k] == x);
            }
        }
    }
}

proof fn lemma_in_concat<T>(a: Seq<T>, b: Seq<T>, x: T)
    ensures
        (a + b).contains(x) <==> a.contains(x) || b.contains(x),
{
    if a.contains(x) {
        let i = choose|i: int| 0 <= i < a.len() && a[i] == x;
        assert((a + b)[i] == x);
    }
    if b.contains(x) {
        let i = choose|i: int| 0 <= i < b.len() && b[i] == x;
        assert((a + b)[a.len() + i] == x);
    }
    if (a + b).contains(x) {
        let i = choose|i: int| 0 <= i < (a + b).len() && (a + b)[i] == x;
        if i < a.len() {
            assert(a[i] == x);
        } else {
            assert(b[i - a.len()] == x);
        }
    }
}

proof fn lemma_one<T>(a: T, x: T)
    ensures
        seq![a].contains(x) <==> a == x,
{
    assert(seq![a][0] == a);
}

/// What the regressions of one layer are.
proof fn lemma_regressions_of(c: LayerChangeV, p: LayerPairV, x: RegressionV)
    ensures
        regressions_of(c, p).contains(x) ==> regression_place(x) == (c.layer, c.runner),
        regressions_of(c, p).contains(x) <==> regression_place(x) == (c.layer, c.runner) && (match x {
            RegressionV::StatusWorsened { from, to, .. } => c.status_from == Some(from)
                && c.status_to == Some(to) && worsened(from, to),
            RegressionV::NewFinding { code, severity, message, location, .. } => (severity
                == Severity::Critical || severity == Severity::High) && c.new_findings.contains(
                (FindingChangeV { code, severity, location, message }),
            ),
            RegressionV::CoverageDrop { from, to, delta, .. } => c.coverage_delta == Some(delta)
                && dropped(delta) && from == coverage_in(p.base)->0 && to == coverage_in(p.head)->0,
            RegressionV::MutationScoreDrop { from, to, delta, .. } => c.mutation_score_delta == Some(
                delta,
            ) && dropped(delta) && from == mutation_score_in(p.base)->0 && to
                == mutation_score_in(p.head)->0,
        }),
{
    let (a, b) = (status_regressions(c), finding_regressions(c.layer, c.runner, c.new_findings));
    let (d, e) = (coverage_regressions(c, p), mutation_regressions(c, p));
    lemma_in_concat(a, b, x);
    lemma_in_concat(a + b, d, x);
    lemma_in_concat(a + b + d, e, x);
    lemma_finding_regressions(c.layer, c.runner, c.new_findings, x);
    if a.len() > 0 {
        assert(a =~= seq![a[0]]);
        lemma_one(a[0], x);
    }
    if d.len() > 0 {
        assert(d =~= seq![d[0]]);
        lemma_one(d[0], x);
    }
    if e.len() > 0 {
        assert(e =~= seq![e[0]]);
        lemma_one(e[0], x);
    }
}

/// What the improvements of one layer are.
proof fn lemma_improvements_of(c: LayerChangeV, p: LayerPairV, x: ImprovementV)
    ensures
        improvements_of(c, p).contains(x) <==> improvement_place(x) == (c.layer, c.runner)
            && c.status_from != Some(LayerStatus::Skipped) && c.status_to != Some(
            LayerStatus::Skipped,
        ) && (match x {
            ImprovementV::StatusImproved { from, to, .. } => c.status_from == Some(from)
                && c.status_to == Some(to) && improved(from, to),
            ImprovementV::FindingResolved { code, severity, location, .. } => exists|
                message: Seq<char>,
            |
                #[trigger] c.resolved_findings.contains(
                    (FindingChangeV { code, severity, location, message }),
                ),
            ImprovementV::CoverageImproved { from, to, delta, .. } => c.coverage_delta == Some(delta)
                && rose(delta) && from == coverage_in(p.base)->0 && to == coverage_in(p.head)->0,
            ImprovementV::MutationScoreImproved { from, to, delta, .. } => c.mutation_score_delta
                == Some(delta) && rose(delta) && from == mutation_score_in(p.base)->0 && to
                == mutation_score_in(p.head)->0,
        }),
{
    if !is_skipped_once(c) {
        let list = c.resolved_findings;
        let (a, b) = (status_improvements(c), finding_improvements(c.layer, c.runner, list));
        let (d, e) = (coverage_improvements(c, p), mutation_improvements(c, p));
        lemma_in_concat(a, b, x);
        lemma_in_concat(a + b, d, x);
        lemma_in_concat(a + b + d, e, x);
        if a.len() > 0 {
            assert(a =~= seq![a[0]]);
            lemma_one(a[0], x);
        }
        if d.len() > 0 {
            assert(d =~= seq![d[0]]);
            lemma_one(d[0], x);
        }
        if e.len() > 0 {
            assert(e =~= seq![e[0]]);
            lemma_one(e[0], x);
        }
        if b.contains(x) {
            let k = choose|k: int| 0 <= k < b.len() && b[k] == x;
            let f = list[k];
            assert(list.contains(f));
            assert(f == (FindingChangeV {
                code: f.code,
                severity: f.severity,
                location: f.location,
                message: f.message,
            }));
        }
        match x {
            ImprovementV::FindingResolved { layer, runner, code, severity, location } => {
                if layer == c.layer && runner == c.runner && exists|message: Seq<char>|
                    #[trigger] list.contains(
                        (FindingChangeV { code, severity, location, message }),
                    ) {
                    let message = choose|message: Seq<char>|
                        #[trigger] list.contains(
                            (FindingChangeV { code, severity, location, message }),
                        );
                    let f = FindingChangeV { code, severity, location, message };
                    let k = choose|k: int| 0 <= k < list.len() && list[k] == f;
                    assert(b[k] == x);
                }
            },
            _ => {},
        }
    }
}

proof fn lemma_regression_source(
    changes: Seq<LayerChangeV>,
    base: Seq<report::LayerResultV>,
    head: Seq<report::LayerResultV>,
    n: int,
    x: RegressionV,
) -> (i: int)
    requires
        0 <= n <= changes.len(),
        regressions_up_to(changes, base, head, n).contains(x),
    ensures
        0 <= i < n,
        regressions_of(changes[i], pair_at(base, head, i)).contains(x),
    decreases n,
{
    let front = regressions_up_to(changes, base, head, n - 1);
    let own = regressions_of(changes[n - 1], pair_at(base, head, n - 1));
    lemma_in_concat(front, own, x);
    if own.contains(x) {
        n - 1
    } else {
        lemma_regression_source(changes, base, head, n - 1, x)
    }
}

proof fn lemma_improvement_from(
    changes: Seq<LayerChangeV>,
    base: Seq<report::LayerResultV>,
    head: Seq<report::LayerResultV>,
    n: int,
    x: ImprovementV,
) -> (i: int)
    requires
        0 <= n <= changes.len(),
        improvements_up_to(changes, base, head, n).contains(x),
    ensures
        0 <= i < n,
        improvements_of(changes[i], pair_at(base, head, i)).contains(x),
    decreases n,
{
    let front = improvements_up_to(changes, base, head, n - 1);
    let own = improvements_of(changes[n - 1], pair_at(base, head, n - 1));
    lemma_in_concat(front, own, x);
    if own.contains(x) {
        n - 1
    } else {
        lemma_improvement_from(changes, base, head, n - 1, x)
    }
}

proof fn lemma_improvement_listed(
    changes: Seq<LayerChangeV>,
    base: Seq<report::LayerResultV>,
    head: Seq<report::LayerResultV>,
    n: int,
    i: int,
    x: ImprovementV,
)
    requires
        0 <= i < n <= changes.len(),
        improvements_of(changes[i], pair_at(base, head, i)).contains(x),
    ensures
        improvements_up_to(changes, base, head, n).contains(x),
    decreases n,
{
    let front = improvements_up_to(changes, base, head, n - 1);
    let own = improvements_of(changes[n - 1], pair_at(base, head, n - 1));
    lemma_in_concat(front, own, x);
    if i < n - 1 {
        lemma_improvement_listed(changes, base, head, n - 1, i, x);
    }
}

/// A regression or improvement is listed exactly where a change of its layer has it.
proof fn lemma_listed_where(
    c: ReportComparison,
    base: BarzelReport,
    head: BarzelReport,
    differences: Seq<LayerDifference>,
    x: RegressionV,
    y: ImprovementV,
)
    requires
        is_comparison(c, base, head, differences),
    ensures
        regressions_view(c.regressions@).contains(x) <==> exists|i: int|
            0 <= i < c.layer_changes@.len() && regressions_of(
                #[trigger] layer_changes_view(c.layer_changes@)[i],
                pair_at(report::layers_view(base.layers@), report::layers_view(head.layers@), i),
            ).contains(x),
        improvements_view(c.improvements@).contains(y) <==> exists|i: int|
            0 <= i < c.layer_changes@.len() && improvements_of(
                #[trigger] layer_changes_view(c.layer_changes@)[i],
                pair_at(report::layers_view(base.layers@), report::layers_view(head.layers@), i),
            ).contains(y),
{
    let b = report::layers_view(base.layers@);
    let h = report::layers_view(head.layers@);
    let changes = layer_changes_view(c.layer_changes@);
    let n = changes.len() as int;
    order::law_stable_sort_keeps_items(
        regressions_view(c.regressions@),
        regressions_up_to(changes, b, h, n),
        |r: RegressionV| regression_key(r),
    );
    if regressions_view(c.regressions@).contains(x) {
        let i = lemma_regression_source(changes, b, h, n, x);
        assert(regressions_of(changes[i], pair_at(b, h, i)).contains(x));
    }
    if exists|i: int| 0 <= i < n && regressions_of(
        #[trigger] changes[i],
        pair_at(b, h, i),
    ).contains(x) {
        let i = choose|i: int| 0 <= i < n && regressions_of(
            #[trigger] changes[i],
            pair_at(b, h, i),
        ).contains(x);
        lemma_layer_listed(changes, b, h, n, i, x);
    }
    if improvements_view(c.improvements@).contains(y) {
        let i = lemma_improvement_from(changes, b, h, n, y);
        assert(improvements_of(changes[i], pair_at(b, h, i)).contains(y));
    }
    if exists|i: int| 0 <= i < n && improvements_of(
        #[trigger] changes[i],
        pair_at(b, h, i),
    ).contains(y) {
        let i = choose|i: int| 0 <= i < n && improvements_of(
            #[trigger] changes[i],
            pair_at(b, h, i),
        ).contains(y);
        lemma_improvement_listed(changes, b, h, n, i, y);
    }
}

/// What a comparison says of a layer, wherever the layer stands in the two reports.
proof fn lemma_change_of_layer(
    c: ReportComparison,
    base: BarzelReport,
    head: BarzelReport,
    differences: Seq<LayerDifference>,
    name: Seq<char>,
    runner: Seq<char>,
    b: Option<int>,
    h: Option<int>,
    i: int,
)
    requires
        is_comparison(c, base, head, differences),
        stands_at(base.layers@, name, runner, b),
        stands_at(head.layers@, name, runner, h),
        0 <= i < c.layer_changes@.len(),
        c.layer_changes@[i].layer@ == name,
        c.layer_changes@[i].runner@ == runner,
    ensures
        pair_at(report::layers_view(base.layers@), report::layers_view(head.layers@), i) == (
        LayerPairV {
            name,
            runner,
            base: match b {
                Some(k) => Some(base.layers@[k]@),
                None => None,
            },
            head: match h {
                Some(k) => Some(head.layers@[k]@),
                None => None,
            },
        }),
        is_layer_change(
            layer_changes_view(c.layer_changes@)[i],
            pair_at(report::layers_view(base.layers@), report::layers_view(head.layers@), i),
            differences[i],
        ),
        layer_changes_view(c.layer_changes@)[i] == c.layer_changes@[i]@,
{
    let v = report::layers_view(base.layers@);
    let w = report::layers_view(head.layers@);
    let changes = layer_changes_view(c.layer_changes@);
    assert(changes[i] == c.layer_changes@[i]@);
    assert(is_layer_change(changes[i], pair_at(v, w, i), differences[i]));
    lemma_layer_from(base.layers@, name, runner, b, 0);
    lemma_layer_from(head.layers@, name, runner, h, 0);
}

proof fn lemma_change_exists(
    c: ReportComparison,
    base: BarzelReport,
    head: BarzelReport,
    differences: Seq<LayerDifference>,
    name: Seq<char>,
    runner: Seq<char>,
    b: Option<int>,
    h: Option<int>,
) -> (i: int)
    requires
        is_comparison(c, base, head, differences),
        stands_at(base.layers@, name, runner, b),
        stands_at(head.layers@, name, runner, h),
        b is Some || h is Some,
    ensures
        0 <= i < c.layer_changes@.len(),
        c.layer_changes@[i].layer@ == name,
        c.layer_changes@[i].runner@ == runner,
{
    let v = report::layers_view(base.layers@);
    let w = report::layers_view(head.layers@);
    let changes = layer_changes_view(c.layer_changes@);
    lemma_key_listed(base.layers@, head.layers@, name, runner, b, h);
    let keys = keys_of_both(v, w);
    let i = choose|i: int| 0 <= i < keys.len() && keys[i] == (name, runner);
    assert(is_layer_change(changes[i], pair_at(v, w, i), differences[i]));
    assert(changes[i] == c.layer_changes@[i]@);
    i
}

/// Pass is better than partial, and partial better than fail.
pub open spec fn is_worse(from: LayerStatus, to: LayerStatus) -> bool {
    ||| from == LayerStatus::Pass && to == LayerStatus::Partial
    ||| from == LayerStatus::Pass && to == LayerStatus::Fail
    ||| from == LayerStatus::Partial && to == LayerStatus::Fail
}

/// A layer that stands in both reports has worsened exactly where it went from pass to
/// partial, from pass to fail or from partial to fail, and has improved exactly where it
/// went the other way. A layer of only one report did neither.
pub proof fn law_status_changes_are_listed(
    c: ReportComparison,
    base: BarzelReport,
    head: BarzelReport,
    differences: Seq<LayerDifference>,
    name: Seq<char>,
    runner: Seq<char>,
    b: Option<int>,
    h: Option<int>,
    from: LayerStatus,
    to: LayerStatus,
)
    requires
        is_comparison(c, base, head, differences),
        stands_at(base.layers@, name, runner, b),
        stands_at(head.layers@, name, runner, h),
    ensures
        regressions_view(c.regressions@).contains(
            (RegressionV::StatusWorsened { layer: name, runner, from, to }),
        ) <==> b is Some && h is Some && from == base.layers@[b->0].status && to
            == head.layers@[h->0].status && is_worse(from, to),
        improvements_view(c.improvements@).contains(
            (ImprovementV::StatusImproved { layer: name, runner, from, to }),
        ) <==> b is Some && h is Some && from == base.layers@[b->0].status && to
            == head.layers@[h->0].status && is_worse(to, from),
{
    let x = RegressionV::StatusWorsened { layer: name, runner, from, to };
    let y = ImprovementV::StatusImproved { layer: name, runner, from, to };
    lemma_places(c, base, head, differences, name, runner, b, h, x, y);
    if b is Some || h is Some {
        let i = choose|i: int| #[trigger]
            is_change_at(c, base, head, differences, name, runner, b, h, i);
        let own = c.layer_changes@[i]@;
        assert(own.status_from == status_in(placed(base, b)));
        assert(own.status_to == status_in(placed(head, h)));
        assert(worsened(from, to) <==> is_worse(from, to));
        assert(improved(from, to) <==> is_worse(to, from));
        if worsened(from, to) && own.status_from == Some(from) && own.status_to == Some(to) {
            assert(shows_regression(own, base, head, b, h, x));
        }
        if improved(from, to) && own.status_from == Some(from) && own.status_to == Some(to) {
            assert(shows_improvement(own, base, head, b, h, y));
        }
    }
}

/// A finding is listed as new exactly where it is critical or high, the layer has it in
/// head and does not have it in the baseline; and as resolved exactly where the layer has
/// it in the baseline and not in head, and was skipped in neither.
pub proof fn law_finding_changes_are_listed(
    c: ReportComparison,
    base: BarzelReport,
    head: BarzelReport,
    differences: Seq<LayerDifference>,
    name: Seq<char>,
    runner: Seq<char>,
    b: Option<int>,
    h: Option<int>,
    f: FindingChangeV,
)
    requires
        is_comparison(c, base, head, differences),
        stands_at(base.layers@, name, runner, b),
        stands_at(head.layers@, name, runner, h),
    ensures
        regressions_view(c.regressions@).contains(
            (RegressionV::NewFinding {
                layer: name,
                runner,
                code: f.code,
                severity: f.severity,
                message: f.message,
                location: f.location,
            }),
        ) <==> (f.severity == Severity::Critical || f.severity == Severity::High) && has_finding(
            head.layers@,
            h,
            f,
        ) && !has_finding(base.layers@, b, f),
        has_finding(base.layers@, b, f) && !has_finding(head.layers@, h, f)
            && base.layers@[b->0].status != LayerStatus::Skipped && (h matches Some(k)
            ==> head.layers@[k].status != LayerStatus::Skipped) ==> improvements_view(
            c.improvements@,
        ).contains(
            (ImprovementV::FindingResolved {
                layer: name,
                runner,
                code: f.code,
                severity: f.severity,
                location: f.location,
            }),
        ),
        improvements_view(c.improvements@).contains(
            (ImprovementV::FindingResolved {
                layer: name,
                runner,
                code: f.code,
                severity: f.severity,
                location: f.location,
            }),
        ) ==> base.layers@[b->0].status != LayerStatus::Skipped && (h matches Some(k)
            ==> head.layers@[k].status != LayerStatus::Skipped) && exists|message: Seq<char>|
            #[trigger] has_finding(
                base.layers@,
                b,
                (FindingChangeV {
                    code: f.code,
                    severity: f.severity,
                    location: f.location,
                    message,
                }),
            ) && !has_finding(
                head.layers@,
                h,
                (FindingChangeV {
                    code: f.code,
                    severity: f.severity,
                    location: f.location,
                    message,
                }),
            ),
{
    let x = RegressionV::NewFinding {
        layer: name,
        runner,
        code: f.code,
        severity: f.severity,
        message: f.message,
        location: f.location,
    };
    let y = ImprovementV::FindingResolved {
        layer: name,
        runner,
        code: f.code,
        severity: f.severity,
        location: f.location,
    };
    lemma_places(c, base, head, differences, name, runner, b, h, x, y);
    assert forall|g: FindingChangeV| #[trigger] has_finding(base.layers@, b, g) <==> changes_of(
        findings_in(placed(base, b)),
    ).contains(g) by {
        lemma_has_finding(base.layers@, b, g);
    }
    assert forall|g: FindingChangeV| #[trigger] has_finding(head.layers@, h, g) <==> changes_of(
        findings_in(placed(head, h)),
    ).contains(g) by {
        lemma_has_finding(head.layers@, h, g);
    }
    let same = FindingChangeV {
        code: f.code,
        severity: f.severity,
        location: f.location,
        message: f.message,
    };
    assert(same == f);
    if b is Some || h is Some {
        let i = choose|i: int| #[trigger]
            is_change_at(c, base, head, differences, name, runner, b, h, i);
        let own = c.layer_changes@[i]@;
        assert(own.status_from == status_in(placed(base, b)));
        assert(own.status_to == status_in(placed(head, h)));
        assert(own.new_findings.contains(f) <==> has_finding(head.layers@, h, f) && !has_finding(
            base.layers@,
            b,
            f,
        ));
        assert(own.resolved_findings.contains(f) <==> has_finding(base.layers@, b, f)
            && !has_finding(head.layers@, h, f));
        if own.new_findings.contains(f) && is_severe(f.severity) {
            assert(shows_regression(own, base, head, b, h, x));
        }
        if own.resolved_findings.contains(f) && !is_skipped_once(own) {
            assert(own.resolved_findings.contains(same));
            assert(shows_improvement(own, base, head, b, h, y));
        }
    }
    if regressions_view(c.regressions@).contains(x) {
        let i = choose|i: int|
            is_change_at(c, base, head, differences, name, runner, b, h, i)
                && #[trigger] shows_regression(c.layer_changes@[i]@, base, head, b, h, x);
        assert(c.layer_changes@[i]@.new_findings.contains(same));
    }
    if improvements_view(c.improvements@).contains(y) {
        let i = choose|i: int|
            is_change_at(c, base, head, differences, name, runner, b, h, i)
                && #[trigger] shows_improvement(c.layer_changes@[i]@, base, head, b, h, y);
        let own = c.layer_changes@[i]@;
        let message = choose|message: Seq<char>|
            #[trigger] own.resolved_findings.contains(
                (FindingChangeV {
                    code: f.code,
                    severity: f.severity,
                    location: f.location,
                    message,
                }),
            );
        let g = FindingChangeV {
            code: f.code,
            severity: f.severity,
            location: f.location,
            message,
        };
        assert(own.resolved_findings.contains(g));
        assert(has_finding(base.layers@, b, g) && !has_finding(head.layers@, h, g));
        assert(own.status_from == status_in(placed(base, b)));
        assert(own.status_to == status_in(placed(head, h)));
    }
}

/// The measurement of a layer that stands at `at`.
pub open spec fn measured(r: BarzelReport, at: Option<int>, mutation: bool) -> Option<Percent> {
    match at {
        Some(i) => if mutation {
            r.layers@[i].metrics.mutation_score
        } else {
            r.layers@[i].metrics.coverage
        },
        None => None,
    }
}

/// A coverage or a mutation score that fell by more than a tenth is listed as a drop, with
/// what it was, what it is and the difference; one that rose by more than a tenth as an
/// improvement, where the layer was skipped in neither report. Nothing else is.
pub proof fn law_measurement_changes_are_listed(
    c: ReportComparison,
    base: BarzelReport,
    head: BarzelReport,
    differences: Seq<LayerDifference>,
    name: Seq<char>,
    runner: Seq<char>,
    b: Option<int>,
    h: Option<int>,
    i: int,
    from: Percent,
    to: Percent,
    delta: Percent,
)
    requires
        is_comparison(c, base, head, differences),
        stands_at(base.layers@, name, runner, b),
        stands_at(head.layers@, name, runner, h),
        0 <= i < c.layer_changes@.len(),
        c.layer_changes@[i].layer@ == name,
        c.layer_changes@[i].runner@ == runner,
        from != to,
    ensures
        measured(base, b, false) == Some(from) && measured(head, h, false) == Some(to)
            ==> c.layer_changes@[i].coverage_delta == Some(differences[i].coverage),
        measured(base, b, true) == Some(from) && measured(head, h, true) == Some(to)
            ==> c.layer_changes@[i].mutation_score_delta == Some(differences[i].mutation_score),
        measured(base, b, false) is None || measured(head, h, false) is None
            ==> c.layer_changes@[i].coverage_delta is None,
        measured(base, b, true) is None || measured(head, h, true) is None
            ==> c.layer_changes@[i].mutation_score_delta is None,
        measured(base, b, false) == Some(from) && measured(head, h, false) == Some(to)
            && c.layer_changes@[i].coverage_delta == Some(delta) && delta.under(
            Percent { bits: 0xbfb9_9999_9999_999a },
        ) ==> regressions_view(c.regressions@).contains(
            (RegressionV::CoverageDrop { layer: name, runner, from, to, delta }),
        ),
        measured(base, b, true) == Some(from) && measured(head, h, true) == Some(to)
            && c.layer_changes@[i].mutation_score_delta == Some(delta) && delta.under(
            Percent { bits: 0xbfb9_9999_9999_999a },
        ) ==> regressions_view(c.regressions@).contains(
            (RegressionV::MutationScoreDrop { layer: name, runner, from, to, delta }),
        ),
        regressions_view(c.regressions@).contains(
            (RegressionV::CoverageDrop { layer: name, runner, from, to, delta }),
        ) ==> measured(base, b, false) == Some(from) && measured(head, h, false) == Some(to)
            && delta.under(Percent { bits: 0xbfb9_9999_9999_999a }),
        regressions_view(c.regressions@).contains(
            (RegressionV::MutationScoreDrop { layer: name, runner, from, to, delta }),
        ) ==> measured(base, b, true) == Some(from) && measured(head, h, true) == Some(to)
            && delta.under(Percent { bits: 0xbfb9_9999_9999_999a }),
        measured(base, b, false) == Some(from) && measured(head, h, false) == Some(to)
            && c.layer_changes@[i].coverage_delta == Some(delta) && (Percent {
            bits: 0x3fb9_9999_9999_999a,
        }).under(delta) && base.layers@[b->0].status != LayerStatus::Skipped
            && head.layers@[h->0].status != LayerStatus::Skipped ==> improvements_view(
            c.improvements@,
        ).contains((ImprovementV::CoverageImproved { layer: name, runner, from, to, delta })),
        measured(base, b, true) == Some(from) && measured(head, h, true) == Some(to)
            && c.layer_changes@[i].mutation_score_delta == Some(delta) && (Percent {
            bits: 0x3fb9_9999_9999_999a,
        }).under(delta) && base.layers@[b->0].status != LayerStatus::Skipped
            && head.layers@[h->0].status != LayerStatus::Skipped ==> improvements_view(
            c.improvements@,
        ).contains((ImprovementV::MutationScoreImproved { layer: name, runner, from, to, delta })),
        improvements_view(c.improvements@).contains(
            (ImprovementV::CoverageImproved { layer: name, runner, from, to, delta }),
        ) ==> measured(base, b, false) == Some(from) && measured(head, h, false) == Some(to) && (
        Percent { bits: 0x3fb9_9999_9999_999a }).under(delta) && base.layers@[b->0].status
            != LayerStatus::Skipped && head.layers@[h->0].status != LayerStatus::Skipped,
        improvements_view(c.improvements@).contains(
            (ImprovementV::MutationScoreImproved { layer: name, runner, from, to, delta }),
        ) ==> measured(base, b, true) == Some(from) && measured(head, h, true) == Some(to) && (
        Percent { bits: 0x3fb9_9999_9999_999a }).under(delta) && base.layers@[b->0].status
            != LayerStatus::Skipped && head.layers@[h->0].status != LayerStatus::Skipped,
{
    let x = RegressionV::CoverageDrop { layer: name, runner, from, to, delta };
    let y = ImprovementV::CoverageImproved { layer: name, runner, from, to, delta };
    let v = RegressionV::MutationScoreDrop { layer: name, runner, from, to, delta };
    let w = ImprovementV::MutationScoreImproved { layer: name, runner, from, to, delta };
    lemma_places(c, base, head, differences, name, runner, b, h, x, y);
    lemma_places(c, base, head, differences, name, runner, b, h, v, w);
    lemma_change_of_layer(c, base, head, differences, name, runner, b, h, i);
    assert(is_change_at(c, base, head, differences, name, runner, b, h, i));
    assert(measured(base, b, false) == coverage_in(placed(base, b)));
    assert(measured(head, h, false) == coverage_in(placed(head, h)));
    assert(measured(base, b, true) == mutation_score_in(placed(base, b)));
    assert(measured(head, h, true) == mutation_score_in(placed(head, h)));
    let own = c.layer_changes@[i]@;
    assert(own.status_from == status_in(placed(base, b)));
    assert(own.status_to == status_in(placed(head, h)));
    assert(shows_regression(own, base, head, b, h, x) ==> regressions_view(
        c.regressions@,
    ).contains(x));
    assert(shows_regression(own, base, head, b, h, v) ==> regressions_view(
        c.regressions@,
    ).contains(v));
    assert(shows_improvement(own, base, head, b, h, y) ==> improvements_view(
        c.improvements@,
    ).contains(y));
    assert(shows_improvement(own, base, head, b, h, w) ==> improvements_view(
        c.improvements@,
    ).contains(w));
}

/// Every layer of either report is compared, with its statuses and with the findings that
/// it has in one report and not in the other; and no other layer is.
pub proof fn law_every_layer_is_compared(
    c: ReportComparison,
    base: BarzelReport,
    head: BarzelReport,
    differences: Seq<LayerDifference>,
    name: Seq<char>,
    runner: Seq<char>,
    b: Option<int>,
    h: Option<int>,
    f: FindingChangeV,
    i: int,
)
    requires
        is_comparison(c, base, head, differences),
        stands_at(base.layers@, name, runner, b),
        stands_at(head.layers@, name, runner, h),
    ensures
        (exists|k: int|
            0 <= k < c.layer_changes@.len() && (#[trigger] c.layer_changes@[k]).layer@ == name
                && c.layer_changes@[k].runner@ == runner) <==> b is Some || h is Some,
        0 <= i < c.layer_changes@.len() && c.layer_changes@[i].layer@ == name
            && c.layer_changes@[i].runner@ == runner ==> c.layer_changes@[i].status_from == (
        match b {
            Some(k) => Some(base.layers@[k].status),
            None => None,
        }) && c.layer_changes@[i].status_to == (match h {
            Some(k) => Some(head.layers@[k].status),
            None => None,
        }) && (c.layer_changes@[i]@.new_findings.contains(f) <==> has_finding(head.layers@, h, f)
            && !has_finding(base.layers@, b, f)) && (
        c.layer_changes@[i]@.resolved_findings.contains(f) <==> has_finding(base.layers@, b, f)
            && !has_finding(head.layers@, h, f)),
{
    lemma_has_finding(base.layers@, b, f);
    lemma_has_finding(head.layers@, h, f);
    lemma_key_listed(base.layers@, head.layers@, name, runner, b, h);
    let v = report::layers_view(base.layers@);
    let w = report::layers_view(head.layers@);
    let changes = layer_changes_view(c.layer_changes@);
    if b is Some || h is Some {
        let k = lemma_change_exists(c, base, head, differences, name, runner, b, h);
        assert(c.layer_changes@[k].layer@ == name);
    }
    if exists|k: int|
        0 <= k < c.layer_changes@.len() && (#[trigger] c.layer_changes@[k]).layer@ == name
            && c.layer_changes@[k].runner@ == runner {
        let k = choose|k: int|
            0 <= k < c.layer_changes@.len() && (#[trigger] c.layer_changes@[k]).layer@ == name
                && c.layer_changes@[k].runner@ == runner;
        assert(changes[k] == c.layer_changes@[k]@);
        assert(is_layer_change(changes[k], pair_at(v, w, k), differences[k]));
        assert(keys_of_both(v, w)[k] == (name, runner));
    }
    if 0 <= i < c.layer_changes@.len() && c.layer_changes@[i].layer@ == name
        && c.layer_changes@[i].runner@ == runner {
        lemma_change_of_layer(c, base, head, differences, name, runner, b, h, i);
    }
}

/// The verdict is regressed exactly with a regression, improved exactly without one and
/// with an improvement, and unchanged otherwise. The counts are those of head less those
/// of the baseline, and the reports are named as they are.
pub proof fn law_verdict_and_counts(
    c: ReportComparison,
    base: BarzelReport,
    head: BarzelReport,
    differences: Seq<LayerDifference>,
)
    requires
        is_comparison(c, base, head, differences),
    ensures
        c.verdict == Verdict::Regressed <==> c.regressions@.len() > 0,
        c.verdict == Verdict::Improved <==> c.regressions@.len() == 0 && c.improvements@.len() > 0,
        c.verdict == Verdict::Unchanged <==> c.regressions@.len() == 0 && c.improvements@.len()
            == 0,
        c.summary_delta.critical == head.summary.critical - base.summary.critical,
        c.summary_delta.high == head.summary.high - base.summary.high,
        c.summary_delta.medium == head.summary.medium - base.summary.medium,
        c.summary_delta.low == head.summary.low - base.summary.low,
        c.summary_delta.total == head.summary.total_findings - base.summary.total_findings,
        c.baseline_id == base.id && c.head_id == head.id,
        c.baseline_status == base.status && c.head_status == head.status,
        c.baseline_timestamp == base.timestamp && c.head_timestamp == head.timestamp,
{
}

/// The regression is one of the gravest: a worsened status or a critical finding.
pub open spec fn is_gravest(x: RegressionV) -> bool {
    ||| x is StatusWorsened
    ||| x matches RegressionV::NewFinding { severity, .. } && severity == Severity::Critical
}

/// Worsened statuses and critical findings are listed before drops and high findings, and
/// within each of these two groups layers in the order of their names, the runners of a
/// layer in the order of theirs.
pub proof fn law_gravest_regressions_come_first(
    c: ReportComparison,
    base: BarzelReport,
    head: BarzelReport,
    differences: Seq<LayerDifference>,
    i: int,
    j: int,
)
    requires
        is_comparison(c, base, head, differences),
        0 <= i < j < c.regressions@.len(),
    ensures
        is_gravest(c.regressions@[j]@) ==> is_gravest(c.regressions@[i]@),
        is_gravest(c.regressions@[i]@) == is_gravest(c.regressions@[j]@) ==> !order::text_less(
            regression_place(c.regressions@[j]@).0,
            regression_place(c.regressions@[i]@).0,
        ),
        is_gravest(c.regressions@[i]@) == is_gravest(c.regressions@[j]@) && regression_place(
            c.regressions@[j]@,
        ).0 == regression_place(c.regressions@[i]@).0 ==> !order::text_less(
            regression_place(c.regressions@[j]@).1,
            regression_place(c.regressions@[i]@).1,
        ),
{
    law_regressions_are_sorted(c, base, head, differences, i, j);
    lemma_severe_only(c, base, head, differences, i);
    lemma_severe_only(c, base, head, differences, j);
    let (x, y) = (c.regressions@[i]@, c.regressions@[j]@);
    let (p, q) = (regression_key(x), regression_key(y));
    order::law_keys_go_by_rank(q, p, 0);
    order::law_keys_go_by_rank(q, p, 1);
    assert(p.texts[0] == regression_place(x).0 && p.texts[1] == regression_place(x).1);
    assert(q.texts[0] == regression_place(y).0 && q.texts[1] == regression_place(y).1);
    assert(q.texts.subrange(0, 0) =~= p.texts.subrange(0, 0));
    if regression_place(y).0 == regression_place(x).0 {
        assert(q.texts.subrange(0, 1) =~= p.texts.subrange(0, 1));
    }
}

proof fn lemma_severe_only(
    c: ReportComparison,
    base: BarzelReport,
    head: BarzelReport,
    differences: Seq<LayerDifference>,
    i: int,
)
    requires
        is_comparison(c, base, head, differences),
        0 <= i < c.regressions@.len(),
    ensures
        c.regressions@[i]@ matches RegressionV::NewFinding { severity, .. } ==> severity
            == Severity::Critical || severity == Severity::High,
{
    let x = c.regressions@[i]@;
    let b = report::layers_view(base.layers@);
    let h = report::layers_view(head.layers@);
    let changes = layer_changes_view(c.layer_changes@);
    let y = ImprovementV::StatusImproved {
        layer: Seq::empty(),
        runner: Seq::empty(),
        from: LayerStatus::Pass,
        to: LayerStatus::Pass,
    };
    lemma_listed_where(c, base, head, differences, x, y);
    assert(regressions_view(c.regressions@)[i] == x);
    assert(regressions_view(c.regressions@).contains(x));
    let k = choose|k: int|
        0 <= k < c.layer_changes@.len() && regressions_of(
            #[trigger] changes[k],
            pair_at(b, h, k),
        ).contains(x);
    lemma_regressions_of(changes[k], pair_at(b, h, k), x);
}

/// Findings that appeared or disappeared are listed with the most severe first.
pub proof fn law_severe_changes_come_first(list: Seq<FindingChangeV>, i: int, j: int)
    requires
        is_sorted(list),
        0 <= i < j < list.len(),
    ensures
        list[j].severity == Severity::Critical ==> list[i].severity == Severity::Critical,
        list[j].severity == Severity::High ==> list[i].severity == Severity::Critical
            || list[i].severity == Severity::High,
        list[j].severity == Severity::Medium ==> list[i].severity != Severity::Low
            && list[i].severity != Severity::Info,
        list[j].severity == Severity::Low ==> list[i].severity != Severity::Info,
        list[i].severity == list[j].severity ==> !order::text_less(list[j].code, list[i].code),
{
    let (p, q) = (change_key(list[i]), change_key(list[j]));
    assert(!order::key_less(q, p));
    order::law_keys_go_by_rank(q, p, 0);
    assert(q.texts.subrange(0, 0) =~= p.texts.subrange(0, 0));
}

/// What is listed of a layer, by what its changes are.
proof fn lemma_places(
    c: ReportComparison,
    base: BarzelReport,
    head: BarzelReport,
    differences: Seq<LayerDifference>,
    name: Seq<char>,
    runner: Seq<char>,
    b: Option<int>,
    h: Option<int>,
    x: RegressionV,
    y: ImprovementV,
)
    requires
        is_comparison(c, base, head, differences),
        stands_at(base.layers@, name, runner, b),
        stands_at(head.layers@, name, runner, h),
        regression_place(x) == (name, runner),
        improvement_place(y) == (name, runner),
    ensures
        regressions_view(c.regressions@).contains(x) ==> exists|i: int|
            is_change_at(c, base, head, differences, name, runner, b, h, i)
                && #[trigger] shows_regression(c.layer_changes@[i]@, base, head, b, h, x),
        forall|i: int|
            is_change_at(c, base, head, differences, name, runner, b, h, i)
                && #[trigger] shows_regression(c.layer_changes@[i]@, base, head, b, h, x)
                ==> regressions_view(c.regressions@).contains(x),
        improvements_view(c.improvements@).contains(y) ==> exists|i: int|
            is_change_at(c, base, head, differences, name, runner, b, h, i)
                && #[trigger] shows_improvement(c.layer_changes@[i]@, base, head, b, h, y),
        forall|i: int|
            is_change_at(c, base, head, differences, name, runner, b, h, i)
                && #[trigger] shows_improvement(c.layer_changes@[i]@, base, head, b, h, y)
                ==> improvements_view(c.improvements@).contains(y),
        b is Some || h is Some ==> exists|i: int| #[trigger]
            is_change_at(c, base, head, differences, name, runner, b, h, i),
{
    let v = report::layers_view(base.layers@);
    let w = report::layers_view(head.layers@);
    let changes = layer_changes_view(c.layer_changes@);
    lemma_listed_where(c, base, head, differences, x, y);
    assert forall|i: int| 0 <= i < c.layer_changes@.len() && c.layer_changes@[i].layer@ == name
        && c.layer_changes@[i].runner@ == runner implies #[trigger] is_change_at(
        c,
        base,
        head,
        differences,
        name,
        runner,
        b,
        h,
        i,
    ) && regressions_of(changes[i], pair_at(v, w, i)).contains(x) == shows_regression(
        c.layer_changes@[i]@,
        base,
        head,
        b,
        h,
        x,
    ) && improvements_of(changes[i], pair_at(v, w, i)).contains(y) == shows_improvement(
        c.layer_changes@[i]@,
        base,
        head,
        b,
        h,
        y,
    ) by {
        lemma_change_of_layer(c, base, head, differences, name, runner, b, h, i);
        lemma_regressions_of(changes[i], pair_at(v, w, i), x);
        lemma_improvements_of(changes[i], pair_at(v, w, i), y);
    }
    if regressions_view(c.regressions@).contains(x) {
        let i = choose|i: int|
            0 <= i < c.layer_changes@.len() && regressions_of(
                #[trigger] changes[i],
                pair_at(v, w, i),
            ).contains(x);
        assert(changes[i] == c.layer_changes@[i]@);
        lemma_regressions_of(changes[i], pair_at(v, w, i), x);
        assert(is_change_at(c, base, head, differences, name, runner, b, h, i));
        assert(shows_regression(c.layer_changes@[i]@, base, head, b, h, x));
    }
    if improvements_view(c.improvements@).contains(y) {
        let i = choose|i: int|
            0 <= i < c.layer_changes@.len() && improvements_of(
                #[trigger] changes[i],
                pair_at(v, w, i),
            ).contains(y);
        assert(changes[i] == c.layer_changes@[i]@);
        lemma_improvements_of(changes[i], pair_at(v, w, i), y);
        assert(is_change_at(c, base, head, differences, name, runner, b, h, i));
        assert(shows_improvement(c.layer_changes@[i]@, base, head, b, h, y));
    }
    assert forall|i: int|
        is_change_at(c, base, head, differences, name, runner, b, h, i)
            && #[trigger] shows_regression(
            c.layer_changes@[i]@,
            base,
            head,
            b,
            h,
            x,
        ) implies regressions_view(c.regressions@).contains(x) by {
        assert(regressions_of(changes[i], pair_at(v, w, i)).contains(x));
    }
    assert forall|i: int|
        is_change_at(c, base, head, differences, name, runner, b, h, i)
            && #[trigger] shows_improvement(
            c.layer_changes@[i]@,
            base,
            head,
            b,
            h,
            y,
        ) implies improvements_view(c.improvements@).contains(y) by {
        assert(improvements_of(changes[i], pair_at(v, w, i)).contains(y));
    }
    if b is Some || h is Some {
        let i = lemma_change_exists(c, base, head, differences, name, runner, b, h);
        assert(is_change_at(c, base, head, differences, name, runner, b, h, i));
    }
}

/// The change at `i` is that of the layer, as it stands in both reports.
spec fn is_change_at(
    c: ReportComparison,
    base: BarzelReport,
    head: BarzelReport,
    differences: Seq<LayerDifference>,
    name: Seq<char>,
    runner: Seq<char>,
    b: Option<int>,
    h: Option<int>,
    i: int,
) -> bool {
    &&& 0 <= i < c.layer_changes@.len()
    &&& c.layer_changes@[i].layer@ == name
    &&& c.layer_changes@[i].runner@ == runner
    &&& is_layer_change(
        c.layer_changes@[i]@,
        (LayerPairV { name, runner, base: placed(base, b), head: placed(head, h) }),
        differences[i],
    )
}

spec fn placed(r: BarzelReport, at: Option<int>) -> Option<report::LayerResultV> {
    match at {
        Some(k) => Some(r.layers@[k]@),
        None => None,
    }
}

spec fn shows_regression(
    ch: LayerChangeV,
    base: BarzelReport,
    head: BarzelReport,
    b: Option<int>,
    h: Option<int>,
    x: RegressionV,
) -> bool {
    match x {
        RegressionV::StatusWorsened { from, to, .. } => ch.status_from == Some(from) && ch.status_to
            == Some(to) && worsened(from, to),
        RegressionV::NewFinding { code, severity, message, location, .. } => (severity
            == Severity::Critical || severity == Severity::High) && ch.new_findings.contains(
            (FindingChangeV { code, severity, location, message }),
        ),
        RegressionV::CoverageDrop { from, to, delta, .. } => ch.coverage_delta == Some(delta)
            && dropped(delta) && from == coverage_in(placed(base, b))->0 && to == coverage_in(
            placed(head, h),
        )->0,
        RegressionV::MutationScoreDrop { from, to, delta, .. } => ch.mutation_score_delta == Some(
            delta,
        ) && dropped(delta) && from == mutation_score_in(placed(base, b))->0 && to
            == mutation_score_in(placed(head, h))->0,
    }
}

spec fn shows_improvement(
    ch: LayerChangeV,
    base: BarzelReport,
    head: BarzelReport,
    b: Option<int>,
    h: Option<int>,
    x: ImprovementV,
) -> bool {
    ch.status_from != Some(LayerStatus::Skipped) && ch.status_to != Some(LayerStatus::Skipped)
        && match x {
        ImprovementV::StatusImproved { from, to, .. } => ch.status_from == Some(from)
            && ch.status_to == Some(to) && improved(from, to),
        ImprovementV::FindingResolved { code, severity, location, .. } => exists|message: Seq<char>|
            #[trigger] ch.resolved_findings.contains(
                (FindingChangeV { code, severity, location, message }),
            ),
        ImprovementV::CoverageImproved { from, to, delta, .. } => ch.coverage_delta == Some(delta)
            && rose(delta) && from == coverage_in(placed(base, b))->0 && to == coverage_in(
            placed(head, h),
        )->0,
        ImprovementV::MutationScoreImproved { from, to, delta, .. } => ch.mutation_score_delta
            == Some(delta) && rose(delta) && from == mutation_score_in(placed(base, b))->0 && to
            == mutation_score_in(placed(head, h))->0,
    }
}

/// What did not change differs by nothing, unless it is no number; what did differs by the
/// difference.
pub proof fn law_what_differences_are(base: Percent, head: Percent, difference: Percent)
    ensures
        base != head ==> settled_difference(base, head, difference) == difference,
        base == head && base.is_finite() ==> settled_difference(base, head, difference).bits == 0,
        base == head && !base.is_finite() ==> !settled_difference(base, head, difference).is_finite(),
{
}

/// The counts of two reports differ by what the later has more, severity by severity.
pub proof fn law_counts_differ_by_severity(
    d: SummaryDelta,
    base: report::Summary,
    head: report::Summary,
)
    requires
        is_summary_delta(d, base, head),
    ensures
        base.critical + d.critical == head.critical,
        base.high + d.high == head.high,
        base.medium + d.medium == head.medium,
        base.low + d.low == head.low,
        base.total_findings + d.total == head.total_findings,
{
}

} // verus!
