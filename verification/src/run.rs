//! A verification run: what is run, and what becomes of the results.
use vstd::prelude::*;

use crate::config;
use crate::config::BarzelConfig;
use crate::detect::{
    Language, Member, ProjectFrameworks, ProjectInfo, WorkspaceInfo, WorkspaceKind,
};
use crate::diff::DiffContext;
use crate::error::BarzelError;
use crate::orchestrator::copy_layer;
use crate::percent::Percent;
use crate::plugin::Layer;
use crate::report;
use crate::report::{
    BarzelReport, Finding, LayerMetrics, LayerResult, LayerStatus, ReportStatus, Severity,
    WorkspaceMemberReport,
};
use crate::text;

verus! {

// ── the request ─────────────────────────────────────────────────────────────

/// Why a list of requested layers is refused, if it is.
pub open spec fn request_fault(names: Seq<Seq<char>>) -> Option<Seq<char>> {
    let bad = config::unknown_layers(names);
    if names.len() == 0 {
        Some("layers must not be empty; valid layers: logic, structural, hostile, operational"@)
    } else if bad.len() > 0 {
        Some(
            "unknown layer"@ + config::plural(bad.len()) + ": "@ + text::joined(bad, ", "@)
                + "; valid layers: logic, structural, hostile, operational"@,
        )
    } else {
        None
    }
}

/// Refuses a list of requested layers that is empty or holds a name that is no layer.
pub fn validate_requested_layers(layers: &Vec<String>) -> (r: Result<(), BarzelError>)
    ensures
        match request_fault(text::views(layers@)) {
            Some(m) => r matches Err(BarzelError::Detection(e)) && e@ == m,
            None => r is Ok,
        },
{
    assert(text::views(layers@).len() == layers@.len());
    if layers.len() == 0 {
        return Err(
            BarzelError::Detection(
                "layers must not be empty; valid layers: logic, structural, hostile, operational".to_string(),
            ),
        );
    }
    let bad = config::bad_layers(layers);
    assert(text::views(bad@).len() == bad@.len());
    if bad.len() > 0 {
        let list = text::join(&bad, ", ");
        return Err(
            BarzelError::Detection(
                text::cat5(
                    "unknown layer",
                    config::plural_s(bad.len()),
                    ": ",
                    list.as_str(),
                    "; valid layers: logic, structural, hostile, operational",
                ),
            ),
        );
    }
    Ok(())
}

/// Refuses a run whose requested layers or whose configuration is refused, in this order.
pub fn check_request(layers: &Option<Vec<String>>, cfg: &BarzelConfig) -> (r: Result<
    (),
    BarzelError,
>)
    ensures
        match *layers {
            Some(l) => request_fault(text::views(l@)) matches Some(m) ==> (r matches Err(
                BarzelError::Detection(e),
            ) && e@ == m),
            None => true,
        },
        (*layers is None || request_fault(text::views((*layers)->0@)) is None) ==> (
        match config::config_fault(*cfg) {
            Some(m) => r matches Err(BarzelError::Config(e)) && e@ == m,
            None => r is Ok,
        }),
{
    match layers {
        Some(l) => {
            let requested = validate_requested_layers(l);
            if requested.is_err() {
                return requested;
            }
        },
        None => {},
    }
    cfg.validate()
}

// ── the runners ─────────────────────────────────────────────────────────────

/// The runners there are.
#[derive(Debug, Clone, Copy, PartialEq, Eq, Structural)]
pub enum RunnerKind {
    Proptest,
    Kani,
    Mutants,
    CargoFuzz,
    CargoAudit,
    Semgrep,
    Jest,
    FastCheck,
    Stryker,
    Playwright,
    Eslint,
    NpmAudit,
    Pytest,
    Mypy,
    Mutmut,
    Bandit,
    PipAudit,
    GoTest,
    GoMutesting,
    AiSec,
    HealthCheck,
    OperationalCommand,
}

impl RunnerKind {
    /// The layer that a runner belongs to.
    pub open spec fn layer_of(self) -> Layer {
        match self {
            RunnerKind::Proptest | RunnerKind::Kani | RunnerKind::Jest | RunnerKind::FastCheck
            | RunnerKind::Pytest | RunnerKind::Mypy | RunnerKind::GoTest => Layer::Logic,
            RunnerKind::Mutants | RunnerKind::Stryker | RunnerKind::Mutmut
            | RunnerKind::GoMutesting => Layer::Structure,
            RunnerKind::CargoFuzz | RunnerKind::CargoAudit | RunnerKind::Semgrep
            | RunnerKind::Eslint | RunnerKind::NpmAudit | RunnerKind::Bandit | RunnerKind::PipAudit
            | RunnerKind::AiSec => Layer::Hostile,
            RunnerKind::Playwright | RunnerKind::HealthCheck
            | RunnerKind::OperationalCommand => Layer::Operational,
        }
    }

    pub fn layer(self) -> (r: Layer)
        ensures
            r == self.layer_of(),
    {
        match self {
            RunnerKind::Proptest | RunnerKind::Kani | RunnerKind::Jest | RunnerKind::FastCheck
            | RunnerKind::Pytest | RunnerKind::Mypy | RunnerKind::GoTest => Layer::Logic,
            RunnerKind::Mutants | RunnerKind::Stryker | RunnerKind::Mutmut
            | RunnerKind::GoMutesting => Layer::Structure,
            RunnerKind::CargoFuzz | RunnerKind::CargoAudit | RunnerKind::Semgrep
            | RunnerKind::Eslint | RunnerKind::NpmAudit | RunnerKind::Bandit | RunnerKind::PipAudit
            | RunnerKind::AiSec => Layer::Hostile,
            RunnerKind::Playwright | RunnerKind::HealthCheck
            | RunnerKind::OperationalCommand => Layer::Operational,
        }
    }
}

/// The runners of a language, in the order in which they are listed.
pub open spec fn language_runners(language: Language) -> Seq<RunnerKind> {
    match language {
        Language::Rust => seq![
            RunnerKind::Proptest,
            RunnerKind::Kani,
            RunnerKind::Mutants,
            RunnerKind::CargoFuzz,
            RunnerKind::CargoAudit,
            RunnerKind::Semgrep,
        ],
        Language::TypeScript => seq![
            RunnerKind::Jest,
            RunnerKind::FastCheck,
            RunnerKind::Stryker,
            RunnerKind::Playwright,
            RunnerKind::Eslint,
            RunnerKind::NpmAudit,
            RunnerKind::Semgrep,
        ],
        Language::Python => seq![
            RunnerKind::Pytest,
            RunnerKind::Mypy,
            RunnerKind::Mutmut,
            RunnerKind::Bandit,
            RunnerKind::PipAudit,
            RunnerKind::Semgrep,
        ],
        Language::Go => seq![RunnerKind::GoTest, RunnerKind::GoMutesting, RunnerKind::Semgrep],
        Language::Unknown => seq![RunnerKind::Semgrep],
    }
}

pub open spec fn only(on: bool, kind: RunnerKind) -> Seq<RunnerKind> {
    if on {
        seq![kind]
    } else {
        Seq::empty()
    }
}

/// All runners for a project: those of its language, then those that its dependencies and
/// its configuration add.
pub open spec fn project_runners(project: ProjectInfo, cfg: BarzelConfig) -> Seq<RunnerKind> {
    language_runners(project.language) + only(
        project.frameworks.has_ai_deps,
        RunnerKind::AiSec,
    ) + only(cfg.layers.operational.health_checks@.len() > 0, RunnerKind::HealthCheck) + only(
        cfg.layers.operational.commands@.len() > 0,
        RunnerKind::OperationalCommand,
    )
}

/// A layer is asked for, by the request where there is one, and by the configuration.
pub open spec fn is_wanted(
    layer: Layer,
    requested: Option<Vec<String>>,
    enabled: Seq<Seq<char>>,
) -> bool {
    (match requested {
        Some(l) => text::views(l@).contains(layer.text()),
        None => true,
    }) && enabled.contains(layer.text())
}

pub open spec fn wanted(
    kinds: Seq<RunnerKind>,
    requested: Option<Vec<String>>,
    enabled: Seq<Seq<char>>,
) -> Seq<RunnerKind>
    decreases kinds.len(),
{
    if kinds.len() == 0 {
        Seq::empty()
    } else if is_wanted(kinds.last().layer_of(), requested, enabled) {
        wanted(kinds.drop_last(), requested, enabled).push(kinds.last())
    } else {
        wanted(kinds.drop_last(), requested, enabled)
    }
}

fn runners_of(language: Language) -> (r: Vec<RunnerKind>)
    ensures
        r@ == language_runners(language),
{
    match language {
        Language::Rust => vec![
            RunnerKind::Proptest,
            RunnerKind::Kani,
            RunnerKind::Mutants,
            RunnerKind::CargoFuzz,
            RunnerKind::CargoAudit,
            RunnerKind::Semgrep,
        ],
        Language::TypeScript => vec![
            RunnerKind::Jest,
            RunnerKind::FastCheck,
            RunnerKind::Stryker,
            RunnerKind::Playwright,
            RunnerKind::Eslint,
            RunnerKind::NpmAudit,
            RunnerKind::Semgrep,
        ],
        Language::Python => vec![
            RunnerKind::Pytest,
            RunnerKind::Mypy,
            RunnerKind::Mutmut,
            RunnerKind::Bandit,
            RunnerKind::PipAudit,
            RunnerKind::Semgrep,
        ],
        Language::Go => vec![RunnerKind::GoTest, RunnerKind::GoMutesting, RunnerKind::Semgrep],
        Language::Unknown => vec![RunnerKind::Semgrep],
    }
}

/// The runners to run for a project.
pub fn select_runners(
    project: &ProjectInfo,
    cfg: &BarzelConfig,
    requested: &Option<Vec<String>>,
) -> (r: Vec<RunnerKind>)
    ensures
        r@ == wanted(
            project_runners(*project, *cfg),
            *requested,
            text::views(cfg.layers.enabled@),
        ),
{
    let mut kinds = runners_of(project.language);
    let ghost base = kinds@;
    if project.frameworks.has_ai_deps {
        kinds.push(RunnerKind::AiSec);
    }
    assert(kinds@ =~= base + only(project.frameworks.has_ai_deps, RunnerKind::AiSec));
    let ghost base2 = kinds@;
    if cfg.layers.operational.health_checks.len() > 0 {
        kinds.push(RunnerKind::HealthCheck);
    }
    assert(kinds@ =~= base2 + only(
        cfg.layers.operational.health_checks@.len() > 0,
        RunnerKind::HealthCheck,
    ));
    let ghost base3 = kinds@;
    if cfg.layers.operational.commands.len() > 0 {
        kinds.push(RunnerKind::OperationalCommand);
    }
    assert(kinds@ =~= base3 + only(
        cfg.layers.operational.commands@.len() > 0,
        RunnerKind::OperationalCommand,
    ));
    assert(kinds@ =~= project_runners(*project, *cfg));
    let ghost enabled = text::views(cfg.layers.enabled@);
    let mut r: Vec<RunnerKind> = Vec::new();
    let mut i: usize = 0;
    assert(kinds@.subrange(0, 0) =~= Seq::<RunnerKind>::empty());
    while i < kinds.len()
        invariant
            i <= kinds@.len(),
            enabled == text::views(cfg.layers.enabled@),
            r@ == wanted(kinds@.subrange(0, i as int), *requested, enabled),
        decreases kinds@.len() - i,
    {
        proof {
            let next = kinds@.subrange(0, i + 1);
            assert(next.drop_last() =~= kinds@.subrange(0, i as int));
        }
        let layer = kinds[i].layer().as_str();
        let asked = match requested {
            Some(l) => text::among(l, layer),
            None => true,
        };
        if asked && text::among(&cfg.layers.enabled, layer) {
            r.push(kinds[i]);
        }
        i += 1;
    }
    assert(kinds@.subrange(0, i as int) =~= kinds@);
    r
}

proof fn lemma_wanted(
    kinds: Seq<RunnerKind>,
    requested: Option<Vec<String>>,
    enabled: Seq<Seq<char>>,
    k: RunnerKind,
)
    ensures
        wanted(kinds, requested, enabled).contains(k) <==> kinds.contains(k) && is_wanted(
            k.layer_of(),
            requested,
            enabled,
        ),
    decreases kinds.len(),
{
    if kinds.len() > 0 {
        let front = kinds.drop_last();
        lemma_wanted(front, requested, enabled, k);
        let before = wanted(front, requested, enabled);
        let now = wanted(kinds, requested, enabled);
        assert(kinds.contains(k) <==> front.contains(k) || kinds.last() == k) by {
            if front.contains(k) {
                let i = choose|i: int| 0 <= i < front.len() && front[i] == k;
                assert(kinds[i] == k);
            }
            if kinds.last() == k {
                assert(kinds[kinds.len() - 1] == k);
            }
            if kinds.contains(k) && kinds.last() != k {
                let i = choose|i: int| 0 <= i < kinds.len() && kinds[i] == k;
                assert(front[i] == k);
            }
        }
        if is_wanted(kinds.last().layer_of(), requested, enabled) {
            assert(now.contains(k) <==> before.contains(k) || kinds.last() == k) by {
                if before.contains(k) {
                    let i = choose|i: int| 0 <= i < before.len() && before[i] == k;
                    assert(now[i] == k);
                }
                if kinds.last() == k {
                    assert(now[now.len() - 1] == k);
                }
                if now.contains(k) && kinds.last() != k {
                    let i = choose|i: int| 0 <= i < now.len() && now[i] == k;
                    assert(before[i] == k);
                }
            }
        }
    }
}

/// A runner runs exactly when it is one of the project's and its layer is asked for.
pub proof fn law_runners_run_when_wanted(
    project: ProjectInfo,
    cfg: BarzelConfig,
    requested: Option<Vec<String>>,
    k: RunnerKind,
)
    ensures
        wanted(project_runners(project, cfg), requested, text::views(cfg.layers.enabled@)).contains(k)
            <==> project_runners(project, cfg).contains(k) && is_wanted(
            k.layer_of(),
            requested,
            text::views(cfg.layers.enabled@),
        ),
{
    lemma_wanted(project_runners(project, cfg), requested, text::views(cfg.layers.enabled@), k);
}

// ── runs that are limited to what changed ───────────────────────────────────

pub open spec fn since_text(since: Option<&str>) -> Seq<char> {
    match since {
        Some(s) => s@,
        None => Seq::empty(),
    }
}

/// The layer that tells that nothing had to run.
pub open spec fn skip_layer(lead: Seq<char>, since: Seq<char>, summary: Seq<char>) -> report::LayerResultV {
    report::LayerResultV {
        name: "skipped"@,
        runner: "diff"@,
        status: LayerStatus::Skipped,
        findings: seq![
            report::FindingV {
                severity: Severity::Info,
                code: "NO_CHANGES_SINCE_REV"@,
                message: lead + since + " ("@ + summary + ")"@,
                location: None,
                reproduce_cmd: Some("git diff --name-only "@ + since + " --"@),
                suggestion: None,
            },
        ],
        metrics: report::no_metrics(),
        duration_ms: 0,
    }
}

fn make_skip_layer(lead: &str, since: Option<&str>, ctx: &DiffContext) -> (r: LayerResult)
    ensures
        r@ == skip_layer(lead@, since_text(since), ctx.summary_text()),
        r.findings@.len() == 1,
        report::count(r.findings@, Severity::Critical) == 0,
        report::count(r.findings@, Severity::High) == 0,
        report::count(r.findings@, Severity::Medium) == 0,
        report::count(r.findings@, Severity::Low) == 0,
{
    let rev = match since {
        Some(s) => s.to_string(),
        None => String::new(),
    };
    let summary = ctx.summary();
    let mut findings: Vec<Finding> = Vec::new();
    findings.push(
        Finding {
            severity: Severity::Info,
            code: "NO_CHANGES_SINCE_REV".to_string(),
            message: text::cat5(lead, rev.as_str(), " (", summary.as_str(), ")"),
            location: None,
            reproduce_cmd: Some(text::cat3("git diff --name-only ", rev.as_str(), " --")),
            suggestion: None,
        },
    );
    let r = LayerResult {
        name: "skipped".to_string(),
        runner: "diff".to_string(),
        status: LayerStatus::Skipped,
        findings,
        metrics: LayerMetrics::none(),
        duration_ms: 0,
    };
    proof {
        assert(r@.findings =~= skip_layer(lead@, since_text(since), ctx.summary_text()).findings);
        assert(r.findings@.drop_last() =~= Seq::<Finding>::empty());
        reveal_with_fuel(report::count, 2);
    }
    r
}

/// The layer of a workspace without affected members.
pub fn workspace_skip_layer(since: Option<&str>, ctx: &DiffContext) -> (r: LayerResult)
    ensures
        r@ == skip_layer(
            "No workspace packages affected since "@,
            since_text(since),
            ctx.summary_text(),
        ),
        r.findings@.len() == 1,
        report::count(r.findings@, Severity::Critical) == 0,
        report::count(r.findings@, Severity::High) == 0,
        report::count(r.findings@, Severity::Medium) == 0,
        report::count(r.findings@, Severity::Low) == 0,
{
    make_skip_layer("No workspace packages affected since ", since, ctx)
}

/// The passing report of a project in which nothing changed.
pub fn skip_report(project: ProjectInfo, since: Option<&str>, ctx: &DiffContext) -> (r: BarzelReport)
    ensures
        r.project == project,
        report::layers_view(r.layers@) == seq![
            skip_layer("No source files changed since "@, since_text(since), ctx.summary_text()),
        ],
        r.is_counted(),
        r.status == ReportStatus::Pass,
        r.summary.total_findings == 1,
        r.fail_on@ == "high"@,
        r.workspace_members@.len() == 0,
        text::opt_view(r.diff_since) == (match since {
            Some(s) => Some(s@),
            None => None,
        }),
        r.diff_changed_files == Some(ctx.changed_files@.len() as usize),
        r.diff_fallback_reason is None,
{
    let mut report = BarzelReport::new(project);
    report.diff_since = match since {
        Some(s) => Some(s.to_string()),
        None => None,
    };
    report.diff_changed_files = Some(ctx.changed_files.len());
    let layer = make_skip_layer("No source files changed since ", since, ctx);
    proof {
        assert(report.layers@ =~= Seq::<LayerResult>::empty());
    }
    report.add_layer(layer);
    proof {
        assert(report::layers_view(report.layers@) =~= seq![
            skip_layer("No source files changed since "@, since_text(since), ctx.summary_text()),
        ]);
    }
    report
}

/// A project is left out: what changed neither concerns everything nor stands in it.
pub open spec fn project_skipped(ctx: Option<&DiffContext>, root: Seq<char>) -> bool {
    match ctx {
        Some(c) => !c.needs_full_run() && !c.affects(root),
        None => false,
    }
}

/// Whether a project is left out.
pub fn skips_project(ctx: Option<&DiffContext>, root: &str) -> (r: bool)
    ensures
        r == project_skipped(ctx, root@),
{
    match ctx {
        Some(c) => !c.forces_full_run() && !c.affects_path(root),
        None => false,
    }
}

/// The positions below `n` of the members that something changed in.
pub open spec fn affected(members: Seq<Member>, ctx: DiffContext, n: int) -> Seq<int>
    decreases n,
{
    if n <= 0 {
        Seq::empty()
    } else if ctx.affects(members[n - 1].info.root@) {
        affected(members, ctx, n - 1).push(n - 1)
    } else {
        affected(members, ctx, n - 1)
    }
}

pub open spec fn indices(v: Seq<usize>) -> Seq<int> {
    v.map_values(|i: usize| i as int)
}

/// The members that something changed in.
pub fn select_active_members(members: &Vec<Member>, ctx: &DiffContext) -> (r: Vec<usize>)
    ensures
        indices(r@) == affected(members@, *ctx, members@.len() as int),
{
    let mut r: Vec<usize> = Vec::new();
    let mut i: usize = 0;
    assert(indices(r@) =~= Seq::<int>::empty());
    while i < members.len()
        invariant
            i <= members@.len(),
            indices(r@) == affected(members@, *ctx, i as int),
        decreases members@.len() - i,
    {
        let ghost before = indices(r@);
        if ctx.affects_path(members[i].info.root.as_str()) {
            r.push(i);
            assert(indices(r@) =~= before.push(i as int));
        }
        i += 1;
    }
    r
}

/// All positions below `n`.
pub open spec fn everyone(n: int) -> Seq<int> {
    Seq::new(n as nat, |i: int| i)
}

/// The members to run: all, unless the run is limited and nothing concerns everything.
pub open spec fn active(members: Seq<Member>, ctx: Option<&DiffContext>) -> Seq<int> {
    match ctx {
        Some(c) => if c.needs_full_run() {
            everyone(members.len() as int)
        } else {
            affected(members, *c, members.len() as int)
        },
        None => everyone(members.len() as int),
    }
}

/// The members to run.
pub fn active_members(members: &Vec<Member>, ctx: Option<&DiffContext>) -> (r: Vec<usize>)
    ensures
        indices(r@) == active(members@, ctx),
{
    match ctx {
        Some(c) => {
            if !c.forces_full_run() {
                return select_active_members(members, c);
            }
        },
        None => {},
    }
    let mut r: Vec<usize> = Vec::new();
    let mut i: usize = 0;
    while i < members.len()
        invariant
            i <= members@.len(),
            r@.len() == i,
            forall|k: int| 0 <= k < i ==> #[trigger] r@[k] == k,
        decreases members@.len() - i,
    {
        r.push(i);
        i += 1;
    }
    assert(indices(r@) =~= everyone(members@.len() as int));
    r
}

/// A member is run exactly when the run is not limited, or something that concerns
/// everything changed, or something in the member.
pub proof fn law_affected_members_run(members: Seq<Member>, ctx: Option<&DiffContext>, i: int)
    requires
        0 <= i < members.len(),
    ensures
        active(members, ctx).contains(i) <==> (match ctx {
            Some(c) => c.needs_full_run() || c.affects(members[i].info.root@),
            None => true,
        }),
{
    let all = everyone(members.len() as int);
    assert(all[i] == i);
    match ctx {
        Some(c) => {
            lemma_affected(members, *c, members.len() as int, i);
        },
        None => {},
    }
}

proof fn lemma_affected(members: Seq<Member>, ctx: DiffContext, n: int, i: int)
    requires
        0 <= n <= members.len(),
    ensures
        affected(members, ctx, n).contains(i) <==> 0 <= i < n && ctx.affects(members[i].info.root@),
    decreases n,
{
    if n > 0 {
        lemma_affected(members, ctx, n - 1, i);
        let before = affected(members, ctx, n - 1);
        let now = affected(members, ctx, n);
        if ctx.affects(members[n - 1].info.root@) {
            assert(now.contains(i) <==> before.contains(i) || i == n - 1) by {
                if before.contains(i) {
                    let k = choose|k: int| 0 <= k < before.len() && before[k] == i;
                    assert(now[k] == i);
                }
                if i == n - 1 {
                    assert(now[now.len() - 1] == i);
                }
                if now.contains(i) && i != n - 1 {
                    let k = choose|k: int| 0 <= k < now.len() && now[k] == i;
                    assert(before[k] == i);
                }
            }
        }
    }
}

/// Why a limited run fell back to a full one.
pub fn fallback_reason() -> (r: String)
    ensures
        r@ == "not a git repository or invalid revision"@,
{
    "not a git repository or invalid revision".to_string()
}

/// The heading of a report after a run: the severity to fail on, and what the run was
/// limited to or why it was not.
pub fn with_run_heading(
    report: BarzelReport,
    fail_on: &str,
    since: Option<&str>,
    ctx: Option<&DiffContext>,
) -> (r: BarzelReport)
    ensures
        r.id == report.id,
        r.timestamp == report.timestamp,
        r.project == report.project,
        r.layers == report.layers,
        r.summary == report.summary,
        r.status == report.status,
        r.workspace_members == report.workspace_members,
        r.fail_on@ == fail_on@,
        text::opt_view(r.diff_since) == (match since {
            Some(s) => Some(s@),
            None => None,
        }),
        r.diff_changed_files == (match ctx {
            Some(c) => Some(c.changed_files@.len() as usize),
            None => report.diff_changed_files,
        }),
        text::opt_view(r.diff_fallback_reason) == (match ctx {
            Some(_) => text::opt_view(report.diff_fallback_reason),
            None => if since is Some {
                Some("not a git repository or invalid revision"@)
            } else {
                None
            },
        }),
{
    let mut r = report;
    r.fail_on = fail_on.to_string();
    r.diff_since = match since {
        Some(s) => Some(s.to_string()),
        None => None,
    };
    match ctx {
        Some(c) => {
            r.diff_changed_files = Some(c.changed_files.len());
        },
        None => {
            r.diff_fallback_reason = if since.is_some() {
                Some(fallback_reason())
            } else {
                None
            };
        },
    }
    r
}

// ── workspaces ──────────────────────────────────────────────────────────────

pub open spec fn some_has_tests(members: Seq<Member>) -> bool {
    exists|i: int| 0 <= i < members.len() && (#[trigger] members[i]).info.has_tests
}

/// The project that stands for a whole workspace.
pub open spec fn stands_for_workspace(
    p: ProjectInfo,
    kind: WorkspaceKind,
    members: Seq<Member>,
    root: Seq<char>,
) -> bool {
    &&& p.language == Language::Unknown
    &&& p.root@ == root
    &&& p.has_tests == some_has_tests(members)
    &&& text::opt_view(p.package_name) == Some(kind.text() + "-workspace"@)
    &&& !p.frameworks.is_nextjs
    &&& !p.frameworks.has_ai_deps
    &&& p.frameworks.ai_frameworks@.len() == 0
    &&& p.workspace_root is None
}

/// The project that stands for a whole workspace.
pub fn workspace_project(kind: WorkspaceKind, members: &Vec<Member>, root: &str) -> (r: ProjectInfo)
    ensures
        stands_for_workspace(r, kind, members@, root@),
{
    let mut has_tests = false;
    let mut i: usize = 0;
    while i < members.len()
        invariant
            i <= members@.len(),
            has_tests == exists|k: int| 0 <= k < i && (#[trigger] members@[k]).info.has_tests,
        decreases members@.len() - i,
    {
        if members[i].info.has_tests {
            has_tests = true;
        }
        i += 1;
    }
    ProjectInfo {
        language: Language::Unknown,
        root: root.to_string(),
        has_tests,
        package_name: Some(text::cat(kind.as_str(), "-workspace")),
        frameworks: ProjectFrameworks::default(),
        workspace_root: None,
    }
}

/// What a workspace report holds of a member.
pub open spec fn is_member_report(
    m: WorkspaceMemberReport,
    path: Seq<char>,
    language: Language,
    r: BarzelReport,
) -> bool {
    &&& m.package_path@ == path
    &&& m.language@ == language.text()
    &&& m.status == r.status
    &&& report::layers_view(m.layers@) == report::layers_view(r.layers@)
    &&& m.summary == r.summary
}

fn copy_layers(v: &Vec<LayerResult>) -> (r: Vec<LayerResult>)
    ensures
        report::layers_view(r@) == report::layers_view(v@),
{
    let mut r: Vec<LayerResult> = Vec::new();
    let mut i: usize = 0;
    while i < v.len()
        invariant
            i <= v@.len(),
            r@.len() == i,
            forall|k: int| 0 <= k < i ==> (#[trigger] r@[k])@ == v@[k]@,
        decreases v@.len() - i,
    {
        r.push(copy_layer(&v[i]));
        i += 1;
    }
    assert(report::layers_view(r@) =~= report::layers_view(v@));
    r
}

/// Adds the report of a member to that of its workspace: as a member, and its layers to
/// the layers of the workspace.
pub fn add_member(aggregate: &mut BarzelReport, path: &str, language: Language, member: &BarzelReport)
    requires
        old(aggregate).is_counted(),
        report::total(old(aggregate).layers@) + report::total(member.layers@) <= usize::MAX,
    ensures
        final(aggregate).is_counted(),
        report::layers_view(final(aggregate).layers@) == report::layers_view(
            old(aggregate).layers@,
        ) + report::layers_view(member.layers@),
        report::total(final(aggregate).layers@) == report::total(old(aggregate).layers@)
            + report::total(member.layers@),
        final(aggregate).workspace_members@.len() == old(aggregate).workspace_members@.len() + 1,
        final(aggregate).workspace_members@.drop_last() == old(aggregate).workspace_members@,
        is_member_report(
            final(aggregate).workspace_members@.last(),
            path@,
            language,
            *member,
        ),
        final(aggregate).id == old(aggregate).id,
        final(aggregate).timestamp == old(aggregate).timestamp,
        final(aggregate).project == old(aggregate).project,
        final(aggregate).fail_on == old(aggregate).fail_on,
        final(aggregate).diff_since == old(aggregate).diff_since,
        final(aggregate).diff_changed_files == old(aggregate).diff_changed_files,
        final(aggregate).diff_fallback_reason == old(aggregate).diff_fallback_reason,
{
    let m = WorkspaceMemberReport {
        package_path: path.to_string(),
        language: language.as_str().to_string(),
        status: member.status,
        layers: copy_layers(&member.layers),
        summary: member.summary,
    };
    aggregate.workspace_members.push(m);
    let ghost base = report::layers_view(aggregate.layers@);
    let ghost base_total = report::total(aggregate.layers@);
    let ghost all = member.layers@;
    let ghost start = *aggregate;
    let mut i: usize = 0;
    assert(base + report::layers_view(all.subrange(0, 0)) =~= base);
    while i < member.layers.len()
        invariant
            i <= member.layers@.len(),
            all == member.layers@,
            aggregate.is_counted(),
            report::same_heading(*aggregate, start),
            base_total + report::total(all) <= usize::MAX,
            report::total(aggregate.layers@) == base_total + report::total(
                all.subrange(0, i as int),
            ),
            report::layers_view(aggregate.layers@) == base + report::layers_view(
                all.subrange(0, i as int),
            ),
        decreases member.layers@.len() - i,
    {
        let layer = copy_layer(&member.layers[i]);
        proof {
            let next = all.subrange(0, i + 1);
            assert(next.drop_last() =~= all.subrange(0, i as int));
            assert(next.last() == all[i as int]);
            report::lemma_total_front(all, i + 1);
            report::lemma_room(*aggregate, layer);
        }
        let ghost before = aggregate.layers@;
        aggregate.add_layer(layer);
        proof {
            assert(aggregate.layers@.drop_last() =~= before);
            assert(report::layers_view(aggregate.layers@) =~= report::layers_view(before).push(
                layer@,
            ));
            assert(report::layers_view(all.subrange(0, i + 1)) =~= report::layers_view(
                all.subrange(0, i as int),
            ).push(all[i as int]@));
            assert(report::layers_view(aggregate.layers@) =~= base + report::layers_view(
                all.subrange(0, i + 1),
            ));
        }
        i += 1;
    }
    assert(all.subrange(0, i as int) =~= all);
    assert(aggregate.workspace_members@.drop_last() =~= old(aggregate).workspace_members@);
}

/// How many findings reports hold together.
pub open spec fn findings_of_all(reports: Seq<BarzelReport>) -> nat
    decreases reports.len(),
{
    if reports.len() == 0 {
        0
    } else {
        findings_of_all(reports.drop_last()) + report::total(reports.last().layers@)
    }
}

/// The layers of reports, one report after the other.
pub open spec fn layers_of_all(reports: Seq<BarzelReport>) -> Seq<report::LayerResultV>
    decreases reports.len(),
{
    if reports.len() == 0 {
        Seq::empty()
    } else {
        layers_of_all(reports.drop_last()) + report::layers_view(reports.last().layers@)
    }
}

proof fn lemma_findings_front(reports: Seq<BarzelReport>, n: int)
    requires
        0 <= n <= reports.len(),
    ensures
        findings_of_all(reports.subrange(0, n)) <= findings_of_all(reports),
    decreases reports.len(),
{
    if n == reports.len() {
        assert(reports.subrange(0, n) =~= reports);
    } else {
        lemma_findings_front(reports.drop_last(), n);
        assert(reports.drop_last().subrange(0, n) =~= reports.subrange(0, n));
    }
}

/// What a run has to do.
#[derive(Debug)]
pub enum Plan {
    /// Nothing: what changed does not concern the project.
    SkipProject,
    /// Run the project.
    RunProject,
    /// Nothing: what changed concerns no member.
    SkipWorkspace,
    /// Run the members at these positions, in this order.
    RunMembers(Vec<usize>),
}

/// A project is left out where what changed does not concern it; a workspace where what
/// changed concerns none of its members. A run that is not limited leaves out nothing.
pub open spec fn is_plan(r: Plan, workspace: WorkspaceInfo, ctx: Option<&DiffContext>) -> bool {
    match workspace {
        WorkspaceInfo::Single(project) => if project_skipped(ctx, project.root@) {
            r is SkipProject
        } else {
            r is RunProject
        },
        WorkspaceInfo::Multi { members, .. } => if ctx is Some && active(members@, ctx).len() == 0 {
            r is SkipWorkspace
        } else {
            r matches Plan::RunMembers(v) && indices(v@) == active(members@, ctx)
        },
    }
}

/// What a run has to do, given what changed where the run is limited.
pub fn plan(workspace: &WorkspaceInfo, ctx: Option<&DiffContext>) -> (r: Plan)
    ensures
        is_plan(r, *workspace, ctx),
{
    match workspace {
        WorkspaceInfo::Single(project) => if skips_project(ctx, project.root.as_str()) {
            Plan::SkipProject
        } else {
            Plan::RunProject
        },
        WorkspaceInfo::Multi { members, .. } => {
            let v = active_members(members, ctx);
            assert(indices(v@).len() == v@.len());
            if v.len() == 0 && ctx.is_some() {
                Plan::SkipWorkspace
            } else {
                Plan::RunMembers(v)
            }
        },
    }
}

/// Nothing is left out of a run that is not limited, as where the changes could not be
/// found out, or where something that concerns everything changed.
pub proof fn law_full_runs_leave_out_nothing(
    r: Plan,
    workspace: WorkspaceInfo,
    ctx: Option<&DiffContext>,
)
    requires
        is_plan(r, workspace, ctx),
        ctx matches Some(c) ==> c.needs_full_run(),
    ensures
        workspace is Single ==> r is RunProject,
        workspace matches WorkspaceInfo::Multi { members, .. } ==> members@.len() == 0 || (
        r matches Plan::RunMembers(v) && indices(v@) == everyone(members@.len() as int)),
{
}

/// The report of a workspace after a run: with the skipped layer where the run was limited
/// and no member was run, else with the layers of all members that were run, in order.
/// `ran` holds the positions of those members, `reports` the report of each.
pub fn workspace_report(
    kind: WorkspaceKind,
    members: &Vec<Member>,
    root: &str,
    fail_on: &str,
    since: Option<&str>,
    ctx: Option<&DiffContext>,
    ran: &Vec<usize>,
    reports: &Vec<BarzelReport>,
) -> (r: BarzelReport)
    requires
        ran@.len() == reports@.len(),
        forall|i: int| 0 <= i < ran@.len() ==> #[trigger] ran@[i] < members@.len(),
        findings_of_all(reports@) <= usize::MAX,
    ensures
        r.is_counted(),
        stands_for_workspace(r.project, kind, members@, root@),
        r.fail_on@ == fail_on@,
        text::opt_view(r.diff_since) == (match since {
            Some(s) => Some(s@),
            None => None,
        }),
        r.diff_changed_files == (match ctx {
            Some(c) => Some(c.changed_files@.len() as usize),
            None => None,
        }),
        text::opt_view(r.diff_fallback_reason) == (if ctx is None && since is Some {
            Some("not a git repository or invalid revision"@)
        } else {
            None
        }),
        r.workspace_members@.len() == reports@.len(),
        forall|i: int|
            0 <= i < reports@.len() ==> is_member_report(
                #[trigger] r.workspace_members@[i],
                members@[ran@[i] as int].path@,
                members@[ran@[i] as int].info.language,
                reports@[i],
            ),
        match ctx {
            Some(c) if ran@.len() == 0 => report::layers_view(r.layers@) == seq![
                skip_layer(
                    "No workspace packages affected since "@,
                    since_text(since),
                    c.summary_text(),
                ),
            ],
            _ => {
                &&& report::layers_view(r.layers@) == layers_of_all(reports@)
                &&& r.summary.total_findings == findings_of_all(reports@)
            },
        },
{
    let fresh = BarzelReport::new(workspace_project(kind, members, root));
    let mut r = with_run_heading(fresh, fail_on, since, ctx);
    assert(r.layers@ =~= Seq::<LayerResult>::empty());
    let ghost start = r;
    if ran.len() == 0 {
        match ctx {
            Some(c) => {
                let layer = workspace_skip_layer(since, c);
                r.add_layer(layer);
                assert(report::layers_view(r.layers@) =~= seq![layer@]);
                return r;
            },
            None => {},
        }
    }
    let mut i: usize = 0;
    assert(reports@.subrange(0, 0) =~= Seq::<BarzelReport>::empty());
    assert(report::layers_view(r.layers@) =~= layers_of_all(reports@.subrange(0, 0)));
    while i < reports.len()
        invariant
            i <= reports@.len(),
            ran@.len() == reports@.len(),
            forall|k: int| 0 <= k < ran@.len() ==> #[trigger] ran@[k] < members@.len(),
            findings_of_all(reports@) <= usize::MAX,
            r.is_counted(),
            r.project == start.project,
            r.fail_on == start.fail_on,
            r.diff_since == start.diff_since,
            r.diff_changed_files == start.diff_changed_files,
            r.diff_fallback_reason == start.diff_fallback_reason,
            report::layers_view(r.layers@) == layers_of_all(reports@.subrange(0, i as int)),
            report::total(r.layers@) == findings_of_all(reports@.subrange(0, i as int)),
            r.workspace_members@.len() == i,
            forall|k: int|
                0 <= k < i ==> is_member_report(
                    #[trigger] r.workspace_members@[k],
                    members@[ran@[k] as int].path@,
                    members@[ran@[k] as int].info.language,
                    reports@[k],
                ),
        decreases reports@.len() - i,
    {
        let ghost before = r.workspace_members@;
        proof {
            let next = reports@.subrange(0, i + 1);
            assert(next.drop_last() =~= reports@.subrange(0, i as int));
            assert(next.last() == reports@[i as int]);
            lemma_findings_front(reports@, i + 1);
            assert(ran@[i as int] < members@.len());
        }
        let m = &members[ran[i]];
        add_member(&mut r, m.path.as_str(), m.info.language, &reports[i]);
        proof {
            assert forall|k: int| 0 <= k <= i implies is_member_report(
                #[trigger] r.workspace_members@[k],
                members@[ran@[k] as int].path@,
                members@[ran@[k] as int].info.language,
                reports@[k],
            ) by {
                if k < i {
                    assert(r.workspace_members@.drop_last()[k] == before[k]);
                }
            }
        }
        i += 1;
    }
    assert(reports@.subrange(0, i as int) =~= reports@);
    r
}

// ── the coverage threshold ──────────────────────────────────────────────────

/// Percentages as texts: the coverage of each layer and the minimum with one decimal, and
/// the minimum with none.
pub struct CoverageTexts {
    pub coverage: Vec<String>,
    pub minimum: String,
    pub rounded_minimum: String,
}

pub open spec fn coverage_command(runner: Seq<char>) -> Seq<char> {
    if runner == "pytest"@ {
        "pytest --cov --cov-report=term-missing 2>&1 | tail -20"@
    } else if runner == "jest"@ {
        "npx jest --coverage 2>&1 | tail -20"@
    } else if runner == "go-test"@ {
        "go test ./... -cover 2>&1 | tail -20"@
    } else {
        runner + " (with coverage enabled) 2>&1 | tail -20"@
    }
}

/// The command that shows the coverage of a runner.
pub fn reproduce_cmd_for_runner(runner: &str) -> (r: String)
    ensures
        r@ == coverage_command(runner@),
{
    if text::same(runner, "pytest") {
        "pytest --cov --cov-report=term-missing 2>&1 | tail -20".to_string()
    } else if text::same(runner, "jest") {
        "npx jest --coverage 2>&1 | tail -20".to_string()
    } else if text::same(runner, "go-test") {
        "go test ./... -cover 2>&1 | tail -20".to_string()
    } else {
        text::cat(runner, " (with coverage enabled) 2>&1 | tail -20")
    }
}

pub open spec fn has_code(findings: Seq<report::FindingV>, code: Seq<char>) -> bool {
    exists|i: int| 0 <= i < findings.len() && (#[trigger] findings[i]).code == code
}

/// A logic layer measured less than the minimum, and no finding says so yet.
pub open spec fn falls_short(l: report::LayerResultV, minimum: Percent) -> bool {
    &&& l.name == "logic"@
    &&& l.metrics.coverage is Some
    &&& !l.metrics.coverage->0.reaches(minimum)
    &&& !has_code(l.findings, "COVERAGE_BELOW_THRESHOLD"@)
}

pub open spec fn shortfall(
    runner: Seq<char>,
    coverage: Seq<char>,
    minimum: Seq<char>,
    rounded: Seq<char>,
) -> report::FindingV {
    report::FindingV {
        severity: Severity::High,
        code: "COVERAGE_BELOW_THRESHOLD"@,
        message: "Coverage "@ + coverage + "% is below the configured minimum of "@ + minimum
            + "% (runner: "@ + runner + ")"@,
        location: None,
        reproduce_cmd: Some(coverage_command(runner)),
        suggestion: Some(
            "Increase test coverage to at least "@ + rounded
                + "%. Add tests for uncovered branches and run with coverage reporting enabled."@,
        ),
    }
}

/// The layer with the minimum enforced: a finding more, and no longer passing.
pub open spec fn enforced(
    l: report::LayerResultV,
    least: Percent,
    coverage: Seq<char>,
    minimum: Seq<char>,
    rounded: Seq<char>,
) -> report::LayerResultV {
    if falls_short(l, least) {
        report::LayerResultV {
            findings: l.findings.push(shortfall(l.runner, coverage, minimum, rounded)),
            status: if l.status == LayerStatus::Pass {
                LayerStatus::Partial
            } else {
                l.status
            },
            ..l
        }
    } else {
        l
    }
}

fn mentions(findings: &Vec<Finding>, code: &str) -> (r: bool)
    ensures
        r == has_code(report::findings_view(findings@), code@),
{
    let ghost v = report::findings_view(findings@);
    let mut i: usize = 0;
    while i < findings.len()
        invariant
            i <= findings@.len(),
            v == report::findings_view(findings@),
            forall|k: int| 0 <= k < i ==> (#[trigger] v[k]).code != code@,
        decreases findings@.len() - i,
    {
        assert(v[i as int] == findings@[i as int]@);
        if text::same(findings[i].code.as_str(), code) {
            return true;
        }
        i += 1;
    }
    false
}

fn short_of(l: &LayerResult, least: Percent) -> (r: bool)
    ensures
        r == falls_short(l@, least),
{
    match l.metrics.coverage {
        Some(c) => text::same(l.name.as_str(), "logic") && !c.at_least(least) && !mentions(
            &l.findings,
            "COVERAGE_BELOW_THRESHOLD",
        ),
        None => false,
    }
}

fn enforce(l: &LayerResult, least: Percent, coverage: &str, minimum: &str, rounded: &str) -> (r:
    LayerResult)
    ensures
        r@ == enforced(l@, least, coverage@, minimum@, rounded@),
        r.findings@.len() <= l.findings@.len() + 1,
{
    let mut r = copy_layer(l);
    if short_of(l, least) {
        let front = text::cat4(
            "Coverage ",
            coverage,
            "% is below the configured minimum of ",
            minimum,
        );
        let message = text::cat4(front.as_str(), "% (runner: ", l.runner.as_str(), ")");
        let f = Finding {
            severity: Severity::High,
            code: "COVERAGE_BELOW_THRESHOLD".to_string(),
            message,
            location: None,
            reproduce_cmd: Some(reproduce_cmd_for_runner(l.runner.as_str())),
            suggestion: Some(
                text::cat3(
                    "Increase test coverage to at least ",
                    rounded,
                    "%. Add tests for uncovered branches and run with coverage reporting enabled.",
                ),
            ),
        };
        let ghost before = report::findings_view(r.findings@);
        r.findings.push(f);
        if r.status == LayerStatus::Pass {
            r.status = LayerStatus::Partial;
        }
        proof {
            assert(report::findings_view(r.findings@) =~= before.push(
                shortfall(l.runner@, coverage@, minimum@, rounded@),
            ));
        }
    }
    r
}

/// Some layer falls short.
pub open spec fn some_falls_short(layers: Seq<report::LayerResultV>, least: Percent) -> bool {
    exists|i: int| 0 <= i < layers.len() && falls_short(#[trigger] layers[i], least)
}

/// `after` is `before` with a minimum coverage enforced on each layer, and counted anew
/// where a layer fell short; without a minimum, or where none fell short, it is the same.
pub open spec fn is_enforced(
    after: BarzelReport,
    before: BarzelReport,
    min_coverage: Option<Percent>,
    texts: CoverageTexts,
) -> bool {
    &&& report::same_heading(after, before)
    &&& match min_coverage {
        Some(least) => {
            &&& after.layers@.len() == before.layers@.len()
            &&& forall|i: int|
                0 <= i < after.layers@.len() ==> (#[trigger] after.layers@[i])@ == enforced(
                    before.layers@[i]@,
                    least,
                    texts.coverage@[i]@,
                    texts.minimum@,
                    texts.rounded_minimum@,
                )
            &&& if some_falls_short(report::layers_view(before.layers@), least) {
                after.is_counted()
            } else {
                after == before
            }
        },
        None => after == before,
    }
}

/// Enforces a minimum coverage on the logic layers that measured coverage. Layers that
/// say already that they fall short are left alone.
pub fn apply_coverage_threshold(
    report: &mut BarzelReport,
    min_coverage: Option<Percent>,
    texts: &CoverageTexts,
)
    requires
        texts.coverage@.len() == old(report).layers@.len(),
        report::total(old(report).layers@) + old(report).layers@.len() <= usize::MAX,
    ensures
        is_enforced(*final(report), *old(report), min_coverage, *texts),
{
    let least = match min_coverage {
        Some(t) => t,
        None => {
            return;
        },
    };
    let mut any = false;
    let mut layers: Vec<LayerResult> = Vec::new();
    let ghost was = report.layers@;
    let mut i: usize = 0;
    while i < report.layers.len()
        invariant
            i <= report.layers@.len(),
            was == report.layers@,
            *report == *old(report),
            texts.coverage@.len() == was.len(),
            layers@.len() == i,
            any == some_falls_short(report::layers_view(was.subrange(0, i as int)), least),
            report::total(layers@) <= report::total(was.subrange(0, i as int)) + i,
            forall|k: int|
                0 <= k < i ==> (#[trigger] layers@[k])@ == enforced(
                    was[k]@,
                    least,
                    texts.coverage@[k]@,
                    texts.minimum@,
                    texts.rounded_minimum@,
                ),
        decreases report.layers@.len() - i,
    {
        let ghost front = report::layers_view(was.subrange(0, i as int));
        let ghost next = report::layers_view(was.subrange(0, i + 1));
        let own = short_of(&report.layers[i], least);
        proof {
            assert(next =~= front.push(was[i as int]@));
            assert(was.subrange(0, i + 1).drop_last() =~= was.subrange(0, i as int));
            if some_falls_short(front, least) {
                let k = choose|k: int| 0 <= k < front.len() && falls_short(#[trigger] front[k], least);
                assert(next[k] == front[k]);
            }
            if own {
                assert(falls_short(next[i as int], least));
            }
            if some_falls_short(next, least) && !own {
                let k = choose|k: int| 0 <= k < next.len() && falls_short(#[trigger] next[k], least);
                assert(front[k] == next[k]);
            }
        }
        if own {
            any = true;
        }
        let l = enforce(
            &report.layers[i],
            least,
            texts.coverage[i].as_str(),
            texts.minimum.as_str(),
            texts.rounded_minimum.as_str(),
        );
        let ghost before = layers@;
        layers.push(l);
        assert(layers@.drop_last() =~= before);
        i += 1;
    }
    assert(was.subrange(0, i as int) =~= was);
    if any {
        report.layers = layers;
        report.recompute_summary();
    } else {
        proof {
            assert forall|k: int| 0 <= k < was.len() implies (#[trigger] was[k])@ == enforced(
                was[k]@,
                least,
                texts.coverage@[k]@,
                texts.minimum@,
                texts.rounded_minimum@,
            ) by {
                assert(report::layers_view(was)[k] == was[k]@);
            }
        }
    }
}

proof fn lemma_enforced_once(
    l: report::LayerResultV,
    least: Percent,
    coverage: Seq<char>,
    minimum: Seq<char>,
    rounded: Seq<char>,
)
    ensures
        !falls_short(enforced(l, least, coverage, minimum, rounded), least),
{
    let once = enforced(l, least, coverage, minimum, rounded);
    if falls_short(l, least) {
        assert(once.findings[l.findings.len() as int].code == "COVERAGE_BELOW_THRESHOLD"@);
    }
}

/// Enforcing a minimum twice is enforcing it once: the second time changes nothing in the
/// report, neither findings nor statuses nor counts.
pub proof fn law_threshold_is_idempotent(
    report: BarzelReport,
    once: BarzelReport,
    twice: BarzelReport,
    min_coverage: Option<Percent>,
    first: CoverageTexts,
    second: CoverageTexts,
)
    requires
        is_enforced(once, report, min_coverage, first),
        is_enforced(twice, once, min_coverage, second),
    ensures
        twice == once,
{
    match min_coverage {
        Some(least) => {
            let v = report::layers_view(once.layers@);
            assert forall|i: int| 0 <= i < v.len() implies !falls_short(#[trigger] v[i], least) by {
                assert(v[i] == once.layers@[i]@);
                lemma_enforced_once(
                    report.layers@[i]@,
                    least,
                    first.coverage@[i]@,
                    first.minimum@,
                    first.rounded_minimum@,
                );
            }
        },
        None => {},
    }
}

// ── output ──────────────────────────────────────────────────────────────────

/// The part of a row that tells the details of a layer. `coverage` and `mutation_score`
/// are its percentages as texts without decimals.
pub open spec fn detail_parts(
    l: report::LayerResultV,
    coverage: Seq<char>,
    mutation_score: Seq<char>,
) -> Seq<Seq<char>> {
    (if l.metrics.tests_run > 0 {
        seq![text::decimal(l.metrics.tests_run as nat) + " tests"@]
    } else {
        Seq::empty()
    }) + (if l.metrics.coverage is Some {
        seq![coverage + "% cov"@]
    } else {
        Seq::empty()
    }) + (if l.metrics.mutation_score is Some {
        seq![mutation_score + "% mut"@]
    } else {
        Seq::empty()
    }) + seq![text::decimal(l.duration_ms as nat) + "ms"@]
}

pub open spec fn detail_of(
    l: report::LayerResultV,
    coverage: Seq<char>,
    mutation_score: Seq<char>,
) -> Seq<char> {
    match l.status {
        LayerStatus::Pass => text::joined(detail_parts(l, coverage, mutation_score), " · "@),
        LayerStatus::Skipped => if l.findings.len() > 0 {
            l.findings[0].message
        } else {
            Seq::empty()
        },
        _ => text::decimal(l.findings.len()) + " finding"@ + config::plural(l.findings.len()),
    }
}

fn push_text(v: &mut Vec<String>, s: String)
    ensures
        text::views(final(v)@) == text::views(old(v)@).push(s@),
{
    v.push(s);
    assert(text::views(v@) =~= text::views(old(v)@).push(s@));
}

/// What a row tells of a layer.
pub fn layer_detail(l: &LayerResult, coverage: &str, mutation_score: &str) -> (r: String)
    ensures
        r@ == detail_of(l@, coverage@, mutation_score@),
{
    match l.status {
        LayerStatus::Pass => {
            let mut parts: Vec<String> = Vec::new();
            assert(text::views(parts@) =~= Seq::<Seq<char>>::empty());
            if l.metrics.tests_run > 0 {
                let n = text::number(l.metrics.tests_run);
                push_text(&mut parts, text::cat(n.as_str(), " tests"));
            }
            if l.metrics.coverage.is_some() {
                push_text(&mut parts, text::cat(coverage, "% cov"));
            }
            if l.metrics.mutation_score.is_some() {
                push_text(&mut parts, text::cat(mutation_score, "% mut"));
            }
            let ms = text::number(l.duration_ms);
            push_text(&mut parts, text::cat(ms.as_str(), "ms"));
            assert(text::views(parts@) =~= detail_parts(l@, coverage@, mutation_score@));
            text::join(&parts, " · ")
        },
        LayerStatus::Skipped => if l.findings.len() > 0 {
            assert(l@.findings[0] == l.findings@[0]@);
            l.findings[0].message.clone()
        } else {
            String::new()
        },
        _ => {
            let n = text::number(l.findings.len() as u64);
            text::cat3(n.as_str(), " finding", config::plural_s(l.findings.len()))
        },
    }
}

/// The findings of the severity `fail_on` or worse make a run fail; unknown words stand
/// for `high`.
pub open spec fn fails(s: report::Summary, fail_on: Seq<char>) -> bool {
    if fail_on == "critical"@ {
        s.critical > 0
    } else if fail_on == "medium"@ {
        s.critical > 0 || s.high > 0 || s.medium > 0
    } else if fail_on == "low"@ {
        s.critical > 0 || s.high > 0 || s.medium > 0 || s.low > 0
    } else if fail_on == "any"@ {
        s.total_findings > 0
    } else {
        s.critical > 0 || s.high > 0
    }
}

/// The exit code of a run: 1 where it fails, 2 where it does not pass, else 0.
pub open spec fn exit_code(report: BarzelReport) -> u8 {
    if fails(report.summary, report.fail_on@) {
        1
    } else if report.status != ReportStatus::Pass {
        2
    } else {
        0
    }
}

/// The exit code of a run, by its findings and its status.
pub fn report_exit_code(report: &BarzelReport) -> (r: u8)
    ensures
        r == exit_code(*report),
        r == (if fails(report.summary, report.fail_on@) {
            1u8
        } else if report.status != ReportStatus::Pass {
            2u8
        } else {
            0u8
        }),
{
    let f = report.fail_on.as_str();
    let s = report.summary;
    let fail = if text::same(f, "critical") {
        s.critical > 0
    } else if text::same(f, "medium") {
        s.critical > 0 || s.high > 0 || s.medium > 0
    } else if text::same(f, "low") {
        s.critical > 0 || s.high > 0 || s.medium > 0 || s.low > 0
    } else if text::same(f, "any") {
        s.total_findings > 0
    } else {
        s.critical > 0 || s.high > 0
    };
    if fail {
        1
    } else if report.status != ReportStatus::Pass {
        2
    } else {
        0
    }
}

/// Failing on a lower severity only adds failures.
pub proof fn law_lower_bars_fail_more(s: report::Summary)
    requires
        s.critical + s.high + s.medium + s.low <= s.total_findings,
    ensures
        fails(s, "critical"@) ==> fails(s, "high"@),
        fails(s, "high"@) ==> fails(s, "medium"@),
        fails(s, "medium"@) ==> fails(s, "low"@),
        fails(s, "low"@) ==> fails(s, "any"@),
{
    reveal_strlit("critical");
    reveal_strlit("high");
    reveal_strlit("medium");
    reveal_strlit("low");
    reveal_strlit("any");
    assert("high"@[0] != "critical"@[0] && "high"@[0] != "medium"@[0] && "high"@[0] != "low"@[0]
        && "high"@[0] != "any"@[0]);
    assert("medium"@[0] != "critical"@[0] && "low"@[0] != "critical"@[0] && "any"@[0]
        != "critical"@[0]);
    assert("low"@[0] != "medium"@[0] && "any"@[0] != "medium"@[0] && "any"@[0] != "low"@[0]);
}

// ── laws ────────────────────────────────────────────────────────────────────

/// The exit code of a counted report is 1 exactly where a layer has a finding that is at
/// least as severe as the report may have none of; else 2 where it does not pass, else 0.
pub proof fn law_severe_findings_fail_the_run(r: BarzelReport)
    requires
        r.is_counted(),
    ensures
        ({
            let critical = report::some_finding(r.layers@, Severity::Critical);
            let high = report::some_finding(r.layers@, Severity::High);
            let medium = report::some_finding(r.layers@, Severity::Medium);
            let low = report::some_finding(r.layers@, Severity::Low);
            &&& r.fail_on@ == "critical"@ ==> (exit_code(r) == 1 <==> critical)
            &&& r.fail_on@ == "high"@ ==> (exit_code(r) == 1 <==> critical || high)
            &&& r.fail_on@ != "critical"@ && r.fail_on@ != "medium"@ && r.fail_on@ != "low"@
                && r.fail_on@ != "any"@ ==> (exit_code(r) == 1 <==> critical || high)
            &&& r.fail_on@ == "medium"@ ==> (exit_code(r) == 1 <==> critical || high || medium)
            &&& r.fail_on@ == "low"@ ==> (exit_code(r) == 1 <==> critical || high || medium || low)
            &&& r.fail_on@ == "any"@ ==> (exit_code(r) == 1 <==> report::total(r.layers@) > 0)
            &&& exit_code(r) == 0 || exit_code(r) == 1 || exit_code(r) == 2
            &&& exit_code(r) == 0 ==> r.status == ReportStatus::Pass
            &&& exit_code(r) == 2 ==> r.status != ReportStatus::Pass
        }),
{
    report::lemma_tally_finds(r.layers@, Severity::Critical);
    report::lemma_tally_finds(r.layers@, Severity::High);
    report::lemma_tally_finds(r.layers@, Severity::Medium);
    report::lemma_tally_finds(r.layers@, Severity::Low);
    report::law_severities_make_up_the_total(r.layers@);
    reveal_strlit("critical");
    reveal_strlit("high");
    reveal_strlit("medium");
    reveal_strlit("low");
    reveal_strlit("any");
    assert("high"@.len() == 4 && "critical"@.len() == 8 && "medium"@.len() == 6);
    assert("low"@.len() == 3 && "any"@.len() == 3 && "low"@[0] != "any"@[0]);
}

/// What runs for each language, in order.
pub proof fn law_runners_of_languages(k: RunnerKind)
    ensures
        language_runners(Language::Rust).contains(k) <==> k is Proptest || k is Kani || k is Mutants
            || k is CargoFuzz || k is CargoAudit || k is Semgrep,
        language_runners(Language::TypeScript).contains(k) <==> k is Jest || k is FastCheck
            || k is Stryker || k is Playwright || k is Eslint || k is NpmAudit || k is Semgrep,
        language_runners(Language::Python).contains(k) <==> k is Pytest || k is Mypy || k is Mutmut
            || k is Bandit || k is PipAudit || k is Semgrep,
        language_runners(Language::Go).contains(k) <==> k is GoTest || k is GoMutesting
            || k is Semgrep,
        language_runners(Language::Unknown).contains(k) <==> k is Semgrep,
{
    let a = language_runners(Language::Rust);
    assert(a[0] is Proptest && a[1] is Kani && a[2] is Mutants && a[3] is CargoFuzz
        && a[4] is CargoAudit && a[5] is Semgrep);
    let b = language_runners(Language::TypeScript);
    assert(b[0] is Jest && b[1] is FastCheck && b[2] is Stryker && b[3] is Playwright
        && b[4] is Eslint && b[5] is NpmAudit && b[6] is Semgrep);
    let c = language_runners(Language::Python);
    assert(c[0] is Pytest && c[1] is Mypy && c[2] is Mutmut && c[3] is Bandit && c[4] is PipAudit
        && c[5] is Semgrep);
    let d = language_runners(Language::Go);
    assert(d[0] is GoTest && d[1] is GoMutesting && d[2] is Semgrep);
    let e = language_runners(Language::Unknown);
    assert(e[0] is Semgrep);
}

/// The layer of each runner.
pub proof fn law_layers_of_runners(k: RunnerKind)
    ensures
        k.layer_of() == Layer::Logic <==> k is Proptest || k is Kani || k is Jest || k is FastCheck
            || k is Pytest || k is Mypy || k is GoTest,
        k.layer_of() == Layer::Structure <==> k is Mutants || k is Stryker || k is Mutmut
            || k is GoMutesting,
        k.layer_of() == Layer::Operational <==> k is Playwright || k is HealthCheck
            || k is OperationalCommand,
        k.layer_of() == Layer::Hostile <==> k is CargoFuzz || k is CargoAudit || k is Semgrep
            || k is Eslint || k is NpmAudit || k is Bandit || k is PipAudit || k is AiSec,
{
}

/// A project runs the runners of its language; the scan of AI code where it uses AI
/// libraries; health checks and commands where some are configured. Of these it runs those
/// whose layer is enabled and, where layers were asked for, among them.
pub proof fn law_what_a_project_runs(
    project: ProjectInfo,
    cfg: BarzelConfig,
    requested: Option<Vec<String>>,
    k: RunnerKind,
)
    ensures
        wanted(project_runners(project, cfg), requested, text::views(cfg.layers.enabled@)).contains(
            k,
        ) <==> (language_runners(project.language).contains(k) || (k is AiSec
            && project.frameworks.has_ai_deps) || (k is HealthCheck
            && cfg.layers.operational.health_checks@.len() > 0) || (k is OperationalCommand
            && cfg.layers.operational.commands@.len() > 0)) && text::views(
            cfg.layers.enabled@,
        ).contains(k.layer_of().text()) && (requested matches Some(l) ==> text::views(
            l@,
        ).contains(k.layer_of().text())),
        wanted(project_runners(project, cfg), requested, text::views(cfg.layers.enabled@))
            == project_runners(project, cfg).filter(
            |x: RunnerKind|
                text::views(cfg.layers.enabled@).contains(x.layer_of().text()) && (
                requested matches Some(l) ==> text::views(l@).contains(x.layer_of().text())),
        ),
{
    law_runners_run_when_wanted(project, cfg, requested, k);
    let a = language_runners(project.language);
    let b = only(project.frameworks.has_ai_deps, RunnerKind::AiSec);
    let c = only(cfg.layers.operational.health_checks@.len() > 0, RunnerKind::HealthCheck);
    let d = only(cfg.layers.operational.commands@.len() > 0, RunnerKind::OperationalCommand);
    lemma_kinds(a, b, k);
    lemma_kinds(a + b, c, k);
    lemma_kinds(a + b + c, d, k);
    lemma_only(project.frameworks.has_ai_deps, RunnerKind::AiSec, k);
    lemma_only(cfg.layers.operational.health_checks@.len() > 0, RunnerKind::HealthCheck, k);
    lemma_only(cfg.layers.operational.commands@.len() > 0, RunnerKind::OperationalCommand, k);
    lemma_wanted_is_filter(
        project_runners(project, cfg),
        requested,
        text::views(cfg.layers.enabled@),
    );
}

proof fn lemma_only(on: bool, kind: RunnerKind, k: RunnerKind)
    ensures
        only(on, kind).contains(k) <==> on && k == kind,
{
    if on {
        assert(only(on, kind)[0] == kind);
    }
}

proof fn lemma_kinds(a: Seq<RunnerKind>, b: Seq<RunnerKind>, k: RunnerKind)
    ensures
        (a + b).contains(k) <==> a.contains(k) || b.contains(k),
{
    if a.contains(k) {
        let i = choose|i: int| 0 <= i < a.len() && a[i] == k;
        assert((a + b)[i] == k);
    }
    if b.contains(k) {
        let i = choose|i: int| 0 <= i < b.len() && b[i] == k;
        assert((a + b)[a.len() + i] == k);
    }
    if (a + b).contains(k) {
        let i = choose|i: int| 0 <= i < (a + b).len() && (a + b)[i] == k;
        if i < a.len() {
            assert(a[i] == k);
        } else {
            assert(b[i - a.len()] == k);
        }
    }
}

proof fn lemma_wanted_is_filter(
    kinds: Seq<RunnerKind>,
    requested: Option<Vec<String>>,
    enabled: Seq<Seq<char>>,
)
    ensures
        wanted(kinds, requested, enabled) == kinds.filter(
            |x: RunnerKind|
                enabled.contains(x.layer_of().text()) && (requested matches Some(l) ==> text::views(
                    l@,
                ).contains(x.layer_of().text())),
        ),
    decreases kinds.len(),
{
    reveal(Seq::filter);
    if kinds.len() > 0 {
        lemma_wanted_is_filter(kinds.drop_last(), requested, enabled);
    }
}

/// A request is well exactly where it names at least one layer and only layers that there
/// are.
pub proof fn law_requests_name_layers(names: Seq<Seq<char>>)
    ensures
        request_fault(names) is None <==> names.len() > 0 && forall|i: int|
            0 <= i < names.len() ==> (#[trigger] names[i] == "logic"@ || names[i] == "structural"@
                || names[i] == "hostile"@ || names[i] == "operational"@),
{
    config::law_unknown_layers(names);
    if request_fault(names) is None {
        assert forall|i: int| 0 <= i < names.len() implies (#[trigger] names[i] == "logic"@
            || names[i] == "structural"@ || names[i] == "hostile"@ || names[i]
            == "operational"@) by {
            assert(config::is_layer_name(names[i]));
        }
    }
    if forall|i: int|
        0 <= i < names.len() ==> (#[trigger] names[i] == "logic"@ || names[i] == "structural"@
            || names[i] == "hostile"@ || names[i] == "operational"@) {
        assert forall|i: int| 0 <= i < names.len() implies config::is_layer_name(
            #[trigger] names[i],
        ) by {}
    }
}

/// A member of a workspace runs exactly where no revision was asked for, where a change
/// forces a full run, or where a file that git printed stands in it. Nothing runs where a
/// revision was asked for and no member would.
pub proof fn law_changed_members_run(
    r: Plan,
    workspace: WorkspaceInfo,
    members: Vec<Member>,
    kind: WorkspaceKind,
    c: DiffContext,
    diff: crate::process::ProcessOutput,
    untracked: Option<&crate::process::ProcessOutput>,
    i: int,
    path: Seq<char>,
)
    requires
        workspace matches WorkspaceInfo::Multi { members: m, .. } && m == members,
        is_plan(r, workspace, Some(&c)),
        text::views(c.changed_files@) == crate::diff::changed_in(diff, untracked),
        text::views(c.absolute_files@) == crate::diff::joined_paths(
            c.repo_root@,
            text::views(c.changed_files@),
        ),
        0 <= i < members@.len(),
        path.len() > 0,
        text::lines_of(diff.stdout@).contains(path),
        crate::diff::is_within(c.repo_root@ + "/"@ + path, members@[i].info.root@),
    ensures
        r matches Plan::RunMembers(v) && indices(v@).contains(i),
{
    crate::diff::law_every_printed_line_is_a_change(diff, untracked, path);
    crate::diff::law_changes_affect_where_they_stand(c, members@[i].info.root@);
    let all = text::views(c.changed_files@);
    let k = choose|k: int| 0 <= k < all.len() && all[k] == path;
    assert(all[k] == c.changed_files@[k]@);
    assert(c.affects(members@[i].info.root@));
    law_affected_members_run(members@, Some(&c), i);
    let a = active(members@, Some(&c));
    let m = choose|m: int| 0 <= m < a.len() && a[m] == i;
    assert(a.len() > 0);
}

/// A member that no change concerns does not run, and nothing runs where none does.
pub proof fn law_unchanged_members_rest(
    r: Plan,
    workspace: WorkspaceInfo,
    members: Vec<Member>,
    c: DiffContext,
    i: int,
)
    requires
        workspace matches WorkspaceInfo::Multi { members: m, .. } && m == members,
        is_plan(r, workspace, Some(&c)),
        !c.needs_full_run(),
        0 <= i < members@.len(),
        !c.affects(members@[i].info.root@),
    ensures
        r matches Plan::RunMembers(v) ==> !indices(v@).contains(i),
        (forall|k: int|
            0 <= k < members@.len() ==> !c.affects((#[trigger] members@[k]).info.root@))
            ==> r is SkipWorkspace,
{
    law_affected_members_run(members@, Some(&c), i);
    let a = active(members@, Some(&c));
    if a.len() > 0 {
        lemma_active_in_range(members@, c, members@.len() as int);
        let k = a[0];
        assert(a.contains(k));
        law_affected_members_run(members@, Some(&c), k);
        assert(c.affects(members@[k].info.root@));
    }
}

proof fn lemma_active_in_range(members: Seq<Member>, c: DiffContext, n: int)
    ensures
        forall|k: int|
            0 <= k < affected(members, c, n).len() ==> 0 <= #[trigger] affected(members, c, n)[k]
                < n,
    decreases n,
{
    if n > 0 {
        lemma_active_in_range(members, c, n - 1);
        let a = affected(members, c, n - 1);
        let b = affected(members, c, n);
        assert forall|k: int| 0 <= k < b.len() implies 0 <= #[trigger] b[k] < n by {
            if k < a.len() {
                assert(b[k] == a[k]);
            }
        }
    }
}

/// A single project rests exactly where a revision was asked for, nothing forces a full run
/// and no change stands in it.
pub proof fn law_unchanged_projects_rest(r: Plan, project: ProjectInfo, ctx: Option<&DiffContext>)
    requires
        is_plan(r, WorkspaceInfo::Single(project), ctx),
    ensures
        r is SkipProject <==> (ctx matches Some(c) && !c.needs_full_run() && !c.affects(
            project.root@,
        )),
        r is SkipProject || r is RunProject,
{
}

/// A logic layer whose coverage lies under the minimum gets a high finding and does not
/// pass any more; layers of other names, without a coverage, with one that reaches the
/// minimum, or that have the finding already stay as they are.
pub proof fn law_low_coverage_is_found(
    l: report::LayerResultV,
    least: Percent,
    coverage: Seq<char>,
    minimum: Seq<char>,
    rounded: Seq<char>,
)
    ensures
        ({
            let r = enforced(l, least, coverage, minimum, rounded);
            &&& l.name == "logic"@ && (l.metrics.coverage matches Some(c) && c.under(least))
                && !has_code(l.findings, "COVERAGE_BELOW_THRESHOLD"@) ==> r.findings.len()
                == l.findings.len() + 1 && r.findings.subrange(0, l.findings.len() as int)
                == l.findings && r.findings.last().severity == Severity::High
                && r.findings.last().code == "COVERAGE_BELOW_THRESHOLD"@ && r.status
                != LayerStatus::Pass && (l.status != LayerStatus::Pass ==> r.status == l.status) && (
            l.status == LayerStatus::Pass ==> r.status == LayerStatus::Partial)
            &&& l.name != "logic"@ ==> r == l
            &&& l.metrics.coverage is None ==> r == l
            &&& (l.metrics.coverage matches Some(c) && c.reaches(least)) ==> r == l
            &&& has_code(l.findings, "COVERAGE_BELOW_THRESHOLD"@) ==> r == l
            &&& r.name == l.name && r.runner == l.runner && r.metrics == l.metrics && r.duration_ms
                == l.duration_ms
        }),
{
    let r = enforced(l, least, coverage, minimum, rounded);
    if falls_short(l, least) {
        assert(r.findings.subrange(0, l.findings.len() as int) =~= l.findings);
    }
}

/// A report of a workspace has the layers and the findings of all its members, in order.
pub proof fn law_workspace_has_all_layers(reports: Seq<BarzelReport>, r: BarzelReport)
    ensures
        layers_of_all(Seq::empty()) == Seq::<report::LayerResultV>::empty(),
        layers_of_all(reports.push(r)) == layers_of_all(reports) + report::layers_view(r.layers@),
        findings_of_all(Seq::empty()) == 0,
        findings_of_all(reports.push(r)) == findings_of_all(reports) + report::total(r.layers@),
{
    assert(reports.push(r).drop_last() =~= reports);
}

/// The detail of a layer that passed tells its tests, measurements and time; of one that
/// was skipped the reason; of any other how many findings it has.
pub proof fn law_details_of_layers(l: report::LayerResultV, cov: Seq<char>, score: Seq<char>)
    ensures
        l.status == LayerStatus::Skipped && l.findings.len() > 0 ==> detail_of(l, cov, score)
            == l.findings[0].message,
        (l.status == LayerStatus::Fail || l.status == LayerStatus::Partial) && l.findings.len() == 1
            ==> detail_of(l, cov, score) == text::decimal(1) + " finding"@,
        (l.status == LayerStatus::Fail || l.status == LayerStatus::Partial) && l.findings.len() != 1
            ==> detail_of(l, cov, score) == text::decimal(l.findings.len()) + " finding"@ + "s"@,
        l.status == LayerStatus::Pass && l.metrics.tests_run == 0 && l.metrics.coverage is None
            && l.metrics.mutation_score is None ==> detail_of(l, cov, score) == text::decimal(
            l.duration_ms as nat,
        ) + "ms"@,
        detail_parts(l, cov, score).last() == text::decimal(l.duration_ms as nat) + "ms"@,
        l.metrics.tests_run > 0 ==> detail_parts(l, cov, score)[0] == text::decimal(
            l.metrics.tests_run as nat,
        ) + " tests"@,
        l.metrics.coverage is Some ==> detail_parts(l, cov, score).contains(cov + "% cov"@),
        l.metrics.mutation_score is Some ==> detail_parts(l, cov, score).contains(score + "% mut"@),
{
    let v = detail_parts(l, cov, score);
    let a = if l.metrics.tests_run > 0 {
        1int
    } else {
        0int
    };
    let b = if l.metrics.coverage is Some {
        1int
    } else {
        0int
    };
    if l.metrics.coverage is Some {
        assert(v[a] == cov + "% cov"@);
    }
    if l.metrics.mutation_score is Some {
        assert(v[a + b] == score + "% mut"@);
    }
    assert(text::decimal(1) + " finding"@ + Seq::<char>::empty() =~= text::decimal(1)
        + " finding"@);
}

/// What is said of a skipped project or workspace.
pub proof fn law_what_a_skipped_run_says(lead: Seq<char>, since: Seq<char>, summary: Seq<char>)
    ensures
        skip_layer(lead, since, summary).status == LayerStatus::Skipped,
        skip_layer(lead, since, summary).findings.len() == 1,
        skip_layer(lead, since, summary).findings[0].severity == Severity::Info,
        skip_layer(lead, since, summary).findings[0].code == "NO_CHANGES_SINCE_REV"@,
        skip_layer(lead, since, summary).findings[0].message == lead + since + " ("@ + summary
            + ")"@,
{
}

/// What is told of a request that is not well.
pub proof fn law_what_a_wrong_request_is_told_as(names: Seq<Seq<char>>)
    ensures
        names.len() == 0 ==> request_fault(names) == Some(
            "layers must not be empty; valid layers: logic, structural, hostile, operational"@,
        ),
        names.len() > 0 && config::unknown_layers(names).len() == 1 ==> request_fault(names) == Some(
            "unknown layer"@ + Seq::<char>::empty() + ": "@ + text::joined(
                config::unknown_layers(names),
                ", "@,
            ) + "; valid layers: logic, structural, hostile, operational"@,
        ),
        names.len() > 0 && config::unknown_layers(names).len() > 1 ==> request_fault(names) == Some(
            "unknown layer"@ + "s"@ + ": "@ + text::joined(config::unknown_layers(names), ", "@)
                + "; valid layers: logic, structural, hostile, operational"@,
        ),
{
}

/// What stands in for the layers of a run that was skipped, and for a workspace as a whole.
pub proof fn law_what_stands_in(
    lead: Seq<char>,
    since: Seq<char>,
    summary: Seq<char>,
    p: ProjectInfo,
    kind: WorkspaceKind,
    members: Seq<Member>,
    root: Seq<char>,
)
    ensures
        skip_layer(lead, since, summary).name == "skipped"@,
        skip_layer(lead, since, summary).runner == "diff"@,
        skip_layer(lead, since, summary).findings[0].reproduce_cmd == Some(
            "git diff --name-only "@ + since + " --"@,
        ),
        stands_for_workspace(p, kind, members, root) ==> text::opt_view(p.package_name) == Some(
            kind.text() + "-workspace"@,
        ) && p.root@ == root && p.language == Language::Unknown && (p.has_tests <==> exists|i: int|
            0 <= i < members.len() && (#[trigger] members[i]).info.has_tests),
{
}

/// How coverage is measured again.
pub proof fn law_how_coverage_is_measured_again(runner: Seq<char>)
    ensures
        coverage_command("pytest"@) == "pytest --cov --cov-report=term-missing 2>&1 | tail -20"@,
        coverage_command("jest"@) == "npx jest --coverage 2>&1 | tail -20"@,
        coverage_command("go-test"@) == "go test ./... -cover 2>&1 | tail -20"@,
        runner != "pytest"@ && runner != "jest"@ && runner != "go-test"@ ==> coverage_command(runner)
            == runner + " (with coverage enabled) 2>&1 | tail -20"@,
{
    reveal_strlit("pytest");
    reveal_strlit("jest");
    reveal_strlit("go-test");
    assert("pytest"@.len() == 6 && "jest"@.len() == 4 && "go-test"@.len() == 7);
}

/// What is said of a coverage that falls short.
pub proof fn law_what_a_shortfall_says(
    runner: Seq<char>,
    coverage: Seq<char>,
    minimum: Seq<char>,
    rounded: Seq<char>,
)
    ensures
        shortfall(runner, coverage, minimum, rounded).message == "Coverage "@ + coverage
            + "% is below the configured minimum of "@ + minimum + "% (runner: "@ + runner + ")"@,
        shortfall(runner, coverage, minimum, rounded).suggestion == Some(
            "Increase test coverage to at least "@ + rounded
                + "%. Add tests for uncovered branches and run with coverage reporting enabled."@,
        ),
        shortfall(runner, coverage, minimum, rounded).reproduce_cmd == Some(
            coverage_command(runner),
        ),
        shortfall(runner, coverage, minimum, rounded).location is None,
{
}

/// The parts of the detail of a passed layer are joined by a middle dot.
pub proof fn law_details_are_joined(l: report::LayerResultV, cov: Seq<char>, score: Seq<char>)
    requires
        l.status == LayerStatus::Pass,
    ensures
        detail_of(l, cov, score) == text::joined(detail_parts(l, cov, score), " · "@),
{
}

/// What a workspace report keeps of the report of a member.
pub proof fn law_what_is_kept_of_a_member(
    m: WorkspaceMemberReport,
    path: Seq<char>,
    language: Language,
    r: BarzelReport,
)
    requires
        is_member_report(m, path, language, r),
    ensures
        m.package_path@ == path && m.language@ == language.text() && m.status == r.status,
        m.summary == r.summary,
        report::layers_view(m.layers@) == report::layers_view(r.layers@),
{
}

/// Whether anything falls short is decided layer by layer: by the logic layers whose coverage
/// does not reach the minimum and that do not say so yet.
pub proof fn law_when_coverage_falls_short(l: report::LayerResultV, least: Percent, c: Percent)
    requires
        l.metrics.coverage == Some(c),
    ensures
        l.name == "logic"@ && !c.reaches(least) && !has_code(
            l.findings,
            "COVERAGE_BELOW_THRESHOLD"@,
        ) <==> falls_short(l, least),
        some_falls_short(seq![l], least) <==> falls_short(l, least),
{
    assert(seq![l][0] == l);
}

} // verus!
