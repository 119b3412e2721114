use barzel::compare::{
    compare_reports, measurements, status_improved, status_worsened, Improvement, LayerDifference,
    Regression, ReportComparison, Verdict,
};
use barzel::detect::{Language, ProjectFrameworks, ProjectInfo};
use barzel::percent::Percent;
use barzel::report::{
    BarzelReport, Finding, LayerMetrics, LayerResult, LayerStatus, Severity, StoredReport,
};

fn pct(x: f64) -> Percent {
    Percent { bits: x.to_bits() }
}

fn project() -> ProjectInfo {
    ProjectInfo {
        language: Language::Python,
        root: "/tmp".to_string(),
        has_tests: true,
        package_name: Some("myapp".to_string()),
        frameworks: ProjectFrameworks::default(),
        workspace_root: None,
    }
}

fn layer(name: &str, runner: &str, status: LayerStatus, findings: Vec<Finding>) -> LayerResult {
    LayerResult {
        name: name.to_string(),
        runner: runner.to_string(),
        status,
        findings,
        metrics: LayerMetrics::default(),
        duration_ms: 0,
    }
}

fn layer_with_metrics(
    name: &str,
    runner: &str,
    status: LayerStatus,
    coverage: Option<f64>,
    mutation_score: Option<f64>,
) -> LayerResult {
    LayerResult {
        metrics: LayerMetrics {
            coverage: coverage.map(pct),
            mutation_score: mutation_score.map(pct),
            ..Default::default()
        },
        ..layer(name, runner, status, vec![])
    }
}

fn finding(code: &str, severity: Severity, location: &str) -> Finding {
    Finding {
        severity,
        code: code.to_string(),
        message: format!("{} issue at {}", code, location),
        location: Some(location.to_string()),
        reproduce_cmd: Some(format!("grep {} {}", code, location)),
        suggestion: None,
    }
}

fn make_report(layers: Vec<LayerResult>) -> BarzelReport {
    let mut r = BarzelReport::new(project());
    for l in layers {
        r.add_layer(l);
    }
    r
}

fn number(p: Percent) -> f64 {
    f64::from_bits(p.bits)
}

fn difference(from: Option<Percent>, to: Option<Percent>) -> Percent {
    match (from, to) {
        (Some(a), Some(b)) => pct(number(b) - number(a)),
        _ => pct(0.0),
    }
}

fn compared(baseline: &BarzelReport, head: &BarzelReport) -> ReportComparison {
    let differences = measurements(baseline, head)
        .iter()
        .map(|m| LayerDifference {
            coverage: difference(m.coverage_from, m.coverage_to),
            mutation_score: difference(m.mutation_score_from, m.mutation_score_to),
        })
        .collect();
    compare_reports(baseline, head, &differences)
}

#[test]
fn identical_reports_verdict_unchanged() {
    let baseline = make_report(vec![layer("logic", "pytest", LayerStatus::Pass, vec![])]);
    let head = make_report(vec![layer("logic", "pytest", LayerStatus::Pass, vec![])]);
    assert_eq!(compared(&baseline, &head).verdict, Verdict::Unchanged);
}

#[test]
fn same_code_different_location_are_two_findings() {
    let baseline = make_report(vec![layer(
        "hostile",
        "bandit",
        LayerStatus::Fail,
        vec![finding("SQL_INJECTION", Severity::Critical, "src/a.py:10")],
    )]);
    let head = make_report(vec![layer(
        "hostile",
        "bandit",
        LayerStatus::Fail,
        vec![finding("SQL_INJECTION", Severity::Critical, "src/b.py:42")],
    )]);
    let cmp = compared(&baseline, &head);
    assert!(cmp.regressions.iter().any(|r| matches!(
        r, Regression::NewFinding { location, .. } if location.as_deref() == Some("src/b.py:42")
    )));
    assert!(cmp.improvements.iter().any(|i| matches!(
        i, Improvement::FindingResolved { location, .. } if location.as_deref() == Some("src/a.py:10")
    )));
}

#[test]
fn same_code_same_location_is_unchanged() {
    let f = finding("EVAL_LLM_OUTPUT", Severity::Critical, "agent.py:5");
    let baseline =
        make_report(vec![layer("hostile", "ai-sec", LayerStatus::Fail, vec![f.clone()])]);
    let head = make_report(vec![layer("hostile", "ai-sec", LayerStatus::Fail, vec![f])]);
    let cmp = compared(&baseline, &head);
    assert!(cmp.regressions.iter().all(|r| !matches!(r, Regression::NewFinding { .. })));
    assert!(cmp.improvements.iter().all(|i| !matches!(i, Improvement::FindingResolved { .. })));
}

#[test]
fn new_critical_finding_is_regression() {
    let baseline = make_report(vec![layer("hostile", "bandit", LayerStatus::Pass, vec![])]);
    let head = make_report(vec![layer(
        "hostile",
        "bandit",
        LayerStatus::Fail,
        vec![finding("SQL_INJECTION", Severity::Critical, "src/app.py:10")],
    )]);
    let cmp = compared(&baseline, &head);
    assert_eq!(cmp.verdict, Verdict::Regressed);
    assert!(cmp.regressions.iter().any(|r| matches!(
        r, Regression::NewFinding { code, severity: Severity::Critical, .. } if code == "SQL_INJECTION"
    )));
}

#[test]
fn new_high_finding_is_regression() {
    let baseline = make_report(vec![layer("hostile", "semgrep", LayerStatus::Pass, vec![])]);
    let head = make_report(vec![layer(
        "hostile",
        "semgrep",
        LayerStatus::Partial,
        vec![finding("HARDCODED_SECRET", Severity::High, "config.py:3")],
    )]);
    let cmp = compared(&baseline, &head);
    assert!(cmp
        .regressions
        .iter()
        .any(|r| matches!(r, Regression::NewFinding { severity: Severity::High, .. })));
}

#[test]
fn new_medium_finding_not_in_regressions() {
    let baseline = make_report(vec![layer("hostile", "semgrep", LayerStatus::Pass, vec![])]);
    let head = make_report(vec![layer(
        "hostile",
        "semgrep",
        LayerStatus::Partial,
        vec![finding("MISSING_VALIDATION", Severity::Medium, "api.py:15")],
    )]);
    let cmp = compared(&baseline, &head);
    assert!(!cmp.regressions.iter().any(|r| matches!(r, Regression::NewFinding { .. })));
    let lc = cmp.layer_changes.iter().find(|l| l.layer == "hostile").unwrap();
    assert!(lc.new_findings.iter().any(|f| f.code == "MISSING_VALIDATION"));
}

#[test]
fn status_worsened_pass_to_fail_is_regression() {
    let baseline = make_report(vec![layer("logic", "pytest", LayerStatus::Pass, vec![])]);
    let head = make_report(vec![layer("logic", "pytest", LayerStatus::Fail, vec![])]);
    let cmp = compared(&baseline, &head);
    assert!(cmp.regressions.iter().any(|r| matches!(
        r, Regression::StatusWorsened { from: LayerStatus::Pass, to: LayerStatus::Fail, .. }
    )));
}

#[test]
fn status_worsened_pass_to_partial_is_regression() {
    let baseline = make_report(vec![layer("logic", "pytest", LayerStatus::Pass, vec![])]);
    let head = make_report(vec![layer("logic", "pytest", LayerStatus::Partial, vec![])]);
    let cmp = compared(&baseline, &head);
    assert!(cmp.regressions.iter().any(|r| matches!(r, Regression::StatusWorsened { .. })));
}

#[test]
fn skipped_replacing_pass_is_not_regression() {
    let baseline = make_report(vec![layer("hostile", "ai-sec", LayerStatus::Pass, vec![])]);
    let head = make_report(vec![layer("hostile", "ai-sec", LayerStatus::Skipped, vec![])]);
    let cmp = compared(&baseline, &head);
    assert!(
        !cmp.regressions.iter().any(|r| matches!(r, Regression::StatusWorsened { .. })),
        "Skipped replacing Pass must not be flagged as regression"
    );
}

#[test]
fn skipped_replacing_fail_is_not_regression() {
    let baseline = make_report(vec![layer("hostile", "ai-sec", LayerStatus::Fail, vec![])]);
    let head = make_report(vec![layer("hostile", "ai-sec", LayerStatus::Skipped, vec![])]);
    let cmp = compared(&baseline, &head);
    assert!(
        !cmp.regressions.iter().any(|r| matches!(r, Regression::StatusWorsened { .. })),
        "Skipped must never be considered worse than Fail"
    );
}

#[test]
fn skipped_to_fail_is_not_status_regression() {
    let baseline = make_report(vec![layer("hostile", "ai-sec", LayerStatus::Skipped, vec![])]);
    let head = make_report(vec![layer("hostile", "ai-sec", LayerStatus::Fail, vec![])]);
    let cmp = compared(&baseline, &head);
    assert!(
        !cmp.regressions.iter().any(|r| matches!(r, Regression::StatusWorsened { .. })),
        "Skipped → Fail must not produce StatusWorsened"
    );
}

#[test]
fn fail_to_skipped_is_not_improvement() {
    let baseline = make_report(vec![layer("hostile", "ai-sec", LayerStatus::Fail, vec![])]);
    let head = make_report(vec![layer("hostile", "ai-sec", LayerStatus::Skipped, vec![])]);
    let cmp = compared(&baseline, &head);
    assert!(
        !cmp.improvements.iter().any(|i| matches!(i, Improvement::StatusImproved { .. })),
        "Fail → Skipped must not be counted as an improvement"
    );
}

#[test]
fn partial_to_skipped_is_not_improvement() {
    let baseline = make_report(vec![layer("logic", "pytest", LayerStatus::Partial, vec![])]);
    let head = make_report(vec![layer("logic", "pytest", LayerStatus::Skipped, vec![])]);
    let cmp = compared(&baseline, &head);
    assert!(
        !cmp.improvements.iter().any(|i| matches!(i, Improvement::StatusImproved { .. })),
        "Partial → Skipped must not be counted as an improvement"
    );
}

#[test]
fn coverage_drop_is_regression() {
    let baseline = make_report(vec![layer_with_metrics(
        "logic",
        "pytest",
        LayerStatus::Pass,
        Some(90.0),
        None,
    )]);
    let head = make_report(vec![layer_with_metrics(
        "logic",
        "pytest",
        LayerStatus::Pass,
        Some(70.0),
        None,
    )]);
    let cmp = compared(&baseline, &head);
    assert!(cmp.regressions.iter().any(|r| matches!(
        r, Regression::CoverageDrop { from, to, .. }
        if (number(*from) - 90.0).abs() < 0.01 && (number(*to) - 70.0).abs() < 0.01
    )));
}

#[test]
fn mutation_score_drop_is_regression() {
    let baseline = make_report(vec![layer_with_metrics(
        "structural",
        "mutmut",
        LayerStatus::Pass,
        None,
        Some(95.0),
    )]);
    let head = make_report(vec![layer_with_metrics(
        "structural",
        "mutmut",
        LayerStatus::Partial,
        None,
        Some(70.0),
    )]);
    let cmp = compared(&baseline, &head);
    assert!(cmp.regressions.iter().any(|r| matches!(r, Regression::MutationScoreDrop { .. })));
}

#[test]
fn resolved_critical_finding_is_improvement() {
    let baseline = make_report(vec![layer(
        "hostile",
        "bandit",
        LayerStatus::Fail,
        vec![finding("SQL_INJECTION", Severity::Critical, "src/app.py:10")],
    )]);
    let head = make_report(vec![layer("hostile", "bandit", LayerStatus::Pass, vec![])]);
    let cmp = compared(&baseline, &head);
    assert_eq!(cmp.verdict, Verdict::Improved);
    assert!(cmp.improvements.iter().any(|i| matches!(
        i, Improvement::FindingResolved { code, .. } if code == "SQL_INJECTION"
    )));
}

#[test]
fn status_improved_fail_to_pass_is_improvement() {
    let baseline = make_report(vec![layer("logic", "pytest", LayerStatus::Fail, vec![])]);
    let head = make_report(vec![layer("logic", "pytest", LayerStatus::Pass, vec![])]);
    let cmp = compared(&baseline, &head);
    assert!(cmp.improvements.iter().any(|i| matches!(
        i, Improvement::StatusImproved { from: LayerStatus::Fail, to: LayerStatus::Pass, .. }
    )));
}

#[test]
fn coverage_increase_is_improvement() {
    let baseline = make_report(vec![layer_with_metrics(
        "logic",
        "pytest",
        LayerStatus::Pass,
        Some(60.0),
        None,
    )]);
    let head = make_report(vec![layer_with_metrics(
        "logic",
        "pytest",
        LayerStatus::Pass,
        Some(85.0),
        None,
    )]);
    assert!(compared(&baseline, &head)
        .improvements
        .iter()
        .any(|i| matches!(i, Improvement::CoverageImproved { .. })));
}

#[test]
fn summary_delta_counts_correctly() {
    let baseline = make_report(vec![layer(
        "hostile",
        "bandit",
        LayerStatus::Fail,
        vec![
            finding("A", Severity::Critical, "x.py:1"),
            finding("B", Severity::High, "x.py:2"),
        ],
    )]);
    let head = make_report(vec![layer(
        "hostile",
        "bandit",
        LayerStatus::Partial,
        vec![
            finding("B", Severity::High, "x.py:2"),
            finding("C", Severity::Medium, "x.py:3"),
        ],
    )]);
    let cmp = compared(&baseline, &head);
    assert_eq!(cmp.summary_delta.critical, -1);
    assert_eq!(cmp.summary_delta.high, 0);
    assert_eq!(cmp.summary_delta.medium, 1);
    assert_eq!(cmp.summary_delta.total, 0);
}

#[test]
fn regressions_sorted_critical_before_high() {
    let baseline = make_report(vec![layer("hostile", "bandit", LayerStatus::Pass, vec![])]);
    let head = make_report(vec![layer(
        "hostile",
        "bandit",
        LayerStatus::Fail,
        vec![
            finding("HIGH_ISSUE", Severity::High, "a.py:1"),
            finding("CRITICAL_ISSUE", Severity::Critical, "b.py:2"),
        ],
    )]);
    let cmp = compared(&baseline, &head);
    let new_findings: Vec<&Regression> =
        cmp.regressions.iter().filter(|r| matches!(r, Regression::NewFinding { .. })).collect();
    assert_eq!(new_findings.len(), 2);
    let first_sev = if let Regression::NewFinding { severity, .. } = new_findings[0] {
        *severity
    } else {
        Severity::Info
    };
    assert!(matches!(first_sev, Severity::Critical));
}

#[test]
fn comparison_from_saved_reports() {
    let baseline = make_report(vec![layer(
        "hostile",
        "bandit",
        LayerStatus::Fail,
        vec![finding("SQL_INJECTION", Severity::Critical, "src/app.py:10")],
    )]);
    let head = make_report(vec![layer("hostile", "bandit", LayerStatus::Pass, vec![])]);
    let (first, second) = (baseline.id.clone(), head.id.clone());
    let stored = vec![
        StoredReport { path: baseline.file_name().unwrap(), report: baseline },
        StoredReport { path: head.file_name().unwrap(), report: head },
    ];
    let lb = BarzelReport::load_by_id(&stored, &first).unwrap();
    let lh = BarzelReport::load_by_id(&stored, &second).unwrap();
    let cmp = compared(&stored[lb].report, &stored[lh].report);
    assert_eq!(cmp.verdict, Verdict::Improved);
}

#[test]
fn a_report_is_unchanged_from_itself() {
    let report = make_report(vec![
        layer("hostile", "bandit", LayerStatus::Fail, vec![finding("A", Severity::High, "x:1")]),
        layer_with_metrics("logic", "pytest", LayerStatus::Pass, Some(80.0), Some(70.0)),
    ]);
    let cmp = compared(&report, &report);
    assert_eq!(cmp.verdict, Verdict::Unchanged);
    assert!(cmp.regressions.is_empty() && cmp.improvements.is_empty());
    assert!(cmp.layer_changes.iter().all(|l| l.new_findings.is_empty()));
    assert!(cmp.layer_changes.iter().all(|l| l.resolved_findings.is_empty()));
}

#[test]
fn worse_and_better_mirror_each_other() {
    let all = [LayerStatus::Pass, LayerStatus::Partial, LayerStatus::Fail, LayerStatus::Skipped];
    for a in all {
        for b in all {
            assert_eq!(status_worsened(a, b), status_improved(b, a));
        }
    }
}

#[test]
fn small_changes_of_a_share_do_not_count() {
    let report = |c: f64| {
        make_report(vec![layer_with_metrics("logic", "pytest", LayerStatus::Pass, Some(c), None)])
    };
    assert_eq!(compared(&report(80.0), &report(79.95)).verdict, Verdict::Unchanged);
    assert_eq!(compared(&report(80.0), &report(79.5)).verdict, Verdict::Regressed);
}

#[test]
fn skipped_layers_yield_no_improvements() {
    let ran = || {
        let f = finding("X", Severity::High, "a.py:1");
        make_report(vec![layer("hostile", "ai-sec", LayerStatus::Fail, vec![f])])
    };
    let skipped = || {
        let f = finding("RUNNER_UNAVAILABLE", Severity::Info, "");
        make_report(vec![layer("hostile", "ai-sec", LayerStatus::Skipped, vec![f])])
    };
    let stopped = compared(&ran(), &skipped());
    assert!(stopped.improvements.is_empty());
    assert_eq!(stopped.verdict, Verdict::Unchanged);
    assert_eq!(stopped.layer_changes[0].resolved_findings.len(), 1);
    let started = compared(&skipped(), &ran());
    assert!(started.improvements.is_empty());
    assert_eq!(started.regressions.len(), 1);
}

#[test]
fn same_measurements_never_differ() {
    let mut l = layer("logic", "pytest", LayerStatus::Pass, vec![]);
    l.metrics.coverage = Some(pct(80.0));
    l.metrics.mutation_score = Some(pct(f64::INFINITY));
    let report = make_report(vec![l]);
    let odd = vec![LayerDifference { coverage: pct(-5.0), mutation_score: pct(5.0) }];
    let c = compare_reports(&report, &report, &odd);
    assert_eq!(c.verdict, Verdict::Unchanged);
    assert_eq!(c.layer_changes[0].coverage_delta, Some(pct(0.0)));
}
