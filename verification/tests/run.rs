use barzel::config::BarzelConfig;
use barzel::detect::{
    Language, Member, ProjectFrameworks, ProjectInfo, WorkspaceInfo, WorkspaceKind,
};
use barzel::diff::DiffContext;
use barzel::percent::Percent;
use barzel::process::ProcessOutput;
use barzel::report::{
    BarzelReport, LayerMetrics, LayerResult, LayerStatus, ReportStatus, Severity, Summary,
};
use barzel::run::{
    add_member, apply_coverage_threshold, check_request, layer_detail, plan, report_exit_code,
    select_active_members, select_runners, skip_report, validate_requested_layers,
    with_run_heading, workspace_project, workspace_report, workspace_skip_layer, CoverageTexts,
    Plan, RunnerKind,
};

fn pct(x: f64) -> Percent {
    Percent { bits: x.to_bits() }
}

fn info(language: Language, root: &str) -> ProjectInfo {
    ProjectInfo {
        language,
        root: root.to_string(),
        has_tests: true,
        package_name: Some("testpkg".to_string()),
        frameworks: ProjectFrameworks::default(),
        workspace_root: None,
    }
}

fn layer(name: &str, runner: &str, coverage: Option<f64>, status: LayerStatus) -> LayerResult {
    LayerResult {
        name: name.to_string(),
        runner: runner.to_string(),
        status,
        findings: vec![],
        metrics: LayerMetrics { coverage: coverage.map(pct), ..Default::default() },
        duration_ms: 0,
    }
}

fn logic_layer_with_coverage(runner: &str, coverage: f64, status: LayerStatus) -> LayerResult {
    layer("logic", runner, Some(coverage), status)
}

fn make_report_with_layer(layer: LayerResult) -> BarzelReport {
    let mut report = BarzelReport::new(info(Language::Python, "/tmp"));
    report.add_layer(layer);
    report
}

/// Applies a threshold, with the numbers as messages show them.
fn apply(report: &mut BarzelReport, minimum: Option<f64>) {
    let shown = minimum.unwrap_or(0.0);
    let texts = CoverageTexts {
        coverage: report
            .layers
            .iter()
            .map(|l| {
                let c = l.metrics.coverage.map(|p| f64::from_bits(p.bits)).unwrap_or(0.0);
                format!("{c:.1}")
            })
            .collect(),
        minimum: format!("{shown:.1}"),
        rounded_minimum: format!("{shown:.0}"),
    };
    apply_coverage_threshold(report, minimum.map(pct), &texts);
}

#[test]
fn no_threshold_leaves_report_unchanged() {
    let mut report =
        make_report_with_layer(logic_layer_with_coverage("pytest", 40.0, LayerStatus::Pass));
    apply(&mut report, None);
    assert!(report.layers[0].findings.is_empty());
    assert!(matches!(report.layers[0].status, LayerStatus::Pass));
}

#[test]
fn coverage_above_threshold_no_finding() {
    let mut report =
        make_report_with_layer(logic_layer_with_coverage("pytest", 90.0, LayerStatus::Pass));
    apply(&mut report, Some(85.0));
    assert!(!report.layers[0].findings.iter().any(|f| f.code == "COVERAGE_BELOW_THRESHOLD"));
    assert!(matches!(report.layers[0].status, LayerStatus::Pass));
}

#[test]
fn coverage_equal_to_threshold_no_finding() {
    let mut report =
        make_report_with_layer(logic_layer_with_coverage("pytest", 85.0, LayerStatus::Pass));
    apply(&mut report, Some(85.0));
    assert!(!report.layers[0].findings.iter().any(|f| f.code == "COVERAGE_BELOW_THRESHOLD"));
}

#[test]
fn coverage_below_threshold_injects_high_finding() {
    let mut report =
        make_report_with_layer(logic_layer_with_coverage("pytest", 72.5, LayerStatus::Pass));
    apply(&mut report, Some(85.0));
    let finding = report.layers[0].findings.iter().find(|f| f.code == "COVERAGE_BELOW_THRESHOLD");
    assert!(finding.is_some(), "expected COVERAGE_BELOW_THRESHOLD finding");
    let f = finding.unwrap();
    assert_eq!(f.severity, Severity::High);
    assert!(f.reproduce_cmd.is_some(), "finding must include reproduce_cmd");
    assert!(f.reproduce_cmd.as_ref().unwrap().contains("pytest"));
    assert!(f.message.contains("72.5"));
    assert!(f.message.contains("85.0"));
}

#[test]
fn coverage_below_threshold_marks_layer_partial() {
    let mut report =
        make_report_with_layer(logic_layer_with_coverage("pytest", 50.0, LayerStatus::Pass));
    apply(&mut report, Some(80.0));
    assert!(matches!(report.layers[0].status, LayerStatus::Partial));
}

#[test]
fn coverage_below_threshold_updates_report_summary() {
    let mut report =
        make_report_with_layer(logic_layer_with_coverage("pytest", 50.0, LayerStatus::Pass));
    apply(&mut report, Some(80.0));
    assert_eq!(report.summary.high, 1);
    assert_eq!(report.summary.total_findings, 1);
    assert!(matches!(report.status, ReportStatus::Partial));
}

#[test]
fn enforcement_is_idempotent() {
    let mut report =
        make_report_with_layer(logic_layer_with_coverage("pytest", 50.0, LayerStatus::Pass));
    apply(&mut report, Some(80.0));
    apply(&mut report, Some(80.0));
    let count = report.layers[0]
        .findings
        .iter()
        .filter(|f| f.code == "COVERAGE_BELOW_THRESHOLD")
        .count();
    assert_eq!(count, 1, "duplicate findings must not be injected");
}

#[test]
fn non_logic_layer_not_affected() {
    let mut report =
        make_report_with_layer(layer("structural", "mutmut", Some(40.0), LayerStatus::Pass));
    apply(&mut report, Some(80.0));
    assert!(report.layers[0].findings.is_empty());
}

#[test]
fn layer_without_coverage_metric_not_affected() {
    let mut report = make_report_with_layer(layer("logic", "pytest", None, LayerStatus::Pass));
    apply(&mut report, Some(80.0));
    assert!(report.layers[0].findings.is_empty());
}

#[test]
fn failing_layer_status_unchanged_when_below_threshold() {
    let mut report =
        make_report_with_layer(logic_layer_with_coverage("pytest", 30.0, LayerStatus::Fail));
    apply(&mut report, Some(80.0));
    assert!(matches!(report.layers[0].status, LayerStatus::Fail));
}

fn diff_ctx_empty() -> DiffContext {
    DiffContext { changed_files: vec![], repo_root: "/tmp".to_string(), absolute_files: vec![] }
}

fn project_info() -> ProjectInfo {
    ProjectInfo {
        package_name: Some("myproj".to_string()),
        ..info(Language::Python, "/tmp/myproj")
    }
}

#[test]
fn skip_report_has_no_changes_finding() {
    let report = skip_report(project_info(), Some("HEAD~1"), &diff_ctx_empty());
    assert!(report.layers.iter().any(|l| l.runner == "diff"));
    let layer = report.layers.iter().find(|l| l.runner == "diff").unwrap();
    assert!(matches!(layer.status, LayerStatus::Skipped));
    assert!(layer.findings.iter().any(|f| f.code == "NO_CHANGES_SINCE_REV"));
}

#[test]
fn skip_report_finding_has_reproduce_cmd() {
    let report = skip_report(project_info(), Some("abc123"), &diff_ctx_empty());
    let finding =
        report.layers[0].findings.iter().find(|f| f.code == "NO_CHANGES_SINCE_REV").unwrap();
    assert!(finding.reproduce_cmd.is_some());
    assert!(finding.reproduce_cmd.as_ref().unwrap().contains("abc123"));
}

#[test]
fn skip_report_records_diff_since() {
    let report = skip_report(project_info(), Some("main"), &diff_ctx_empty());
    assert_eq!(report.diff_since, Some("main".to_string()));
    assert_eq!(report.diff_changed_files, Some(0));
}

#[test]
fn skip_report_status_is_pass() {
    let report = skip_report(project_info(), Some("HEAD"), &diff_ctx_empty());
    assert!(matches!(report.status, ReportStatus::Pass));
}

#[test]
fn skip_report_summary_matches_layer_findings() {
    let report = skip_report(project_info(), Some("HEAD~1"), &diff_ctx_empty());
    let layer_finding_count: usize = report.layers.iter().map(|l| l.findings.len()).sum();
    assert_eq!(
        report.summary.total_findings, layer_finding_count,
        "summary.total_findings must match actual finding count in layers"
    );
    assert_eq!(report.summary.total_findings, 1, "skip report has exactly one Info finding");
}

#[test]
fn no_health_checks_means_no_health_check_runner_in_report() {
    let cfg = BarzelConfig::default();
    let layers = Some(strs(&["operational"]));
    let runners = select_runners(&info(Language::Unknown, "/tmp"), &cfg, &layers);
    assert!(
        !runners.contains(&RunnerKind::HealthCheck),
        "with no health_checks configured, no health-check runner result must appear in the report"
    );
    assert!(
        !runners.contains(&RunnerKind::OperationalCommand),
        "with no commands configured, no operational-cmd runner result must appear in the report"
    );
}

fn member_info(root: &str) -> Member {
    let path = root.rsplit('/').next().unwrap().to_string();
    Member {
        info: ProjectInfo { package_name: Some(path.clone()), ..info(Language::Rust, root) },
        path,
    }
}

/// The changes of a repository at `/repo`.
fn changes(changed: &str) -> DiffContext {
    let out = ProcessOutput { success: true, stdout: changed.to_string(), stderr: String::new() };
    DiffContext::since("/repo".to_string(), &out, None).unwrap()
}

#[test]
fn select_active_members_returns_only_changed_package() {
    let ctx = changes("crates/a/lib.rs\n");
    let members = vec![member_info("/repo/crates/a"), member_info("/repo/crates/b")];
    let active = select_active_members(&members, &ctx);
    assert_eq!(active.len(), 1, "only pkg_a is affected");
    assert_eq!(members[active[0]].path, "a");
}

#[test]
fn full_run_bypass_remains_caller_responsibility() {
    let ctx = changes("Cargo.lock\n");
    assert!(ctx.forces_full_run(), "lockfile change must force full run");
    let members = vec![member_info("/repo/crates/a"), member_info("/repo/crates/b")];
    let affected = select_active_members(&members, &ctx);
    assert_eq!(
        affected.len(),
        0,
        "select_active_members itself does prefix filtering; full-run bypass is caller's responsibility"
    );
}

#[test]
fn select_active_members_empty_when_no_changes() {
    let members = vec![member_info("/repo/crates/a")];
    let active = select_active_members(&members, &changes(""));
    assert!(active.is_empty(), "zero changed files → no active members");
}

#[test]
fn workspace_skip_layer_has_correct_shape() {
    let layer = workspace_skip_layer(Some("HEAD~2"), &diff_ctx_empty());
    assert_eq!(layer.runner, "diff");
    assert!(matches!(layer.status, LayerStatus::Skipped));
    let f = layer
        .findings
        .iter()
        .find(|f| f.code == "NO_CHANGES_SINCE_REV")
        .expect("must have NO_CHANGES_SINCE_REV finding");
    assert!(matches!(f.severity, Severity::Info));
    let rc = f.reproduce_cmd.as_deref().unwrap_or("");
    assert!(!rc.trim().is_empty(), "reproduce_cmd must be non-empty");
    assert!(rc.contains("HEAD~2"), "reproduce_cmd must reference the since rev");
    assert!(f.message.contains("HEAD~2"), "message must reference the since rev");
}

#[test]
fn deleted_file_in_member_still_triggers_that_member() {
    let ctx = changes("crates/a/old.rs\n");
    let members = vec![member_info("/repo/crates/a")];
    let active = select_active_members(&members, &ctx);
    assert_eq!(
        active.len(),
        1,
        "a deletion inside a member must still mark that member as affected"
    );
}

fn strs(v: &[&str]) -> Vec<String> {
    v.iter().map(|s| s.to_string()).collect()
}

#[test]
fn valid_single_layer_accepted() {
    for layer in ["logic", "structural", "hostile", "operational"] {
        assert!(
            validate_requested_layers(&strs(&[layer])).is_ok(),
            "valid layer '{layer}' was rejected"
        );
    }
}

#[test]
fn valid_multiple_layers_accepted() {
    validate_requested_layers(&strs(&["logic", "hostile"])).unwrap();
    validate_requested_layers(&strs(&["logic", "structural", "hostile", "operational"])).unwrap();
}

#[test]
fn empty_layers_rejected() {
    let err = validate_requested_layers(&vec![]).unwrap_err().message();
    assert!(err.contains("not be empty"), "error must mention empty: {err}");
    assert!(err.contains("logic"), "error must list valid layers: {err}");
}

#[test]
fn uppercase_layer_rejected() {
    let err = validate_requested_layers(&strs(&["Hostile"])).unwrap_err().message();
    assert!(err.contains("Hostile"), "error must name the bad value: {err}");
    assert!(err.contains("hostile"), "error must show correct spelling: {err}");
}

#[test]
fn misspelled_layer_rejected() {
    let err = validate_requested_layers(&strs(&["security"])).unwrap_err().message();
    assert!(err.contains("security"), "error must name the bad value: {err}");
    assert!(err.contains("hostile"), "error must list valid layers: {err}");
}

#[test]
fn mixed_valid_and_invalid_layers_rejected() {
    let err = validate_requested_layers(&strs(&["logic", "LOGIC"])).unwrap_err().message();
    assert!(err.contains("LOGIC"), "error must name the bad value: {err}");
}

#[test]
fn run_verification_rejects_unknown_layer_before_running() {
    let result = check_request(&Some(strs(&["security"])), &BarzelConfig::default());
    assert!(result.is_err(), "unknown layer must be refused");
    let msg = result.unwrap_err().message();
    assert!(msg.contains("unknown layer"), "error must say 'unknown layer': {msg}");
    assert!(msg.contains("security"), "error must name the bad layer: {msg}");
    assert!(msg.contains("hostile"), "error must list valid layers: {msg}");
}

#[test]
fn operational_layer_still_accepted() {
    validate_requested_layers(&strs(&["operational"])).unwrap();
}

#[test]
fn exit_codes_follow_the_bar() {
    let with = |fail_on: &str, severity: Severity| {
        let mut l = layer("logic", "x", None, LayerStatus::Fail);
        l.findings.push(barzel::report::Finding { severity, ..Default::default() });
        let mut report = make_report_with_layer(l);
        report.fail_on = fail_on.to_string();
        report_exit_code(&report)
    };
    assert_eq!(with("critical", Severity::High), 2);
    assert_eq!(with("critical", Severity::Low), 0);
    assert_eq!(with("high", Severity::High), 1);
    assert_eq!(with("any", Severity::Low), 1);
}

#[test]
fn members_add_to_the_whole() {
    let members = vec![member_info("/ws/a")];
    let mut whole = BarzelReport::new(workspace_project(WorkspaceKind::Cargo, &members, "/ws"));
    let mut l = layer("hostile", "scan", None, LayerStatus::Partial);
    l.findings.push(barzel::report::Finding { severity: Severity::High, ..Default::default() });
    let member = make_report_with_layer(l);
    add_member(&mut whole, "a", Language::Rust, &member);
    assert_eq!(whole.workspace_members.len(), 1);
    assert_eq!(whole.summary.high, 1);
    assert_eq!(whole.status, ReportStatus::Partial);
    let expected: Summary = member.summary;
    assert_eq!(whole.workspace_members[0].summary, expected);
}

#[test]
fn details_show_what_was_measured() {
    let mut l = layer("logic", "x", Some(50.0), LayerStatus::Pass);
    l.metrics.tests_run = 3;
    l.metrics.passed = 3;
    assert!(layer_detail(&l, "50", "").contains("50% cov"));
}

fn two_members() -> Vec<Member> {
    vec![member_info("/repo/crates/a"), member_info("/repo/crates/b")]
}

fn two_member_workspace() -> WorkspaceInfo {
    WorkspaceInfo::Multi { kind: WorkspaceKind::Cargo, members: two_members() }
}

fn positions(p: Plan) -> Option<Vec<usize>> {
    match p {
        Plan::RunMembers(v) => Some(v),
        _ => None,
    }
}

#[test]
fn plan_of_a_project_follows_its_changes() {
    let single = || WorkspaceInfo::Single(info(Language::Rust, "/repo/app"));
    assert!(matches!(plan(&single(), None), Plan::RunProject));
    assert!(matches!(plan(&single(), Some(&changes("app/x.rs\n"))), Plan::RunProject));
    assert!(matches!(plan(&single(), Some(&changes("other/x.rs\n"))), Plan::SkipProject));
    assert!(matches!(plan(&single(), Some(&changes("Cargo.lock\n"))), Plan::RunProject));
}

#[test]
fn plan_of_a_workspace_runs_affected_members() {
    let w = two_member_workspace();
    assert_eq!(positions(plan(&w, Some(&changes("crates/b/lib.rs\n")))), Some(vec![1]));
    assert!(matches!(plan(&w, Some(&changes("docs/a.md\n"))), Plan::SkipWorkspace));
}

#[test]
fn full_runs_leave_out_nothing() {
    let w = two_member_workspace();
    assert_eq!(positions(plan(&w, None)), Some(vec![0, 1]));
    assert_eq!(positions(plan(&w, Some(&changes("Cargo.lock\n")))), Some(vec![0, 1]));
}

#[test]
fn workspace_report_holds_the_members_that_ran() {
    let members = two_members();
    let mut l = layer("hostile", "scan", None, LayerStatus::Partial);
    l.findings.push(barzel::report::Finding { severity: Severity::Medium, ..Default::default() });
    let first = make_report_with_layer(l);
    let second = make_report_with_layer(layer("logic", "t", None, LayerStatus::Pass));
    let r = workspace_report(
        WorkspaceKind::Cargo,
        &members,
        "/repo",
        "medium",
        None,
        None,
        &vec![1, 0],
        &vec![first, second],
    );
    assert_eq!(r.project.package_name.as_deref(), Some("cargo-workspace"));
    assert_eq!(r.fail_on, "medium");
    assert_eq!(r.diff_fallback_reason, None);
    let paths: Vec<&str> = r.workspace_members.iter().map(|m| m.package_path.as_str()).collect();
    assert_eq!(paths, ["b", "a"]);
    let runners: Vec<&str> = r.layers.iter().map(|l| l.runner.as_str()).collect();
    assert_eq!(runners, ["scan", "t"]);
    assert_eq!(r.summary.total_findings, 1);
    assert_eq!(r.status, ReportStatus::Partial);
    assert_eq!(report_exit_code(&r), 1);
}

#[test]
fn workspace_report_says_that_nothing_was_affected() {
    let ctx = changes("docs/a.md\n");
    let r = workspace_report(
        WorkspaceKind::Npm,
        &two_members(),
        "/repo",
        "high",
        Some("main"),
        Some(&ctx),
        &vec![],
        &vec![],
    );
    assert_eq!(r.layers.len(), 1);
    assert_eq!(r.layers[0].findings[0].code, "NO_CHANGES_SINCE_REV");
    assert_eq!(
        r.layers[0].findings[0].reproduce_cmd.as_deref(),
        Some("git diff --name-only main --")
    );
    assert_eq!(r.diff_since.as_deref(), Some("main"));
    assert_eq!(r.diff_changed_files, Some(1));
    assert_eq!(r.status, ReportStatus::Pass);
}

#[test]
fn run_heading_tells_of_the_fallback() {
    let fresh = BarzelReport::new(info(Language::Go, "/repo"));
    let r = with_run_heading(fresh, "any", Some("v1"), None);
    assert_eq!(r.fail_on, "any");
    assert_eq!(r.diff_since.as_deref(), Some("v1"));
    assert_eq!(r.diff_changed_files, None);
    assert_eq!(
        r.diff_fallback_reason.as_deref(),
        Some("not a git repository or invalid revision")
    );
}

#[test]
fn second_enforcement_changes_nothing_in_the_report() {
    let mut report =
        make_report_with_layer(logic_layer_with_coverage("jest", 10.0, LayerStatus::Pass));
    apply(&mut report, Some(80.0));
    let (summary, status, layers) = (report.summary, report.status, report.layers.len());
    let findings = report.layers[0].findings.len();
    apply(&mut report, Some(80.0));
    assert_eq!(report.summary, summary);
    assert_eq!(report.status, status);
    assert_eq!(report.layers.len(), layers);
    assert_eq!(report.layers[0].findings.len(), findings);
}
