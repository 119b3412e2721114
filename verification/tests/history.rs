use barzel::detect::{Language, ProjectFrameworks, ProjectInfo};
use barzel::history::{
    entries_from_report, entry_file_name, hash8, load_history_entries, outdated, HistoryEntry,
    HistoryLayerMetric,
};
use barzel::percent::Percent;
use barzel::report::{
    BarzelReport, Finding, LayerMetrics, LayerResult, LayerStatus, ReportStatus, Severity, Summary,
    WorkspaceMemberReport,
};
use barzel::time::Timestamp;

fn pct(x: f64) -> Percent {
    Percent { bits: x.to_bits() }
}

fn project(language: Language) -> ProjectInfo {
    ProjectInfo {
        language,
        root: "/tmp/proj".to_string(),
        has_tests: true,
        package_name: Some("myapp".to_string()),
        frameworks: ProjectFrameworks::default(),
        workspace_root: None,
    }
}

fn layer_with_metrics(
    runner: &str,
    mutation_score: Option<f64>,
    coverage: Option<f64>,
) -> LayerResult {
    LayerResult {
        name: "logic".to_string(),
        runner: runner.to_string(),
        status: LayerStatus::Pass,
        findings: vec![Finding {
            severity: Severity::Info,
            code: "PASS".to_string(),
            message: "ok".to_string(),
            location: None,
            reproduce_cmd: Some("pytest".to_string()),
            suggestion: None,
        }],
        metrics: LayerMetrics {
            mutation_score: mutation_score.map(pct),
            coverage: coverage.map(pct),
            ..Default::default()
        },
        duration_ms: 100,
    }
}

fn layer_no_metrics(runner: &str) -> LayerResult {
    LayerResult {
        name: "hostile".to_string(),
        runner: runner.to_string(),
        status: LayerStatus::Pass,
        findings: vec![],
        metrics: LayerMetrics::default(),
        duration_ms: 50,
    }
}

fn single_report_with_coverage() -> BarzelReport {
    let mut r = BarzelReport::new(project(Language::Python));
    r.add_layer(layer_with_metrics("pytest", None, Some(0.91)));
    r.add_layer(layer_no_metrics("bandit"));
    r
}

fn single_report_no_metrics() -> BarzelReport {
    let mut r = BarzelReport::new(project(Language::Rust));
    r.add_layer(layer_no_metrics("semgrep"));
    r.add_layer(layer_no_metrics("cargo audit"));
    r
}

fn summary(total_findings: usize, high: usize, overall_status: ReportStatus) -> Summary {
    Summary { total_findings, critical: 0, high, medium: 0, low: 0, overall_status }
}

fn workspace_report() -> BarzelReport {
    let mut r = BarzelReport::new(ProjectInfo {
        language: Language::Unknown,
        root: "/tmp/ws".to_string(),
        has_tests: true,
        package_name: Some("my-workspace".to_string()),
        frameworks: ProjectFrameworks::default(),
        workspace_root: None,
    });
    r.workspace_members = vec![
        WorkspaceMemberReport {
            package_path: "crates/api".to_string(),
            language: "rust".to_string(),
            status: ReportStatus::Pass,
            layers: vec![layer_with_metrics("cargo mutants", Some(0.84), None)],
            summary: summary(0, 0, ReportStatus::Pass),
        },
        WorkspaceMemberReport {
            package_path: "apps/web".to_string(),
            language: "typescript".to_string(),
            status: ReportStatus::Partial,
            layers: vec![
                layer_with_metrics("stryker", Some(0.72), None),
                layer_no_metrics("eslint"),
            ],
            summary: summary(1, 1, ReportStatus::Partial),
        },
        WorkspaceMemberReport {
            package_path: "libs/shared".to_string(),
            language: "typescript".to_string(),
            status: ReportStatus::Pass,
            layers: vec![layer_no_metrics("tsc")],
            summary: summary(0, 0, ReportStatus::Pass),
        },
    ];
    r
}

fn entry(id: &str, secs: i64, package_path: Option<&str>) -> HistoryEntry {
    HistoryEntry {
        report_id: id.to_string(),
        timestamp: Timestamp { secs, nanos: 0 },
        project: "proj".to_string(),
        package_path: package_path.map(str::to_string),
        language: "python".to_string(),
        status: ReportStatus::Pass,
        layers: vec![HistoryLayerMetric {
            runner: "pytest".to_string(),
            status: LayerStatus::Pass,
            mutation_score: None,
            coverage: Some(pct(0.91)),
        }],
    }
}

#[test]
fn single_project_creates_one_entry_with_coverage() {
    let report = single_report_with_coverage();
    let entries = entries_from_report(&report);
    assert_eq!(entries.len(), 1);
    let e = &entries[0];
    assert_eq!(e.report_id, report.id);
    assert_eq!(e.language, "python");
    assert!(e.package_path.is_none());
    assert_eq!(e.layers.len(), 1, "only the pytest layer has metrics");
    assert_eq!(e.layers[0].runner, "pytest");
    assert_eq!(e.layers[0].coverage, Some(pct(0.91)));
    assert!(e.layers[0].mutation_score.is_none());
}

#[test]
fn single_project_with_no_metrics_produces_no_entries() {
    let report = single_report_no_metrics();
    let entries = entries_from_report(&report);
    assert!(entries.is_empty(), "zero-metric report must produce no history entries");
}

#[test]
fn workspace_produces_one_entry_per_metric_bearing_member() {
    let report = workspace_report();
    let entries = entries_from_report(&report);
    assert_eq!(entries.len(), 2, "two of three members have metric layers");
    let api = entries
        .iter()
        .find(|e| e.package_path.as_deref() == Some("crates/api"))
        .expect("crates/api entry must be present");
    assert_eq!(api.layers[0].runner, "cargo mutants");
    assert_eq!(api.layers[0].mutation_score, Some(pct(0.84)));
    assert_eq!(api.language, "rust");
    let web = entries
        .iter()
        .find(|e| e.package_path.as_deref() == Some("apps/web"))
        .expect("apps/web entry must be present");
    assert_eq!(web.layers.len(), 1, "only stryker has metrics in apps/web");
    assert_eq!(web.layers[0].mutation_score, Some(pct(0.72)));
    assert_eq!(web.status, ReportStatus::Partial);
    assert!(
        entries.iter().all(|e| e.report_id == report.id),
        "all entries must reference the same report_id"
    );
}

#[test]
fn workspace_member_with_no_metrics_is_excluded() {
    let report = workspace_report();
    let entries = entries_from_report(&report);
    assert!(
        entries.iter().all(|e| e.package_path.as_deref() != Some("libs/shared")),
        "libs/shared has no metric layers and must not appear in history"
    );
}

#[test]
fn skipped_report_produces_no_entries() {
    let mut r = BarzelReport::new(project(Language::Rust));
    r.add_layer(LayerResult {
        name: "skipped".to_string(),
        runner: "diff".to_string(),
        status: LayerStatus::Skipped,
        findings: vec![Finding {
            severity: Severity::Info,
            code: "NO_CHANGES_SINCE_REV".to_string(),
            message: "skipped".to_string(),
            location: None,
            reproduce_cmd: Some("git diff".to_string()),
            suggestion: None,
        }],
        metrics: LayerMetrics::default(),
        duration_ms: 0,
    });
    let entries = entries_from_report(&r);
    assert!(entries.is_empty(), "diff-skip report must produce no history entries");
}

#[test]
fn save_entry_writes_under_barzel_history() {
    let report = single_report_with_coverage();
    let entries = entries_from_report(&report);
    assert_eq!(entries.len(), 1);
    let name = entry_file_name(&entries[0]);
    assert!(name.ends_with(".json"), "file must have .json extension");
    assert!(name.contains(&report.id[..8]), "filename must contain report id prefix");
}

#[test]
fn workspace_entries_get_unique_filenames() {
    let entries = entries_from_report(&workspace_report());
    let files: Vec<String> = entries.iter().map(entry_file_name).collect();
    assert_eq!(files.len(), 2, "two metric-bearing members → two files");
    assert_ne!(files[0], files[1], "workspace member filenames must be unique");
}

#[test]
fn load_returns_entries_sorted_by_timestamp_ascending() {
    let late = entry("bbbb0002", 7200, None);
    let early = entry("aaaa0001", 0, None);
    let all = vec![late, early];
    let loaded = load_history_entries(&all);
    assert_eq!(loaded.len(), 2);
    assert!(
        all[loaded[0]].timestamp.secs <= all[loaded[1]].timestamp.secs,
        "entries must be sorted ascending by timestamp"
    );
    assert_eq!(all[loaded[0]].report_id, "aaaa0001", "earlier entry must be first");
}

#[test]
fn same_id_prefix_different_full_ids_produce_separate_files() {
    let first = entry("abcd1234-aaaa-aaaa-aaaa-aaaaaaaaaaaa", 0, None);
    let second = entry("abcd1234-bbbb-bbbb-bbbb-bbbbbbbbbbbb", 0, None);
    assert_ne!(
        entry_file_name(&first),
        entry_file_name(&second),
        "two entries with IDs sharing the same 8-char prefix must produce two distinct files"
    );
}

#[test]
fn workspace_members_sanitizing_to_same_suffix_produce_separate_files() {
    let slash = entry("rep12345-0000-0000-0000-000000000000", 0, Some("apps/web"));
    let underscore = entry("rep12345-0000-0000-0000-000000000000", 0, Some("apps_web"));
    assert_ne!(
        entry_file_name(&slash),
        entry_file_name(&underscore),
        "apps/web and apps_web sanitize to the same string but must produce distinct files"
    );
}

#[test]
fn short_hashes_are_eight_digits_of_fnv() {
    assert_eq!(hash8(""), "84222325");
    assert_eq!(hash8("a"), "8601ec8c");
}

#[test]
fn pruning_keeps_the_newest() {
    let all = vec![entry("a", 3, None), entry("b", 1, None), entry("c", 2, None)];
    assert_eq!(outdated(&all, 2), vec![false, true, false]);
    assert_eq!(outdated(&all, 0), vec![false, false, false]);
}

#[test]
fn packages_are_pruned_apart() {
    let all = vec![entry("a", 1, Some("x")), entry("b", 2, Some("x")), entry("c", 0, Some("y"))];
    assert_eq!(outdated(&all, 1), vec![true, false, false]);
}

#[test]
fn of_two_entries_of_one_time_the_one_listed_last_is_newer() {
    let all = vec![entry("a", 1, None), entry("b", 1, None), entry("c", 0, None)];
    assert_eq!(outdated(&all, 1), vec![true, false, true]);
    assert_eq!(outdated(&all, 2), vec![false, false, true]);
}

#[test]
fn pruning_leaves_as_many_as_the_limit_allows() {
    let times = [5, 2, 9, 9, 1, 7];
    let all: Vec<_> = times.iter().map(|t| entry("a", *t, Some("x"))).collect();
    for max in 1..8 {
        let kept = outdated(&all, max).iter().filter(|d| !**d).count();
        assert_eq!(kept, max.min(all.len()));
    }
}
