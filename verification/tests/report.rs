use barzel::check::load_report_by_ref;
use barzel::detect::{Language, ProjectFrameworks, ProjectInfo};
use barzel::report::{
    BarzelReport, Finding, LayerMetrics, LayerResult, LayerStatus, ReportStatus, Severity,
    StoredReport,
};
use barzel::time::Timestamp;

fn dummy_project() -> ProjectInfo {
    ProjectInfo {
        language: Language::Rust,
        root: "/tmp".to_string(),
        has_tests: true,
        package_name: Some("test".to_string()),
        frameworks: ProjectFrameworks::default(),
        workspace_root: None,
    }
}

fn layer_with_findings(findings: Vec<Finding>) -> LayerResult {
    LayerResult {
        name: "logic".to_string(),
        runner: "proptest".to_string(),
        status: LayerStatus::Pass,
        findings,
        metrics: LayerMetrics {
            tests_run: 0,
            passed: 0,
            failed: 0,
            coverage: None,
            mutation_score: None,
        },
        duration_ms: 0,
    }
}

fn finding(severity: Severity) -> Finding {
    Finding {
        severity,
        code: "TEST".to_string(),
        message: "test finding".to_string(),
        ..Default::default()
    }
}

fn stored(report: BarzelReport) -> StoredReport {
    StoredReport { path: report.file_name().unwrap(), report }
}

#[test]
fn add_layer_increments_total_findings() {
    let mut report = BarzelReport::new(dummy_project());
    assert_eq!(report.summary.total_findings, 0);
    report.add_layer(layer_with_findings(vec![finding(Severity::Info)]));
    assert_eq!(report.summary.total_findings, 1);
    report.add_layer(layer_with_findings(vec![
        finding(Severity::High),
        finding(Severity::Medium),
    ]));
    assert_eq!(report.summary.total_findings, 3);
}

#[test]
fn critical_finding_makes_report_fail() {
    let mut report = BarzelReport::new(dummy_project());
    report.add_layer(layer_with_findings(vec![finding(Severity::Critical)]));
    assert_eq!(report.status, ReportStatus::Fail);
}

#[test]
fn info_findings_do_not_degrade_status() {
    let mut report = BarzelReport::new(dummy_project());
    report.add_layer(layer_with_findings(vec![
        finding(Severity::Info),
        finding(Severity::Info),
    ]));
    assert_eq!(report.status, ReportStatus::Pass);
}

#[test]
fn report_status_display() {
    assert_eq!(ReportStatus::Pass.as_str(), "pass");
    assert_eq!(ReportStatus::Partial.as_str(), "partial");
    assert_eq!(ReportStatus::Fail.as_str(), "fail");
}

#[test]
fn layer_status_display() {
    assert_eq!(LayerStatus::Pass.as_str(), "PASS");
    assert_eq!(LayerStatus::Fail.as_str(), "FAIL");
    assert_eq!(LayerStatus::Partial.as_str(), "PARTIAL");
    assert_eq!(LayerStatus::Skipped.as_str(), "SKIPPED");
}

#[test]
fn severity_display() {
    assert_eq!(Severity::Critical.as_str(), "CRITICAL");
    assert_eq!(Severity::High.as_str(), "HIGH");
    assert_eq!(Severity::Medium.as_str(), "MEDIUM");
    assert_eq!(Severity::Low.as_str(), "LOW");
    assert_eq!(Severity::Info.as_str(), "INFO");
}

#[test]
fn high_finding_makes_report_partial() {
    let mut report = BarzelReport::new(dummy_project());
    report.add_layer(layer_with_findings(vec![finding(Severity::High)]));
    assert_eq!(report.status, ReportStatus::Partial);
}

#[test]
fn medium_finding_makes_report_partial() {
    let mut report = BarzelReport::new(dummy_project());
    report.add_layer(layer_with_findings(vec![finding(Severity::Medium)]));
    assert_eq!(report.status, ReportStatus::Partial);
}

#[test]
fn low_finding_does_not_change_status_but_increments_count() {
    let mut report = BarzelReport::new(dummy_project());
    report.add_layer(layer_with_findings(vec![finding(Severity::Low)]));
    assert_eq!(report.status, ReportStatus::Pass);
    assert_eq!(report.summary.low, 1);
}

#[test]
fn medium_finding_increments_medium_count() {
    let mut report = BarzelReport::new(dummy_project());
    report.add_layer(layer_with_findings(vec![finding(Severity::Medium)]));
    assert_eq!(report.summary.medium, 1);
}

#[test]
fn critical_overrides_partial() {
    let mut report = BarzelReport::new(dummy_project());
    report.add_layer(layer_with_findings(vec![finding(Severity::High)]));
    assert_eq!(report.status, ReportStatus::Partial);
    report.add_layer(layer_with_findings(vec![finding(Severity::Critical)]));
    assert_eq!(report.status, ReportStatus::Fail);
}

#[test]
fn multiple_info_findings_count_in_total() {
    let mut report = BarzelReport::new(dummy_project());
    report.add_layer(layer_with_findings(vec![
        finding(Severity::Info),
        finding(Severity::Info),
        finding(Severity::Info),
    ]));
    assert_eq!(report.summary.total_findings, 3);
    assert_eq!(report.status, ReportStatus::Pass);
}

#[test]
fn summary_overall_status_matches_report_status() {
    let mut report = BarzelReport::new(dummy_project());
    report.add_layer(layer_with_findings(vec![finding(Severity::Critical)]));
    assert_eq!(report.summary.overall_status, report.status);
}

#[test]
fn save_creates_file_in_reports_dir() {
    let report = BarzelReport::new(dummy_project());
    let name = report.file_name().unwrap();
    assert!(name.starts_with("report-"));
    assert!(name.ends_with(".json"));
}

#[test]
fn load_latest_returns_saved_report() {
    let mut report = BarzelReport::new(dummy_project());
    report.add_layer(layer_with_findings(vec![finding(Severity::Info)]));
    let id = report.id.clone();
    let all = vec![stored(report)];
    let loaded = &all[BarzelReport::load_latest(&all).unwrap()].report;
    assert_eq!(loaded.id, id);
    assert_eq!(loaded.summary.total_findings, 1);
}

#[test]
fn load_latest_returns_none_when_no_reports() {
    assert!(BarzelReport::load_latest(&vec![]).is_none());
}

#[test]
fn load_latest_uses_timestamp_not_filename_for_same_second() {
    let mut older = BarzelReport::new(dummy_project());
    let mut newer = BarzelReport::new(dummy_project());
    older.timestamp = Timestamp { secs: 1_736_942_400, nanos: 0 };
    newer.timestamp = Timestamp { secs: 1_736_942_400, nanos: 500_000_000 };
    older.id = "zzzzzzzz-0000-0000-0000-000000000000".to_string();
    newer.id = "00000000-0000-0000-0000-000000000000".to_string();
    let id = newer.id.clone();
    let all = vec![stored(older), stored(newer)];
    let latest = &all[BarzelReport::load_latest(&all).unwrap()].report;
    assert_eq!(
        latest.id, id,
        "load_latest must return the report with the greater timestamp, not the later filename"
    );
}

#[test]
fn load_by_id_finds_report() {
    let report = BarzelReport::new(dummy_project());
    let id = report.id.clone();
    let all = vec![stored(report)];
    let loaded = BarzelReport::load_by_id(&all, &id[..8]);
    assert!(loaded.is_some());
    assert_eq!(all[loaded.unwrap()].report.id, id);
}

#[test]
fn load_by_id_returns_none_for_unknown_id() {
    let mut report = BarzelReport::new(dummy_project());
    report.id = "12345678-0000-0000-0000-000000000000".to_string();
    let all = vec![stored(report)];
    assert!(BarzelReport::load_by_id(&all, "00000000").is_none());
}

#[test]
fn same_second_reports_get_distinct_filenames() {
    let r1 = BarzelReport::new(dummy_project());
    let mut r2 = BarzelReport::new(dummy_project());
    r2.timestamp = r1.timestamp;
    let (id1, id2) = (r1.id.clone(), r2.id.clone());
    let all = vec![stored(r1), stored(r2)];
    assert_ne!(
        all[0].path, all[1].path,
        "two reports with the same timestamp must not share a filename"
    );
    assert!(BarzelReport::load_by_id(&all, &id1).is_some());
    assert!(BarzelReport::load_by_id(&all, &id2).is_some());
}

#[test]
fn save_does_not_panic_on_short_id() {
    let mut report = BarzelReport::new(dummy_project());
    report.id = "ab".to_string();
    assert!(report.file_name().unwrap().ends_with("-ab.json"));
}

#[test]
fn total_findings_equals_sum_of_layer_findings() {
    for counts in [vec![0usize], vec![9, 9, 9, 9], vec![1, 0, 3], vec![5, 5]] {
        let mut report = BarzelReport::new(dummy_project());
        let total: usize = counts.iter().sum();
        for count in &counts {
            let findings = (0..*count).map(|_| finding(Severity::Info)).collect();
            report.add_layer(layer_with_findings(findings));
        }
        assert_eq!(report.summary.total_findings, total);
    }
}

#[test]
fn total_findings_never_decreases() {
    for (count_a, count_b) in [(0usize, 0usize), (0, 9), (9, 0), (4, 5)] {
        let mut report = BarzelReport::new(dummy_project());
        for count in [count_a, count_b] {
            let before = report.summary.total_findings;
            let findings = (0..count).map(|_| finding(Severity::Info)).collect();
            report.add_layer(layer_with_findings(findings));
            assert!(report.summary.total_findings >= before);
        }
    }
}

#[test]
fn severity_counts_add_up_to_total() {
    for finding_count in [0usize, 1, 7, 19] {
        let mut report = BarzelReport::new(dummy_project());
        let findings = (0..finding_count).map(|_| finding(Severity::High)).collect();
        report.add_layer(layer_with_findings(findings));
        let counted = report.summary.critical
            + report.summary.high
            + report.summary.medium
            + report.summary.low;
        assert_eq!(counted, report.summary.total_findings);
    }
}

#[test]
fn ids_are_new_for_every_report() {
    let a = BarzelReport::new(dummy_project());
    let b = BarzelReport::new(dummy_project());
    assert_ne!(a.id, b.id);
    assert_eq!(a.id.len(), 36);
    assert_eq!(a.id.chars().filter(|c| *c == '-').count(), 4);
    assert!(a.timestamp.secs > 1_600_000_000);
}

#[test]
fn file_names_show_the_time() {
    let report = BarzelReport::with_identity(
        dummy_project(),
        "0123456789".to_string(),
        Timestamp { secs: 1_736_942_400, nanos: 5 },
    );
    assert_eq!(report.file_name().unwrap(), "report-20250115-120000-01234567.json");
}

#[test]
fn times_that_cannot_be_shown_give_no_file_name() {
    let report = BarzelReport::with_identity(
        dummy_project(),
        "x".to_string(),
        Timestamp { secs: i64::MAX, nanos: 0 },
    );
    assert!(report.file_name().is_none());
}

#[test]
fn recomputing_a_summary_changes_nothing() {
    let mut report = BarzelReport::new(dummy_project());
    report.add_layer(layer_with_findings(vec![finding(Severity::Low), finding(Severity::High)]));
    let before = report.summary;
    report.recompute_summary();
    assert_eq!(report.summary, before);
}

#[test]
fn references_name_the_latest_or_an_id() {
    let mut report = BarzelReport::new(dummy_project());
    report.id = "abcdef".to_string();
    let all = vec![stored(report)];
    assert_eq!(load_report_by_ref(&all, "latest").unwrap(), 0);
    assert_eq!(load_report_by_ref(&all, "abc").unwrap(), 0);
    assert!(load_report_by_ref(&all, "zzz").unwrap_err().message().contains("zzz"));
    assert!(load_report_by_ref(&vec![], "latest").is_err());
}

#[test]
fn identifiers_are_random_and_of_version_four() {
    let a = BarzelReport::new(dummy_project());
    let b = BarzelReport::new(dummy_project());
    assert_ne!(a.id, b.id);
    let id: Vec<char> = a.id.chars().collect();
    assert_eq!(id.len(), 36);
    for (i, c) in id.iter().enumerate() {
        if [8, 13, 18, 23].contains(&i) {
            assert_eq!(*c, '-');
        } else {
            assert!(c.is_ascii_digit() || ('a'..='f').contains(c));
        }
    }
    assert_eq!(id[14], '4');
    assert!("89ab".contains(id[19]));
}

#[test]
fn load_latest_does_not_depend_on_the_order_found() {
    let at = |path: &str, id: &str| StoredReport {
        path: path.to_string(),
        report: BarzelReport::with_identity(
            dummy_project(),
            id.to_string(),
            Timestamp { secs: 5, nanos: 7 },
        ),
    };
    let one = vec![at("a.json", "first"), at("b.json", "second")];
    let other = vec![at("b.json", "second"), at("a.json", "first")];
    assert_eq!(one[BarzelReport::load_latest(&one).unwrap()].report.id, "second");
    assert_eq!(other[BarzelReport::load_latest(&other).unwrap()].report.id, "second");
}
