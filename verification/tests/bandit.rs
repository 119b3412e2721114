use barzel::detect::{Language, ProjectFrameworks, ProjectInfo};
use barzel::files::Files;
use barzel::plugin::{Layer, TestRunner};
use barzel::process::{MockProcessRunner, ProcessOutput, RunFailure, SubprocessRunner};
use barzel::report::{LayerStatus, Severity};
use barzel::runners::bandit::{parse_bandit_json, report_bandit, BanditRunner};

fn info(language: Language, root: &str) -> ProjectInfo {
    ProjectInfo {
        language,
        root: root.to_string(),
        has_tests: true,
        package_name: None,
        frameworks: ProjectFrameworks::default(),
        workspace_root: None,
    }
}

fn no_files() -> Files {
    Files { entries: vec![] }
}

struct BrokenProc;

impl SubprocessRunner for BrokenProc {
    fn run(&mut self, _: &str, _: &Vec<String>, _: &str) -> Result<ProcessOutput, String> {
        Err("not found".to_string())
    }

    fn run_timed(
        &mut self,
        _: &str,
        _: &Vec<String>,
        _: &str,
        _: u64,
    ) -> Result<ProcessOutput, RunFailure> {
        Err(RunFailure { timed_out: false, text: "not found".to_string() })
    }
}

fn py_info() -> ProjectInfo {
    info(Language::Python, "/tmp")
}

#[test]
fn name_is_bandit() {
    assert_eq!(BanditRunner::default().name(), "bandit");
}

#[test]
fn bandit_layer_is_hostile() {
    assert!(matches!(BanditRunner::default().layer(), Layer::Hostile));
}

#[test]
fn bandit_not_available_for_rust() {
    let mut proc = MockProcessRunner::passing("");
    assert!(!BanditRunner.is_available(&mut proc, &info(Language::Rust, "/tmp"), &no_files()));
}

#[test]
fn available_when_bandit_present() {
    let mut proc = MockProcessRunner::passing("bandit 1.7.5");
    assert!(BanditRunner.is_available(&mut proc, &py_info(), &no_files()));
}

#[test]
fn clean_project_returns_pass_with_info_finding() {
    let json = r#"{"results": [], "metrics": {}}"#;
    let result = BanditRunner.run(&mut MockProcessRunner::passing(json), &py_info(), &no_files());
    assert!(matches!(result.status, LayerStatus::Pass));
    assert!(result.findings.iter().any(|f| f.code == "BANDIT_PASSED"));
}

#[test]
fn high_severity_issue_returns_partial() {
    let json = r#"{"results": [{"test_id": "B201", "issue_severity": "HIGH", "issue_confidence": "HIGH", "issue_text": "Use of assert detected.", "filename": "app.py", "line_number": 5}]}"#;
    let result = BanditRunner.run(&mut MockProcessRunner::passing(json), &py_info(), &no_files());
    assert!(matches!(result.status, LayerStatus::Partial));
    assert_eq!(result.findings[0].severity, Severity::High);
}

#[test]
fn parses_location_from_result() {
    let json = r#"{"results": [{"test_id": "B105", "issue_severity": "MEDIUM", "issue_text": "Hardcoded password", "filename": "config.py", "line_number": 12}]}"#;
    let result = BanditRunner.run(&mut MockProcessRunner::passing(json), &py_info(), &no_files());
    assert!(result.findings[0].location.as_ref().unwrap().contains("config.py:12"));
}

#[test]
fn execution_failure_returns_critical_finding() {
    let result = BanditRunner.run(&mut BrokenProc, &py_info(), &no_files());
    assert!(matches!(result.status, LayerStatus::Fail));
    assert_eq!(result.findings[0].severity, Severity::Critical);
}

#[test]
fn bandit_report_is_found_on_a_later_line() {
    let out = "[main] INFO running\n{\"results\": [{\"test_id\": \"B602\", \"issue_severity\": \"LOW\"}]}\n";
    let findings = parse_bandit_json(out);
    assert_eq!(findings.len(), 1);
    assert_eq!(findings[0].severity, Severity::Low);
    assert!(findings[0].code.contains("B602"));
}

#[test]
fn bandit_failure_keeps_duration_and_counts_one() {
    let result = report_bandit("bandit", &Err("gone".to_string()), 12);
    assert_eq!(result.duration_ms, 12);
    assert_eq!(result.metrics.failed, 1);
    assert!(result.findings[0].message.contains("gone"));
}
