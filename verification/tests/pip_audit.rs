use barzel::detect::{Language, ProjectFrameworks, ProjectInfo};
use barzel::files::Files;
use barzel::plugin::{Layer, TestRunner};
use barzel::process::MockProcessRunner;
use barzel::report::LayerStatus;
use barzel::runners::pip_audit::{parse_pip_audit_json, PipAuditRunner};

fn info(language: Language, root: &str) -> ProjectInfo {
    ProjectInfo {
        language,
        root: root.to_string(),
        has_tests: true,
        package_name: None,
        frameworks: ProjectFrameworks::default(),
        workspace_root: None,
    }
}

fn no_files() -> Files {
    Files { entries: vec![] }
}

fn py_info() -> ProjectInfo {
    info(Language::Python, "/tmp")
}

#[test]
fn name_is_pip_audit() {
    assert_eq!(PipAuditRunner::default().name(), "pip-audit");
}

#[test]
fn pip_audit_layer_is_hostile() {
    assert!(matches!(PipAuditRunner::default().layer(), Layer::Hostile));
}

#[test]
fn pip_audit_not_available_for_rust() {
    let mut proc = MockProcessRunner::passing("");
    assert!(!PipAuditRunner.is_available(&mut proc, &info(Language::Rust, "/tmp"), &no_files()));
}

#[test]
fn available_when_pip_audit_installed() {
    let mut proc = MockProcessRunner::passing("pip-audit 2.4.0");
    assert!(PipAuditRunner.is_available(&mut proc, &py_info(), &no_files()));
}

#[test]
fn pip_audit_clean_project_returns_pass() {
    let json = r#"{"dependencies":[]}"#;
    let result = PipAuditRunner.run(&mut MockProcessRunner::passing(json), &py_info(), &no_files());
    assert!(matches!(result.status, LayerStatus::Pass));
    assert!(result.findings.iter().any(|f| f.code == "PIP_AUDIT_PASSED"));
}

#[test]
fn pip_audit_vulnerability_found_returns_fail() {
    let json = r#"{"dependencies":[{"name":"requests","version":"2.25.0","vulns":[{"id":"PYSEC-2023-74","fix_versions":["2.31.0"],"description":"Unverified HTTPS requests"}]}]}"#;
    let result = PipAuditRunner.run(&mut MockProcessRunner::failing(json), &py_info(), &no_files());
    assert!(matches!(result.status, LayerStatus::Fail));
    assert!(result.findings[0].message.contains("requests"));
    assert!(result.findings[0].suggestion.as_ref().unwrap().contains("2.31.0"));
}

#[test]
fn parse_extracts_package_and_fix_version() {
    let json = r#"{"dependencies":[{"name":"flask","version":"1.0.0","vulns":[{"id":"CVE-2023-1","fix_versions":["2.0.0"],"description":"XSS vulnerability"}]}]}"#;
    let findings = parse_pip_audit_json(json);
    assert_eq!(findings.len(), 1);
    assert!(findings[0].message.contains("flask@1.0.0"));
    assert!(findings[0].suggestion.as_ref().unwrap().contains("2.0.0"));
}

#[test]
fn no_vulns_package_is_clean() {
    let json = r#"{"dependencies":[{"name":"requests","version":"2.31.0","vulns":[]}]}"#;
    let findings = parse_pip_audit_json(json);
    assert!(findings.is_empty());
}
