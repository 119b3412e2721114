use barzel::detect::{Language, ProjectFrameworks, ProjectInfo};
use barzel::files::{Entry, Files};
use barzel::plugin::{Layer, TestRunner};
use barzel::process::MockProcessRunner;
use barzel::report::{LayerStatus, Severity};
use barzel::runners::cargo_audit::{parse_cargo_audit_json, CargoAuditRunner};

fn info(language: Language, root: &str) -> ProjectInfo {
    ProjectInfo {
        language,
        root: root.to_string(),
        has_tests: true,
        package_name: None,
        frameworks: ProjectFrameworks::default(),
        workspace_root: None,
    }
}

/// The files of a project at `root`, with the directories they stand in.
fn files_at(root: &str, texts: &[(&str, &str)]) -> Files {
    let mut entries = vec![Entry {
        path: String::new(),
        dir: true,
        absolute: root.to_string(),
        text: None,
    }];
    for (path, text) in texts {
        let parts: Vec<&str> = path.split('/').collect();
        for n in 1..parts.len() {
            let parent = parts[..n].join("/");
            if !entries.iter().any(|e| e.path == parent) {
                entries.push(Entry {
                    absolute: format!("{root}/{parent}"),
                    path: parent,
                    dir: true,
                    text: None,
                });
            }
        }
        if !path.ends_with('/') {
            entries.push(Entry {
                path: path.to_string(),
                dir: false,
                absolute: format!("{root}/{path}"),
                text: Some(text.to_string()),
            });
        }
    }
    Files { entries }
}

#[test]
fn name_is_cargo_audit() {
    assert_eq!(CargoAuditRunner::default().name(), "cargo-audit");
}

#[test]
fn cargo_audit_layer_is_hostile() {
    assert!(matches!(CargoAuditRunner::default().layer(), Layer::Hostile));
}

#[test]
fn cargo_audit_not_available_for_typescript() {
    let mut proc = MockProcessRunner::passing("");
    let files = files_at("/tmp", &[]);
    assert!(!CargoAuditRunner.is_available(&mut proc, &info(Language::TypeScript, "/tmp"), &files));
}

#[test]
fn not_available_without_cargo_lock() {
    let files = files_at("/tmp", &[("Cargo.toml", "[package]\nname=\"test\"")]);
    let mut proc = MockProcessRunner::passing("cargo-audit 0.18");
    assert!(!CargoAuditRunner.is_available(&mut proc, &info(Language::Rust, "/tmp"), &files));
}

#[test]
fn available_with_cargo_lock() {
    let files = files_at("/tmp", &[("Cargo.lock", "")]);
    let mut proc = MockProcessRunner::passing("cargo-audit 0.18");
    assert!(CargoAuditRunner.is_available(&mut proc, &info(Language::Rust, "/tmp"), &files));
}

#[test]
fn cargo_audit_clean_project_returns_pass() {
    let json = r#"{"vulnerabilities":{"list":[],"count":0},"warnings":{}}"#;
    let mut proc = MockProcessRunner::passing(json);
    let result = CargoAuditRunner.run(&mut proc, &info(Language::Rust, "/tmp"));
    assert!(matches!(result.status, LayerStatus::Pass));
    assert!(result.findings.iter().any(|f| f.code == "CARGO_AUDIT_PASSED"));
}

#[test]
fn cargo_audit_vulnerability_found_returns_fail() {
    let json = r#"{"vulnerabilities":{"list":[{"advisory":{"id":"RUSTSEC-2023-0001","title":"Unsound use of transmute","severity":"high","patched_versions":[">=1.2.0"]},"package":{"name":"mylib","version":"1.0.0"}}],"count":1}}"#;
    let mut proc = MockProcessRunner::failing(json);
    let result = CargoAuditRunner.run(&mut proc, &info(Language::Rust, "/tmp"));
    assert!(matches!(result.status, LayerStatus::Fail));
    assert!(result.findings[0].message.contains("RUSTSEC-2023-0001"));
    assert!(result.findings[0].suggestion.as_ref().unwrap().contains("1.2.0"));
}

#[test]
fn parse_extracts_severity_and_fix() {
    let json = r#"{"vulnerabilities":{"list":[{"advisory":{"id":"RUSTSEC-2023-0042","title":"Buffer overflow","severity":"critical","patched_versions":[">=2.0.0"]},"package":{"name":"unsafe-lib","version":"1.0.0"}}]}}"#;
    let findings = parse_cargo_audit_json(json);
    assert_eq!(findings.len(), 1);
    assert_eq!(findings[0].severity, Severity::Critical);
    assert!(findings[0].message.contains("unsafe-lib@1.0.0"));
    assert!(findings[0].suggestion.as_ref().unwrap().contains("2.0.0"));
}
