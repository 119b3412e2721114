use barzel::detect::{Language, ProjectFrameworks, ProjectInfo};
use barzel::files::{Entry, Files};
use barzel::plugin::{Layer, TestRunner};
use barzel::process::{MockProcessRunner, ProcessOutput, RunFailure, SubprocessRunner};
use barzel::report::{LayerStatus, Severity};
use barzel::runners::jest::{extract_js_failures, parse_js_test_output, JestRunner};

fn info(language: Language, root: &str) -> ProjectInfo {
    ProjectInfo {
        language,
        root: root.to_string(),
        has_tests: true,
        package_name: None,
        frameworks: ProjectFrameworks::default(),
        workspace_root: None,
    }
}

/// The files of a project at `root`, with the directories they stand in.
fn files_at(root: &str, texts: &[(&str, &str)]) -> Files {
    let mut entries = vec![Entry {
        path: String::new(),
        dir: true,
        absolute: root.to_string(),
        text: None,
    }];
    for (path, text) in texts {
        let parts: Vec<&str> = path.split('/').collect();
        for n in 1..parts.len() {
            let parent = parts[..n].join("/");
            if !entries.iter().any(|e| e.path == parent) {
                entries.push(Entry {
                    absolute: format!("{root}/{parent}"),
                    path: parent,
                    dir: true,
                    text: None,
                });
            }
        }
        if !path.ends_with('/') {
            entries.push(Entry {
                path: path.to_string(),
                dir: false,
                absolute: format!("{root}/{path}"),
                text: Some(text.to_string()),
            });
        }
    }
    Files { entries }
}

struct BrokenProc;

impl SubprocessRunner for BrokenProc {
    fn run(&mut self, _: &str, _: &Vec<String>, _: &str) -> Result<ProcessOutput, String> {
        Err("not found".to_string())
    }

    fn run_timed(
        &mut self,
        _: &str,
        _: &Vec<String>,
        _: &str,
        _: u64,
    ) -> Result<ProcessOutput, RunFailure> {
        Err(RunFailure { timed_out: false, text: "not found".to_string() })
    }
}

fn ts_info(root: &str) -> ProjectInfo {
    ProjectInfo {
        language: Language::TypeScript,
        root: root.to_string(),
        has_tests: true,
        package_name: Some("my-app".to_string()),
        frameworks: ProjectFrameworks { is_nextjs: true, ..Default::default() },
        workspace_root: None,
    }
}

fn jest_dir() -> Files {
    files_at(
        "/tmp",
        &[
            ("package.json", r#"{"devDependencies":{"jest":"^29"}}"#),
            ("node_modules/.bin/jest", "#!/bin/sh\necho hi"),
        ],
    )
}

#[test]
fn name_is_jest() {
    assert_eq!(JestRunner::default().name(), "jest");
}

#[test]
fn jest_layer_is_logic() {
    assert!(matches!(JestRunner::default().layer(), Layer::Logic));
}

#[test]
fn jest_not_available_for_rust() {
    assert!(!JestRunner.is_available(&info(Language::Rust, "/tmp"), &files_at("/tmp", &[])));
}

#[test]
fn available_when_jest_in_node_modules() {
    let files = files_at(
        "/tmp",
        &[
            ("package.json", r#"{"scripts":{"test":"jest"},"devDependencies":{"jest":"^29"}}"#),
            ("node_modules/.bin/jest", ""),
        ],
    );
    assert!(JestRunner.is_available(&ts_info("/tmp"), &files));
}

#[test]
fn available_when_vitest_in_node_modules() {
    let files = files_at(
        "/tmp",
        &[
            ("package.json", r#"{"scripts":{"test":"vitest"},"devDependencies":{"vitest":"^1"}}"#),
            ("node_modules/.bin/vitest", ""),
        ],
    );
    assert!(JestRunner.is_available(&ts_info("/tmp"), &files));
}

#[test]
fn not_available_without_node_modules() {
    let files = files_at(
        "/tmp",
        &[("package.json", r#"{"scripts":{"test":"jest"},"devDependencies":{"jest":"^29"}}"#)],
    );
    assert!(!JestRunner.is_available(&ts_info("/tmp"), &files));
}

#[test]
fn run_pass_parses_jest_counts() {
    let out = "Tests: 12 passed, 0 failed, 12 total\nTest Suites: 3 passed";
    let result = JestRunner.run(&mut MockProcessRunner::passing(out), &ts_info("/tmp"), &jest_dir());
    assert!(matches!(result.status, LayerStatus::Pass));
    assert_eq!(result.metrics.passed, 12);
    assert_eq!(result.metrics.failed, 0);
    assert!(result.findings.is_empty());
}

#[test]
fn run_fail_parses_counts_and_failure_names() {
    let out = "● MyComponent › renders correctly\nTests: 10 passed, 2 failed, 12 total";
    let result = JestRunner.run(&mut MockProcessRunner::failing(out), &ts_info("/tmp"), &jest_dir());
    assert!(matches!(result.status, LayerStatus::Fail));
    assert_eq!(result.metrics.failed, 2);
    assert!(result.findings[0].message.contains("2"));
}

#[test]
fn jest_run_fail_on_subprocess_error() {
    let result = JestRunner.run(&mut BrokenProc, &ts_info("/tmp"), &jest_dir());
    assert!(matches!(result.status, LayerStatus::Fail));
    assert_eq!(result.findings[0].severity, Severity::Critical);
}

#[test]
fn parse_jest_passed_and_failed() {
    let (p, f, t) = parse_js_test_output("Tests: 10 passed, 2 failed, 12 total");
    assert_eq!(p, 10);
    assert_eq!(f, 2);
    assert_eq!(t, 12);
}

#[test]
fn parse_jest_passed_only() {
    let (p, f, t) = parse_js_test_output("Tests: 5 passed, 5 total");
    assert_eq!(p, 5);
    assert_eq!(f, 0);
    assert_eq!(t, 5);
}

#[test]
fn parse_vitest_output() {
    let (p, f, _) = parse_js_test_output("Tests  12 passed (12)");
    assert_eq!(p, 12);
    assert_eq!(f, 0);
}

#[test]
fn jest_parse_never_panics() {
    for s in ["", "Tests:", "Tests: passed, failed", "Tests: 18446744073709551615 passed, 1 failed", "é: passed"] {
        let _ = parse_js_test_output(s);
    }
}

#[test]
fn failures_are_named_without_their_bullets() {
    assert_eq!(extract_js_failures("● A › b\nok"), vec!["A › b"]);
}

#[test]
fn run_without_a_test_command_is_skipped() {
    let result =
        JestRunner.run(&mut MockProcessRunner::passing(""), &ts_info("/tmp"), &files_at("/tmp", &[]));
    assert_eq!(result.status, LayerStatus::Skipped);
    assert_eq!(result.duration_ms, 0);
}
