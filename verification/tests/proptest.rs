use barzel::detect::{Language, ProjectFrameworks, ProjectInfo};
use barzel::files::{Entry, Files};
use barzel::plugin::{Layer, TestRunner};
use barzel::process::{MockProcessRunner, ProcessOutput, RunFailure, SubprocessRunner};
use barzel::report::{LayerStatus, Severity};
use barzel::runners::proptest::{extract_count, parse_test_counts, ProptestRunner};

fn info(language: Language, root: &str) -> ProjectInfo {
    ProjectInfo {
        language,
        root: root.to_string(),
        has_tests: true,
        package_name: None,
        frameworks: ProjectFrameworks::default(),
        workspace_root: None,
    }
}

/// The files of a project at `root`, with the directories they stand in.
fn files_at(root: &str, texts: &[(&str, &str)]) -> Files {
    let mut entries = vec![Entry {
        path: String::new(),
        dir: true,
        absolute: root.to_string(),
        text: None,
    }];
    for (path, text) in texts {
        let parts: Vec<&str> = path.split('/').collect();
        for n in 1..parts.len() {
            let parent = parts[..n].join("/");
            if !entries.iter().any(|e| e.path == parent) {
                entries.push(Entry {
                    absolute: format!("{root}/{parent}"),
                    path: parent,
                    dir: true,
                    text: None,
                });
            }
        }
        if !path.ends_with('/') {
            entries.push(Entry {
                path: path.to_string(),
                dir: false,
                absolute: format!("{root}/{path}"),
                text: Some(text.to_string()),
            });
        }
    }
    Files { entries }
}

struct BrokenProc;

impl SubprocessRunner for BrokenProc {
    fn run(&mut self, _: &str, _: &Vec<String>, _: &str) -> Result<ProcessOutput, String> {
        Err("not found".to_string())
    }

    fn run_timed(
        &mut self,
        _: &str,
        _: &Vec<String>,
        _: &str,
        _: u64,
    ) -> Result<ProcessOutput, RunFailure> {
        Err(RunFailure { timed_out: false, text: "not found".to_string() })
    }
}

fn rust_info() -> ProjectInfo {
    info(Language::Rust, "/tmp")
}

#[test]
fn name_is_proptest() {
    assert_eq!(ProptestRunner::default().name(), "proptest");
}

#[test]
fn proptest_layer_is_logic() {
    assert!(matches!(ProptestRunner::default().layer(), Layer::Logic));
}

#[test]
fn skip_message_mentions_proptest() {
    assert!(ProptestRunner::default().skip_message().contains("proptest"));
}

#[test]
fn proptest_not_available_for_typescript() {
    let ts = info(Language::TypeScript, "/tmp");
    assert!(!ProptestRunner.is_available(&ts, &files_at("/tmp", &[])));
}

#[test]
fn not_available_when_proptest_missing() {
    let files = files_at("/tmp", &[("Cargo.toml", "[package]\nname=\"x\"")]);
    assert!(!ProptestRunner.is_available(&rust_info(), &files));
}

#[test]
fn available_when_proptest_in_toml() {
    let files = files_at("/tmp", &[("Cargo.toml", "[dev-dependencies]\nproptest=\"1.0\"")]);
    assert!(ProptestRunner.is_available(&rust_info(), &files));
}

#[test]
fn run_returns_pass_on_success() {
    let stdout = "test result: ok. 5 passed; 0 failed; 0 ignored; 0 measured";
    let result = ProptestRunner.run(&mut MockProcessRunner::passing(stdout), &rust_info());
    assert!(matches!(result.status, LayerStatus::Pass));
    assert_eq!(result.metrics.tests_run, 5);
    assert_eq!(result.metrics.passed, 5);
    assert_eq!(result.metrics.failed, 0);
    assert!(result.findings.is_empty());
}

#[test]
fn proptest_run_returns_fail_on_test_failure() {
    let stdout = "test result: FAILED. 3 passed; 2 failed; 0 ignored";
    let result = ProptestRunner.run(&mut MockProcessRunner::failing(stdout), &rust_info());
    assert!(matches!(result.status, LayerStatus::Fail));
    assert_eq!(result.metrics.failed, 2);
    assert_eq!(result.findings[0].severity, Severity::High);
    assert!(result.findings[0].reproduce_cmd.is_some());
}

#[test]
fn proptest_run_returns_fail_on_subprocess_error() {
    let result = ProptestRunner.run(&mut BrokenProc, &rust_info());
    assert!(matches!(result.status, LayerStatus::Fail));
    assert_eq!(result.findings[0].severity, Severity::Critical);
    assert_eq!(result.metrics.failed, 1);
}

#[test]
fn parses_standard_line() {
    let (t, p, f) = parse_test_counts("test result: ok. 5 passed; 2 failed; 0 ignored");
    assert_eq!(p, 5);
    assert_eq!(f, 2);
    assert_eq!(t, 7);
}

#[test]
fn proptest_fallback_returns_one_passed() {
    let (t, p, f) = parse_test_counts("no match");
    assert_eq!(t, 1);
    assert_eq!(p, 1);
    assert_eq!(f, 0);
}

#[test]
fn parse_test_counts_never_panics() {
    for s in ["", "test result:", "test result: 18446744073709551615 passed; 9 failed", "é\ntest result: é"] {
        let _ = parse_test_counts(s);
    }
}

#[test]
fn total_is_passed_plus_failed() {
    for (p, f) in [(0u64, 0u64), (499, 0), (0, 499), (123, 456)] {
        let line = format!("test result: ok. {p} passed; {f} failed; 0 ignored");
        let (total, passed, failed) = parse_test_counts(&line);
        assert_eq!(passed, p);
        assert_eq!(failed, f);
        assert_eq!(total, p + f);
    }
}

#[test]
fn extract_count_never_panics() {
    for line in ["", "passed", "1 passed", "é passed"] {
        for label in ["", "passed", "é"] {
            let _ = extract_count(line, label);
        }
    }
}

#[test]
fn totals_of_tests_are_capped() {
    let line = format!("test result: ok. {} passed; 3 failed", u64::MAX);
    assert_eq!(parse_test_counts(&line), (u64::MAX, u64::MAX, 3));
}
