use barzel::detect::{Language, ProjectFrameworks, ProjectInfo};
use barzel::files::{Entry, Files};
use barzel::plugin::{Layer, TestRunner};
use barzel::process::{MockProcessRunner, ProcessOutput, RunFailure, SubprocessRunner};
use barzel::report::{LayerStatus, Severity};
use barzel::runners::kani::{extract_kani_failures, has_kani_harnesses, parse_kani_output, KaniRunner};

fn info(language: Language, root: &str) -> ProjectInfo {
    ProjectInfo {
        language,
        root: root.to_string(),
        has_tests: true,
        package_name: None,
        frameworks: ProjectFrameworks::default(),
        workspace_root: None,
    }
}

/// The files of a project at `root`, with the directories they stand in.
fn files_at(root: &str, texts: &[(&str, &str)]) -> Files {
    let mut entries = vec![Entry {
        path: String::new(),
        dir: true,
        absolute: root.to_string(),
        text: None,
    }];
    for (path, text) in texts {
        let parts: Vec<&str> = path.split('/').collect();
        for n in 1..parts.len() {
            let parent = parts[..n].join("/");
            if !entries.iter().any(|e| e.path == parent) {
                entries.push(Entry {
                    absolute: format!("{root}/{parent}"),
                    path: parent,
                    dir: true,
                    text: None,
                });
            }
        }
        if !path.ends_with('/') {
            entries.push(Entry {
                path: path.to_string(),
                dir: false,
                absolute: format!("{root}/{path}"),
                text: Some(text.to_string()),
            });
        }
    }
    Files { entries }
}

struct BrokenProc;

impl SubprocessRunner for BrokenProc {
    fn run(&mut self, _: &str, _: &Vec<String>, _: &str) -> Result<ProcessOutput, String> {
        Err("not found".to_string())
    }

    fn run_timed(
        &mut self,
        _: &str,
        _: &Vec<String>,
        _: &str,
        _: u64,
    ) -> Result<ProcessOutput, RunFailure> {
        Err(RunFailure { timed_out: false, text: "not found".to_string() })
    }
}

const HARNESS: &str = "#[kani::proof]\nfn verify() {}";

fn rust_info() -> ProjectInfo {
    info(Language::Rust, "/tmp")
}

#[test]
fn name_is_kani() {
    assert_eq!(KaniRunner::default().name(), "kani");
}

#[test]
fn kani_layer_is_logic() {
    assert!(matches!(KaniRunner::default().layer(), Layer::Logic));
}

#[test]
fn kani_skip_message_nonempty() {
    assert!(!KaniRunner::default().skip_message().is_empty());
    assert!(KaniRunner::default().skip_message().contains("kani::proof"));
}

#[test]
fn kani_not_available_for_typescript() {
    let mut proc = MockProcessRunner::passing("kani 0.40");
    let files = files_at("/tmp", &[]);
    assert!(!KaniRunner.is_available(&mut proc, &info(Language::TypeScript, "/tmp"), &files));
}

#[test]
fn not_available_when_binary_missing() {
    let files = files_at("/tmp", &[("src/lib.rs", HARNESS)]);
    assert!(!KaniRunner.is_available(&mut MockProcessRunner::unavailable(), &rust_info(), &files));
}

#[test]
fn not_available_when_no_harnesses() {
    let files = files_at("/tmp", &[("src/lib.rs", "fn main() {}")]);
    assert!(!KaniRunner.is_available(&mut MockProcessRunner::passing("kani 0.40"), &rust_info(), &files));
}

#[test]
fn available_when_binary_present_and_harnesses_exist() {
    let files = files_at("/tmp", &[("src/lib.rs", HARNESS)]);
    assert!(KaniRunner.is_available(&mut MockProcessRunner::passing("kani 0.40"), &rust_info(), &files));
}

#[test]
fn run_returns_pass_on_successful_verification() {
    let stdout = "VERIFICATION:- SUCCESSFUL\nVERIFICATION:- SUCCESSFUL";
    let result = KaniRunner.run(&mut MockProcessRunner::passing(stdout), &rust_info());
    assert!(matches!(result.status, LayerStatus::Pass));
    assert_eq!(result.metrics.passed, 2);
    assert_eq!(result.metrics.failed, 0);
    assert!(result.findings.is_empty());
}

#[test]
fn run_returns_fail_on_verification_failure() {
    let stdout = "VERIFICATION:- FAILED";
    let result = KaniRunner.run(&mut MockProcessRunner::failing(stdout), &rust_info());
    assert!(matches!(result.status, LayerStatus::Fail));
    assert!(!result.findings.is_empty());
}

#[test]
fn kani_run_returns_fail_on_subprocess_error() {
    let result = KaniRunner.run(&mut BrokenProc, &rust_info());
    assert!(matches!(result.status, LayerStatus::Fail));
    assert_eq!(result.findings[0].severity, Severity::Critical);
}

#[test]
fn detects_kani_proof_annotation() {
    assert!(has_kani_harnesses(&files_at("/tmp", &[("src/lib.rs", HARNESS)])));
}

#[test]
fn returns_false_when_no_annotation() {
    assert!(!has_kani_harnesses(&files_at("/tmp", &[("src/lib.rs", "fn main() {}")])));
}

#[test]
fn returns_false_when_no_src_dir() {
    assert!(!has_kani_harnesses(&files_at("/tmp", &[])));
}

#[test]
fn detects_annotation_in_subdirectory() {
    let files = files_at("/tmp", &[("src/auth/verify.rs", "#[kani::proof]\nfn check() {}")]);
    assert!(has_kani_harnesses(&files));
}

#[test]
fn counts_successful_verifications() {
    let output = "VERIFICATION:- SUCCESSFUL\nVERIFICATION:- SUCCESSFUL";
    let (verified, failed) = parse_kani_output(output);
    assert_eq!(verified, 2);
    assert_eq!(failed, 0);
}

#[test]
fn counts_failed_verifications() {
    let output = "VERIFICATION:- FAILED\nVERIFICATION:- SUCCESSFUL\nVERIFICATION:- FAILED";
    let (verified, failed) = parse_kani_output(output);
    assert_eq!(verified, 1);
    assert_eq!(failed, 2);
}

#[test]
fn kani_empty_output_returns_zeros() {
    let (v, f) = parse_kani_output("");
    assert_eq!(v, 0);
    assert_eq!(f, 0);
}

#[test]
fn returns_fallback_finding_when_no_harness_info() {
    let output = "VERIFICATION:- FAILED";
    let findings = extract_kani_failures(output);
    assert!(!findings.is_empty());
    assert!(matches!(
        findings.iter().find(|f| matches!(f.severity, Severity::Critical | Severity::High)),
        Some(_)
    ));
}

#[test]
fn extracts_harness_name_when_present() {
    let output = "Checking harness my_proof_harness\nVERIFICATION:- FAILED";
    let findings = extract_kani_failures(output);
    assert!(findings[0].message.contains("my_proof_harness"));
}

#[test]
fn generic_finding_when_no_failed_line() {
    let findings = extract_kani_failures("no failures here");
    assert_eq!(findings.len(), 1);
    assert!(matches!(findings[0].severity, Severity::High));
}

#[test]
fn parse_kani_output_never_panics() {
    for s in ["", "VERIFICATION", "VERIFICATION:- \u{1F600}", "\n\n"] {
        let _ = parse_kani_output(s);
    }
}

#[test]
fn extract_kani_failures_never_panics() {
    for s in ["", "Checking harness", "Checking harness \nFAILED", "\u{1F600}"] {
        let _ = extract_kani_failures(s);
    }
}

#[test]
fn harnesses_outside_the_sources_do_not_count() {
    assert!(!has_kani_harnesses(&files_at("/tmp", &[("tests/k.rs", HARNESS)])));
}
