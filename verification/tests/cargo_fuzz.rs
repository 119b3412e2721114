use barzel::detect::{Language, ProjectFrameworks, ProjectInfo};
use barzel::files::{Entry, Files};
use barzel::plugin::{Layer, TestRunner};
use barzel::process::MockProcessRunner;
use barzel::process::{ProcessOutput, SubprocessRunner};
use barzel::report::{LayerStatus, Severity};
use barzel::runners::cargo_fuzz::{
    find_crash_artifacts, infer_target_from_artifact, list_fuzz_targets, scan_target_directory,
    CargoFuzzRunner,
};

fn info(language: Language, root: &str) -> ProjectInfo {
    ProjectInfo {
        language,
        root: root.to_string(),
        has_tests: true,
        package_name: None,
        frameworks: ProjectFrameworks::default(),
        workspace_root: None,
    }
}

/// The files of a project at `root`, with the directories they stand in.
fn files_at(root: &str, texts: &[(&str, &str)]) -> Files {
    let mut entries = vec![Entry {
        path: String::new(),
        dir: true,
        absolute: root.to_string(),
        text: None,
    }];
    for (path, text) in texts {
        let parts: Vec<&str> = path.split('/').collect();
        for n in 1..parts.len() {
            let parent = parts[..n].join("/");
            if !entries.iter().any(|e| e.path == parent) {
                entries.push(Entry {
                    absolute: format!("{root}/{parent}"),
                    path: parent,
                    dir: true,
                    text: None,
                });
            }
        }
        if !path.ends_with('/') {
            entries.push(Entry {
                path: path.to_string(),
                dir: false,
                absolute: format!("{root}/{path}"),
                text: Some(text.to_string()),
            });
        }
    }
    Files { entries }
}

fn rust_info() -> ProjectInfo {
    info(Language::Rust, "/tmp")
}

fn asked(proc: &mut MockProcessRunner) -> Result<ProcessOutput, String> {
    proc.run("cargo", &vec!["fuzz".to_string(), "list".to_string()], "/tmp")
}

#[test]
fn name_is_cargo_fuzz() {
    assert_eq!(CargoFuzzRunner::default().name(), "cargo-fuzz");
}

#[test]
fn cargo_fuzz_layer_is_hostile() {
    assert!(matches!(CargoFuzzRunner::default().layer(), Layer::Hostile));
}

#[test]
fn cargo_fuzz_skip_message_nonempty() {
    assert!(!CargoFuzzRunner::default().skip_message().is_empty());
    assert!(CargoFuzzRunner::default().skip_message().contains("fuzz"));
}

#[test]
fn not_available_for_go() {
    let mut proc = MockProcessRunner::passing("cargo-fuzz 0.12");
    let files = files_at("/tmp", &[]);
    assert!(!CargoFuzzRunner.is_available(&mut proc, &info(Language::Go, "/tmp"), &files));
}

#[test]
fn not_available_when_no_fuzz_dir() {
    let mut proc = MockProcessRunner::passing("cargo-fuzz 0.12");
    assert!(!CargoFuzzRunner.is_available(&mut proc, &rust_info(), &files_at("/tmp", &[])));
}

#[test]
fn not_available_when_cargo_fuzz_missing() {
    let files = files_at("/tmp", &[("fuzz/", "")]);
    let mut proc = MockProcessRunner::unavailable();
    assert!(!CargoFuzzRunner.is_available(&mut proc, &rust_info(), &files));
}

#[test]
fn available_when_fuzz_dir_exists_and_cargo_fuzz_present() {
    let files = files_at("/tmp", &[("fuzz/", "")]);
    let mut proc = MockProcessRunner::passing("cargo-fuzz 0.12");
    assert!(CargoFuzzRunner.is_available(&mut proc, &rust_info(), &files));
}

#[test]
fn run_returns_pass_with_targets_and_no_crashes() {
    let files = files_at("/tmp", &[("fuzz/fuzz_targets/fuzz_json.rs", "#![no_main]")]);
    let result = CargoFuzzRunner.run(&mut MockProcessRunner::passing("fuzz_json"), &rust_info(), &files);
    assert!(matches!(result.status, LayerStatus::Pass));
}

#[test]
fn run_returns_fail_when_crash_artifacts_exist() {
    let files = files_at("/tmp", &[("fuzz/artifacts/fuzz_target_1/crash-deadbeef", "\x00")]);
    let mut proc = MockProcessRunner::passing("fuzz_target_1");
    let result = CargoFuzzRunner.run(&mut proc, &rust_info(), &files);
    assert!(matches!(result.status, LayerStatus::Fail));
    assert_eq!(result.findings[0].severity, Severity::Critical);
}

#[test]
fn run_returns_skipped_when_no_targets() {
    let files = files_at("/tmp", &[]);
    let result = CargoFuzzRunner.run(&mut MockProcessRunner::passing(""), &rust_info(), &files);
    assert!(matches!(result.status, LayerStatus::Skipped));
}

#[test]
fn list_uses_cargo_fuzz_output_when_successful() {
    let outcome = asked(&mut MockProcessRunner::passing("fuzz_json\nfuzz_http\n"));
    let targets = list_fuzz_targets(&outcome, &files_at("/tmp", &[]));
    assert_eq!(targets, vec!["fuzz_json", "fuzz_http"]);
}

#[test]
fn list_falls_back_to_directory_scan_on_failure() {
    let files = files_at("/tmp", &[("fuzz/fuzz_targets/fuzz_json.rs", "#![no_main]")]);
    let targets = list_fuzz_targets(&asked(&mut MockProcessRunner::failing("")), &files);
    assert_eq!(targets, vec!["fuzz_json"]);
}

#[test]
fn infers_target_name_from_path() {
    let path = "/project/fuzz/artifacts/fuzz_target_1/crash-abc123";
    assert_eq!(infer_target_from_artifact(path), "fuzz_target_1");
}

#[test]
fn fallback_for_root_path() {
    assert_eq!(infer_target_from_artifact("crash"), "fuzz_target_1");
}

#[test]
fn fallback_for_empty_path() {
    assert_eq!(infer_target_from_artifact(""), "fuzz_target_1");
}

#[test]
fn finds_rust_fuzz_targets() {
    let files = files_at(
        "/tmp",
        &[
            ("fuzz/fuzz_targets/fuzz_json.rs", "#![no_main]"),
            ("fuzz/fuzz_targets/fuzz_http.rs", "#![no_main]"),
            ("fuzz/fuzz_targets/README.md", "docs"),
        ],
    );
    let targets = scan_target_directory(&files);
    assert_eq!(targets.len(), 2);
    assert!(targets.contains(&"fuzz_json".to_string()));
    assert!(targets.contains(&"fuzz_http".to_string()));
}

#[test]
fn returns_empty_when_no_targets_dir() {
    assert!(scan_target_directory(&files_at("/tmp", &[])).is_empty());
}

#[test]
fn finds_crash_files_in_artifacts_dir() {
    let files = files_at(
        "/tmp",
        &[
            ("fuzz/artifacts/fuzz_target_1/crash-deadbeef", "\x00\x01\x02"),
            ("fuzz/artifacts/fuzz_target_1/.gitignore", "*"),
            ("fuzz/artifacts/fuzz_target_1/README.md", "docs"),
        ],
    );
    let crashes = find_crash_artifacts(&files, "/tmp");
    assert_eq!(crashes.len(), 1);
    assert!(crashes[0].contains("crash-deadbeef"));
}

#[test]
fn returns_empty_when_no_artifacts_dir() {
    assert!(find_crash_artifacts(&files_at("/tmp", &[]), "/tmp").is_empty());
}

#[test]
fn returns_empty_when_no_crash_files() {
    let files = files_at("/tmp", &[("fuzz/artifacts/target_1/.gitignore", "*")]);
    assert!(find_crash_artifacts(&files, "/tmp").is_empty());
}
