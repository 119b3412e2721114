use barzel::detect::{Language, ProjectFrameworks, ProjectInfo};
use barzel::files::{Entry, Files};
use barzel::plugin::{Layer, TestRunner};
use barzel::process::{MockProcessRunner, ProcessOutput, RunFailure, SubprocessRunner};
use barzel::report::{LayerStatus, Severity};
use barzel::runners::pytest::{has_hypothesis, parse_coverage_pct, parse_pytest_output, PytestRunner};

fn info(language: Language, root: &str) -> ProjectInfo {
    ProjectInfo {
        language,
        root: root.to_string(),
        has_tests: true,
        package_name: None,
        frameworks: ProjectFrameworks::default(),
        workspace_root: None,
    }
}

/// The files of a project at `root`, with the directories they stand in.
fn files_at(root: &str, texts: &[(&str, &str)]) -> Files {
    let mut entries = vec![Entry {
        path: String::new(),
        dir: true,
        absolute: root.to_string(),
        text: None,
    }];
    for (path, text) in texts {
        let parts: Vec<&str> = path.split('/').collect();
        for n in 1..parts.len() {
            let parent = parts[..n].join("/");
            if !entries.iter().any(|e| e.path == parent) {
                entries.push(Entry {
                    absolute: format!("{root}/{parent}"),
                    path: parent,
                    dir: true,
                    text: None,
                });
            }
        }
        if !path.ends_with('/') {
            entries.push(Entry {
                path: path.to_string(),
                dir: false,
                absolute: format!("{root}/{path}"),
                text: Some(text.to_string()),
            });
        }
    }
    Files { entries }
}

struct BrokenProc;

impl SubprocessRunner for BrokenProc {
    fn run(&mut self, _: &str, _: &Vec<String>, _: &str) -> Result<ProcessOutput, String> {
        Err("not found".to_string())
    }

    fn run_timed(
        &mut self,
        _: &str,
        _: &Vec<String>,
        _: &str,
        _: u64,
    ) -> Result<ProcessOutput, RunFailure> {
        Err(RunFailure { timed_out: false, text: "not found".to_string() })
    }
}

/// Answers every call alike and keeps the commands.
struct Recorder {
    answer: MockProcessRunner,
    asked: Vec<(String, Vec<String>, String)>,
}

impl Recorder {
    fn new(answer: MockProcessRunner) -> Self {
        Recorder { answer, asked: vec![] }
    }
}

impl SubprocessRunner for Recorder {
    fn run(&mut self, cmd: &str, args: &Vec<String>, cwd: &str) -> Result<ProcessOutput, String> {
        self.asked.push((cmd.to_string(), args.clone(), cwd.to_string()));
        self.answer.run(cmd, args, cwd)
    }

    fn run_timed(
        &mut self,
        cmd: &str,
        args: &Vec<String>,
        cwd: &str,
        timeout_ms: u64,
    ) -> Result<ProcessOutput, RunFailure> {
        self.asked.push((cmd.to_string(), args.clone(), cwd.to_string()));
        self.answer.run_timed(cmd, args, cwd, timeout_ms)
    }
}

fn py_info() -> ProjectInfo {
    info(Language::Python, "/tmp")
}

fn nothing() -> Files {
    files_at("/tmp", &[])
}

#[test]
fn name_is_pytest() {
    assert_eq!(PytestRunner::default().name(), "pytest");
}

#[test]
fn pytest_layer_is_logic() {
    assert!(matches!(PytestRunner::default().layer(), Layer::Logic));
}

#[test]
fn pytest_not_available_for_rust() {
    let mut proc = MockProcessRunner::passing("");
    assert!(!PytestRunner.is_available(&mut proc, &info(Language::Rust, "/tmp"), &nothing()));
}

#[test]
fn available_via_windows_scripts_exe() {
    let files = files_at("/tmp", &[(".venv/Scripts/pytest.exe", "")]);
    assert!(
        PytestRunner.is_available(&mut MockProcessRunner::unavailable(), &py_info(), &files),
        "pytest.exe in .venv/Scripts must make runner available"
    );
}

#[test]
fn run_uses_windows_venv_pytest_exe() {
    let files = files_at("/tmp", &[(".venv/Scripts/pytest.exe", "")]);
    let mut recorder = Recorder::new(MockProcessRunner::passing("1 passed in 0.1s"));
    PytestRunner.run(&mut recorder, &py_info(), &files);
    for (cmd, _, _) in recorder.asked.iter() {
        assert!(
            cmd.contains("Scripts") && cmd.ends_with("pytest.exe"),
            "run() must use .venv/Scripts/pytest.exe on Windows layout, got: {cmd}"
        );
    }
    assert_eq!(recorder.asked.len(), 1);
}

#[test]
fn run_pass_parses_counts() {
    let stdout = "5 passed in 0.45s";
    let result = PytestRunner.run(&mut MockProcessRunner::passing(stdout), &py_info(), &nothing()).result;
    assert!(matches!(result.status, LayerStatus::Pass));
    assert_eq!(result.metrics.passed, 5);
    assert_eq!(result.metrics.failed, 0);
}

#[test]
fn run_fail_parses_counts() {
    let stdout = "3 passed, 2 failed in 0.45s\nFAILED test_foo.py::test_bar";
    let result = PytestRunner.run(&mut MockProcessRunner::failing(stdout), &py_info(), &nothing()).result;
    assert!(matches!(result.status, LayerStatus::Fail));
    assert_eq!(result.findings[0].severity, Severity::High);
    assert!(result.findings[0].message.contains("2"));
}

#[test]
fn pytest_run_fail_on_subprocess_error() {
    let result = PytestRunner.run(&mut BrokenProc, &py_info(), &nothing()).result;
    assert!(matches!(result.status, LayerStatus::Fail));
    assert_eq!(result.findings[0].severity, Severity::Critical);
}

#[test]
fn parses_passed_only() {
    let (passed, failed, errors) = parse_pytest_output("5 passed in 0.12s");
    assert_eq!(passed, 5);
    assert_eq!(failed, 0);
    assert_eq!(errors, 0);
}

#[test]
fn parses_mixed_results() {
    let (passed, failed, errors) = parse_pytest_output("3 passed, 2 failed, 1 error in 0.45s");
    assert_eq!(passed, 3);
    assert_eq!(failed, 2);
    assert_eq!(errors, 1);
}

#[test]
fn parse_coverage_pct_extracts_total_line() {
    let output =
        "Name    Stmts Miss  Cover\n---\napp.py   100    15    85%\nTOTAL    200    30    85%";
    let pct = parse_coverage_pct(output).and_then(|t| t.parse::<f64>().ok());
    assert_eq!(pct, Some(85.0));
}

#[test]
fn parse_coverage_pct_returns_none_when_missing() {
    assert!(parse_coverage_pct("5 passed in 0.45s").is_none());
}

#[test]
fn parse_pytest_never_panics() {
    for s in ["", "passed", "18446744073709551615 passed, 18446744073709551615 failed", "é failed"] {
        let _ = parse_pytest_output(s);
    }
}

#[test]
fn parse_coverage_never_panics() {
    for s in ["", "TOTAL", "TOTAL é%", "TOTAL %"] {
        let _ = parse_coverage_pct(s);
    }
}

#[test]
fn counts_that_do_not_fit_are_capped() {
    let out = "18446744073709551615 passed, 1 failed in 1s";
    let result = PytestRunner.run(&mut MockProcessRunner::failing(out), &py_info(), &nothing()).result;
    assert_eq!(result.metrics.tests_run, u64::MAX);
    assert_eq!(result.metrics.failed, 1);
}

#[test]
fn hypothesis_is_seen_in_python_sources() {
    assert!(has_hypothesis(&files_at("/tmp", &[("tests/test_a.py", "from hypothesis import given")])));
    assert!(!has_hypothesis(&files_at("/tmp", &[("notes.md", "from hypothesis import given")])));
}
