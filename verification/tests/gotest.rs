use barzel::data::parse_json;
use barzel::detect::{Language, ProjectFrameworks, ProjectInfo};
use barzel::plugin::{Layer, TestRunner};
use barzel::process::{MockProcessRunner, ProcessOutput, RunFailure, SubprocessRunner};
use barzel::report::{LayerStatus, Severity};
use barzel::runners::gotest::{count_go_events, parse_go_json_output, report_go_test, GoTestRunner};

fn info(language: Language, root: &str) -> ProjectInfo {
    ProjectInfo {
        language,
        root: root.to_string(),
        has_tests: true,
        package_name: None,
        frameworks: ProjectFrameworks::default(),
        workspace_root: None,
    }
}

struct BrokenProc;

impl SubprocessRunner for BrokenProc {
    fn run(&mut self, _: &str, _: &Vec<String>, _: &str) -> Result<ProcessOutput, String> {
        Err("not found".to_string())
    }

    fn run_timed(
        &mut self,
        _: &str,
        _: &Vec<String>,
        _: &str,
        _: u64,
    ) -> Result<ProcessOutput, RunFailure> {
        Err(RunFailure { timed_out: false, text: "not found".to_string() })
    }
}

fn go_info() -> ProjectInfo {
    info(Language::Go, "/tmp")
}

#[test]
fn name_is_go_test() {
    assert_eq!(GoTestRunner::default().name(), "go-test");
}

#[test]
fn gotest_layer_is_logic() {
    assert!(matches!(GoTestRunner::default().layer(), Layer::Logic));
}

#[test]
fn gotest_skip_message_nonempty() {
    assert!(!GoTestRunner::default().skip_message().is_empty());
}

#[test]
fn gotest_not_available_for_rust() {
    let mut proc = MockProcessRunner::passing("");
    assert!(!GoTestRunner.is_available(&mut proc, &info(Language::Rust, "/tmp")));
}

#[test]
fn gotest_not_available_for_typescript() {
    let mut proc = MockProcessRunner::passing("");
    assert!(!GoTestRunner.is_available(&mut proc, &info(Language::TypeScript, "/tmp")));
}

#[test]
fn available_when_go_present() {
    let mut proc = MockProcessRunner::passing("go version go1.22");
    assert!(GoTestRunner.is_available(&mut proc, &go_info()));
}

#[test]
fn not_available_when_go_missing() {
    assert!(!GoTestRunner.is_available(&mut MockProcessRunner::unavailable(), &go_info()));
}

#[test]
fn run_returns_pass_on_all_passing() {
    let stdout = r#"{"Action":"pass","Test":"TestFoo","Package":"pkg"}
{"Action":"pass","Test":"TestBar","Package":"pkg"}"#;
    let result = GoTestRunner.run(&mut MockProcessRunner::passing(stdout), &go_info());
    assert!(matches!(result.status, LayerStatus::Pass));
    assert_eq!(result.metrics.passed, 2);
    assert_eq!(result.metrics.failed, 0);
}

#[test]
fn gotest_run_returns_fail_on_test_failure() {
    let stdout = r#"{"Action":"pass","Test":"TestFoo","Package":"pkg"}
{"Action":"fail","Test":"TestBar","Package":"pkg"}"#;
    let result = GoTestRunner.run(&mut MockProcessRunner::failing(stdout), &go_info());
    assert!(matches!(result.status, LayerStatus::Fail));
    assert_eq!(result.findings[0].severity, Severity::High);
}

#[test]
fn gotest_run_returns_fail_on_subprocess_error() {
    let result = GoTestRunner.run(&mut BrokenProc, &go_info());
    assert!(matches!(result.status, LayerStatus::Fail));
    assert_eq!(result.findings[0].severity, Severity::Critical);
}

fn make_event(action: &str, test: Option<&str>) -> String {
    if let Some(t) = test {
        format!(r#"{{"Action":"{}","Test":"{}","Package":"example.com/pkg"}}"#, action, t)
    } else {
        format!(r#"{{"Action":"{}","Package":"example.com/pkg"}}"#, action)
    }
}

#[test]
fn counts_pass_and_fail_events() {
    let output = [
        make_event("pass", Some("TestFoo")),
        make_event("pass", Some("TestBar")),
        make_event("fail", Some("TestBaz")),
    ]
    .join("\n");
    let (passed, failed, panics) = parse_go_json_output(&output);
    assert_eq!(passed, 2);
    assert_eq!(failed, 1);
    assert!(panics.is_empty());
}

#[test]
fn ignores_package_level_events() {
    let output = [make_event("pass", Some("TestFoo")), make_event("pass", None)].join("\n");
    let (passed, failed, _) = parse_go_json_output(&output);
    assert_eq!(passed, 1);
    assert_eq!(failed, 0);
}

#[test]
fn detects_panic_in_fail_event() {
    let event =
        r#"{"Action":"fail","Test":"TestPanic","Package":"pkg","Output":"panic: nil pointer"}"#;
    let (_, failed, panics) = parse_go_json_output(event);
    assert_eq!(failed, 1);
    assert_eq!(panics.len(), 1);
    assert!(panics[0].contains("panic"));
}

#[test]
fn gotest_empty_output_returns_zeros() {
    let (passed, failed, panics) = parse_go_json_output("");
    assert_eq!(passed, 0);
    assert_eq!(failed, 0);
    assert!(panics.is_empty());
}

#[test]
fn ignores_non_json_lines() {
    let output = "not json\n{\"Action\":\"pass\",\"Test\":\"TestFoo\",\"Package\":\"p\"}";
    let (passed, _, _) = parse_go_json_output(output);
    assert_eq!(passed, 1);
}

#[test]
fn parse_go_json_never_panics() {
    for s in ["", "{", "{}", "[1,2", "{\"Action\":1}", "\u{1F600}"] {
        let _ = parse_go_json_output(s);
    }
}

#[test]
fn go_results_add_up() {
    let events: Vec<_> = [
        make_event("pass", Some("A")),
        make_event("fail", Some("B")),
        make_event("run", Some("C")),
        make_event("fail", None),
    ]
    .iter()
    .map(|e| parse_json(e).unwrap())
    .collect();
    let (passed, failed, panics) = count_go_events(&events);
    assert!(passed + failed <= events.len() as u64);
    assert!(panics.len() as u64 <= failed);
}

#[test]
fn go_run_without_tests_is_skipped_or_noted() {
    let out = ProcessOutput { success: true, stdout: String::new(), stderr: String::new() };
    let result = report_go_test(&Ok(out), 4);
    assert_eq!(result.duration_ms, 4);
    assert_eq!(result.metrics.tests_run, 0);
}
