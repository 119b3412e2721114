use barzel::detect::{Language, ProjectFrameworks, ProjectInfo};
use barzel::files::Files;
use barzel::plugin::{Layer, TestRunner};
use barzel::process::MockProcessRunner;
use barzel::report::{LayerStatus, Severity};
use barzel::runners::mypy::{parse_mypy_errors, MypyRunner};

fn info(language: Language, root: &str) -> ProjectInfo {
    ProjectInfo {
        language,
        root: root.to_string(),
        has_tests: true,
        package_name: None,
        frameworks: ProjectFrameworks::default(),
        workspace_root: None,
    }
}

fn no_files() -> Files {
    Files { entries: vec![] }
}

fn py_info() -> ProjectInfo {
    info(Language::Python, "/tmp")
}

#[test]
fn name_is_mypy() {
    assert_eq!(MypyRunner::default().name(), "mypy");
}

#[test]
fn mypy_layer_is_logic() {
    assert!(matches!(MypyRunner::default().layer(), Layer::Logic));
}

#[test]
fn mypy_not_available_for_rust() {
    let mut proc = MockProcessRunner::passing("");
    assert!(!MypyRunner.is_available(&mut proc, &info(Language::Rust, "/tmp"), &no_files()));
}

#[test]
fn available_when_mypy_installed() {
    let mut proc = MockProcessRunner::passing("mypy 1.8.0");
    assert!(MypyRunner.is_available(&mut proc, &py_info(), &no_files()));
}

#[test]
fn not_available_when_mypy_missing() {
    assert!(!MypyRunner.is_available(&mut MockProcessRunner::unavailable(), &py_info(), &no_files()));
}

#[test]
fn mypy_run_pass_returns_pass() {
    let mut proc = MockProcessRunner::passing("Success: no issues found in 5 source files");
    let result = MypyRunner.run(&mut proc, &py_info(), &no_files());
    assert!(matches!(result.status, LayerStatus::Pass));
    assert!(result.findings.is_empty());
}

#[test]
fn run_fail_parses_type_errors() {
    let output = "app/main.py:42: error: Argument 1 to \"get_user\" has incompatible type \"str\"; expected \"int\" [arg-type]";
    let result = MypyRunner.run(&mut MockProcessRunner::failing(output), &py_info(), &no_files());
    assert!(matches!(result.status, LayerStatus::Fail));
    assert!(!result.findings.is_empty());
    assert_eq!(result.findings[0].severity, Severity::High);
    assert!(result.findings[0].location.as_ref().unwrap().contains("app/main.py:42"));
    assert!(result.findings[0].code.contains("ARG_TYPE"));
}

#[test]
fn run_truncates_to_10_errors() {
    let lines: String = (1..=15)
        .map(|i| format!("src/f.py:{i}: error: Type error {i} [assignment]\n"))
        .collect();
    let result = MypyRunner.run(&mut MockProcessRunner::failing(&lines), &py_info(), &no_files());
    let type_errors: Vec<_> =
        result.findings.iter().filter(|f| f.code.starts_with("MYPY_")).collect();
    assert!(type_errors.len() <= 11);
}

#[test]
fn parse_error_with_rule_code() {
    let errors = parse_mypy_errors("app.py:10: error: Item \"None\" of \"Optional[str]\" has no attribute \"upper\" [union-attr]");
    assert_eq!(errors.len(), 1);
    assert_eq!(errors[0].0, "app.py:10");
    assert!(errors[0].1.contains("UNION_ATTR"));
    assert!(errors[0].2.contains("upper"));
}

#[test]
fn parse_skips_non_error_lines() {
    let errors = parse_mypy_errors("Found 2 errors in 1 file (checked 5 source files)");
    assert!(errors.is_empty());
}

#[test]
fn mypy_parse_never_panics() {
    for s in ["", ": error: ", "a: error: ] [", "a: error: é[é]", ": error:"] {
        let _ = parse_mypy_errors(s);
    }
}

#[test]
fn brackets_out_of_order_give_no_rule() {
    let errors = parse_mypy_errors("a.py:1: error: odd ] text [");
    assert_eq!(errors.len(), 1);
    assert_eq!(errors[0].1, "MYPY_ERROR");
    assert_eq!(errors[0].2, "odd ] text [");
}
