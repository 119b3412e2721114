use barzel::detect::{Language, ProjectFrameworks, ProjectInfo};
use barzel::files::{Entry, Files};
use barzel::plugin::{Layer, TestRunner};
use barzel::process::MockProcessRunner;
use barzel::report::LayerStatus;
use barzel::runners::playwright::{parse_playwright_output, report_counts, PlaywrightRunner};

fn info(language: Language, root: &str) -> ProjectInfo {
    ProjectInfo {
        language,
        root: root.to_string(),
        has_tests: true,
        package_name: None,
        frameworks: ProjectFrameworks::default(),
        workspace_root: None,
    }
}

/// The files of a project at `root`, with the directories they stand in.
fn files_at(root: &str, texts: &[(&str, &str)]) -> Files {
    let mut entries = vec![Entry {
        path: String::new(),
        dir: true,
        absolute: root.to_string(),
        text: None,
    }];
    for (path, text) in texts {
        let parts: Vec<&str> = path.split('/').collect();
        for n in 1..parts.len() {
            let parent = parts[..n].join("/");
            if !entries.iter().any(|e| e.path == parent) {
                entries.push(Entry {
                    absolute: format!("{root}/{parent}"),
                    path: parent,
                    dir: true,
                    text: None,
                });
            }
        }
        if !path.ends_with('/') {
            entries.push(Entry {
                path: path.to_string(),
                dir: false,
                absolute: format!("{root}/{path}"),
                text: Some(text.to_string()),
            });
        }
    }
    Files { entries }
}

fn nextjs_info(root: &str) -> ProjectInfo {
    ProjectInfo {
        language: Language::TypeScript,
        root: root.to_string(),
        has_tests: true,
        package_name: Some("my-app".to_string()),
        frameworks: ProjectFrameworks {
            is_nextjs: true,
            has_ai_deps: false,
            ai_frameworks: vec![],
        },
        workspace_root: None,
    }
}

#[test]
fn name_is_playwright() {
    assert_eq!(PlaywrightRunner::default().name(), "playwright");
}

#[test]
fn playwright_layer_is_operational() {
    assert!(matches!(PlaywrightRunner::default().layer(), Layer::Operational));
}

#[test]
fn not_available_without_config_file() {
    assert!(!PlaywrightRunner.is_available(&nextjs_info("/tmp"), &files_at("/tmp", &[])));
}

#[test]
fn available_with_ts_config() {
    let files = files_at("/tmp", &[("playwright.config.ts", "export default {};")]);
    assert!(PlaywrightRunner.is_available(&nextjs_info("/tmp"), &files));
}

#[test]
fn available_with_js_config() {
    let files = files_at("/tmp", &[("playwright.config.js", "module.exports = {};")]);
    assert!(PlaywrightRunner.is_available(&nextjs_info("/tmp"), &files));
}

#[test]
fn playwright_not_available_for_rust() {
    let files = files_at("/tmp", &[("playwright.config.ts", "")]);
    assert!(!PlaywrightRunner.is_available(&info(Language::Rust, "/tmp"), &files));
}

#[test]
fn playwright_run_pass_returns_pass() {
    let json = r#"{"stats":{"expected":10,"unexpected":0}}"#;
    let result = PlaywrightRunner.run(&mut MockProcessRunner::passing(json), &nextjs_info("/tmp"));
    assert!(matches!(result.status, LayerStatus::Pass));
    assert_eq!(result.metrics.passed, 10);
    assert_eq!(result.metrics.failed, 0);
    assert!(result.findings.is_empty());
}

#[test]
fn run_fail_returns_fail_with_finding() {
    let json = r#"{"stats":{"expected":8,"unexpected":2}}"#;
    let result = PlaywrightRunner.run(&mut MockProcessRunner::failing(json), &nextjs_info("/tmp"));
    assert!(matches!(result.status, LayerStatus::Fail));
    assert_eq!(result.metrics.failed, 2);
    assert!(result.findings[0].message.contains("2 E2E"));
}

#[test]
fn parse_json_stats() {
    let json = r#"{"stats":{"expected":5,"unexpected":3}}"#;
    let (p, f) = parse_playwright_output(json);
    assert_eq!(p, 5);
    assert_eq!(f, 3);
}

#[test]
fn parse_text_fallback() {
    let (p, _f) = parse_playwright_output("10 passed (4s)");
    assert_eq!(p, 10);
}

#[test]
fn totals_of_end_to_end_tests_are_capped() {
    let result = report_counts(false, u64::MAX, 2, 1);
    assert_eq!(result.metrics.tests_run, u64::MAX);
    assert_eq!(result.metrics.failed, 2);
}
