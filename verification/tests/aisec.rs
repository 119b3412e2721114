use barzel::detect::{Language, ProjectFrameworks, ProjectInfo};
use barzel::files::{Entry, Files};
use barzel::plugin::{Layer, TestRunner};
use barzel::process::MockProcessRunner;
use barzel::report::{LayerStatus, Severity};
use barzel::runners::aisec::{parse_semgrep_for_ai, report_scan, scan_source_patterns, AiSecRunner};
use barzel::runners::pytest::parse_pytest_output;

/// The files of a project at `root`, with the directories they stand in.
fn files_at(root: &str, texts: &[(&str, &str)]) -> Files {
    let mut entries = vec![Entry {
        path: String::new(),
        dir: true,
        absolute: root.to_string(),
        text: None,
    }];
    for (path, text) in texts {
        let parts: Vec<&str> = path.split('/').collect();
        for n in 1..parts.len() {
            let parent = parts[..n].join("/");
            if !entries.iter().any(|e| e.path == parent) {
                entries.push(Entry {
                    absolute: format!("{root}/{parent}"),
                    path: parent,
                    dir: true,
                    text: None,
                });
            }
        }
        if !path.ends_with('/') {
            entries.push(Entry {
                path: path.to_string(),
                dir: false,
                absolute: format!("{root}/{path}"),
                text: Some(text.to_string()),
            });
        }
    }
    Files { entries }
}

fn ai_project() -> ProjectInfo {
    ProjectInfo {
        language: Language::Python,
        root: "/tmp".to_string(),
        has_tests: true,
        package_name: Some("my-ai-app".to_string()),
        frameworks: ProjectFrameworks {
            is_nextjs: false,
            has_ai_deps: true,
            ai_frameworks: vec!["OpenAI SDK".to_string()],
        },
        workspace_root: None,
    }
}

fn no_ai_project() -> ProjectInfo {
    ProjectInfo {
        language: Language::Python,
        root: "/tmp".to_string(),
        has_tests: true,
        package_name: None,
        frameworks: ProjectFrameworks::default(),
        workspace_root: None,
    }
}

#[test]
fn name_is_ai_sec() {
    assert_eq!(AiSecRunner::default().name(), "ai-sec");
}

#[test]
fn aisec_layer_is_hostile() {
    assert!(matches!(AiSecRunner::default().layer(), Layer::Hostile));
}

#[test]
fn not_available_without_ai_deps() {
    assert!(!AiSecRunner::default().is_available(&no_ai_project()));
}

#[test]
fn available_with_ai_deps() {
    assert!(AiSecRunner::default().is_available(&ai_project()));
}

#[test]
fn detects_hardcoded_api_key_in_python_file() {
    let files = files_at("/tmp", &[("app.py", "api_key = \"sk-1234567890abcdef\"")]);
    let result = AiSecRunner.run(&mut MockProcessRunner::unavailable(), &ai_project(), &files);
    assert!(result.findings.iter().any(|f| f.code == "HARDCODED_API_KEY"));
    let finding = result.findings.iter().find(|f| f.code == "HARDCODED_API_KEY").unwrap();
    assert_eq!(finding.severity, Severity::Critical);
    assert!(finding.location.is_some());
}

#[test]
fn detects_eval_in_python() {
    let files = files_at("/tmp", &[("agent.py", "result = eval(llm_response)")]);
    let result = AiSecRunner.run(&mut MockProcessRunner::unavailable(), &ai_project(), &files);
    assert!(result.findings.iter().any(|f| f.code == "EVAL_LLM_OUTPUT"));
}

#[test]
fn skips_commented_lines() {
    let files = files_at("/tmp", &[("test.py", "# api_key = \"sk-example\"\nlegit = 1")]);
    let result = AiSecRunner.run(&mut MockProcessRunner::unavailable(), &ai_project(), &files);
    assert!(!result.findings.iter().any(|f| f.code == "HARDCODED_API_KEY"));
}

#[test]
fn clean_project_returns_info_finding() {
    let files = files_at("/tmp", &[("app.py", "client = openai.OpenAI()\n")]);
    let result = AiSecRunner.run(&mut MockProcessRunner::unavailable(), &ai_project(), &files);
    assert!(result.findings.iter().any(|f| f.code == "AI_SEC_PASSED"));
    assert!(matches!(result.status, LayerStatus::Pass));
}

#[test]
fn parse_pytest_output_parses_passed() {
    let (p, f, e) = parse_pytest_output("5 passed in 0.45s");
    assert_eq!(p, 5);
    assert_eq!(f, 0);
    assert_eq!(e, 0);
}

#[test]
fn semgrep_findings_have_reproduce_cmd() {
    let stdout = r#"{
            "results": [{
                "check_id": "python.secrets.hardcoded-api-key",
                "path": "src/app.py",
                "start": {"line": 10},
                "extra": {
                    "severity": "ERROR",
                    "message": "Hardcoded API key detected"
                }
            }]
        }"#;
    let findings = parse_semgrep_for_ai(stdout);
    assert_eq!(findings.len(), 1);
    assert!(findings[0].reproduce_cmd.is_some(), "semgrep finding must have reproduce_cmd");
    let cmd = findings[0].reproduce_cmd.as_ref().unwrap();
    assert!(cmd.contains("python.secrets.hardcoded-api-key"));
    assert!(cmd.contains("src/app.py"));
}

#[test]
fn source_findings_name_file_and_line() {
    let files = files_at("/app", &[("src/llm.py", "import x\nresult = exec(answer)")]);
    let findings = scan_source_patterns(&files, "/app");
    let found = findings.iter().find(|f| f.code == "EXEC_LLM_OUTPUT").unwrap();
    assert_eq!(found.location.as_deref(), Some("/app/src/llm.py:2"));
}

#[test]
fn repository_and_vendored_files_are_not_scanned() {
    let files = files_at(
        "/app",
        &[(".git/a.py", "eval(x)"), ("node_modules/m/a.py", "eval(x)")],
    );
    assert!(scan_source_patterns(&files, "/app").is_empty());
}

#[test]
fn ai_scan_without_findings_names_the_frameworks() {
    let result = report_scan(&ai_project(), vec![], vec![], 7);
    assert_eq!(result.duration_ms, 7);
    assert_eq!(result.findings.len(), 1);
    assert!(result.findings[0].message.contains("OpenAI SDK"));
}
