use barzel::detect::{Language, ProjectFrameworks, ProjectInfo};
use barzel::files::{Entry, Files};
use barzel::plugin::{Layer, TestRunner};
use barzel::process::{MockProcessRunner, ProcessOutput, RunFailure, SubprocessRunner};
use barzel::report::{LayerStatus, Severity};
use barzel::runners::npm_audit::{audit_reproduce_cmd, parse_npm_audit_json, NpmAuditRunner};

fn info(language: Language, root: &str) -> ProjectInfo {
    ProjectInfo {
        language,
        root: root.to_string(),
        has_tests: true,
        package_name: None,
        frameworks: ProjectFrameworks::default(),
        workspace_root: None,
    }
}

/// The files of a project at `root`, with the directories they stand in.
fn files_at(root: &str, texts: &[(&str, &str)]) -> Files {
    let mut entries = vec![Entry {
        path: String::new(),
        dir: true,
        absolute: root.to_string(),
        text: None,
    }];
    for (path, text) in texts {
        let parts: Vec<&str> = path.split('/').collect();
        for n in 1..parts.len() {
            let parent = parts[..n].join("/");
            if !entries.iter().any(|e| e.path == parent) {
                entries.push(Entry {
                    absolute: format!("{root}/{parent}"),
                    path: parent,
                    dir: true,
                    text: None,
                });
            }
        }
        if !path.ends_with('/') {
            entries.push(Entry {
                path: path.to_string(),
                dir: false,
                absolute: format!("{root}/{path}"),
                text: Some(text.to_string()),
            });
        }
    }
    Files { entries }
}

struct BrokenProc;

impl SubprocessRunner for BrokenProc {
    fn run(&mut self, _: &str, _: &Vec<String>, _: &str) -> Result<ProcessOutput, String> {
        Err("not found".to_string())
    }

    fn run_timed(
        &mut self,
        _: &str,
        _: &Vec<String>,
        _: &str,
        _: u64,
    ) -> Result<ProcessOutput, RunFailure> {
        Err(RunFailure { timed_out: false, text: "not found".to_string() })
    }
}

/// Answers every call alike and keeps the commands.
struct Recorder {
    answer: MockProcessRunner,
    asked: Vec<(String, Vec<String>, String)>,
}

impl Recorder {
    fn new(answer: MockProcessRunner) -> Self {
        Recorder { answer, asked: vec![] }
    }
}

impl SubprocessRunner for Recorder {
    fn run(&mut self, cmd: &str, args: &Vec<String>, cwd: &str) -> Result<ProcessOutput, String> {
        self.asked.push((cmd.to_string(), args.clone(), cwd.to_string()));
        self.answer.run(cmd, args, cwd)
    }

    fn run_timed(
        &mut self,
        cmd: &str,
        args: &Vec<String>,
        cwd: &str,
        timeout_ms: u64,
    ) -> Result<ProcessOutput, RunFailure> {
        self.asked.push((cmd.to_string(), args.clone(), cwd.to_string()));
        self.answer.run_timed(cmd, args, cwd, timeout_ms)
    }
}

fn ts_info(root: &str) -> ProjectInfo {
    ProjectInfo { package_name: Some("my-app".to_string()), ..info(Language::TypeScript, root) }
}

fn member(root: &str, workspace: &str) -> ProjectInfo {
    ProjectInfo { workspace_root: Some(workspace.to_string()), ..ts_info(root) }
}

fn nothing_at(root: &str) -> Files {
    files_at(root, &[])
}

fn npm_dir() -> Files {
    files_at("/tmp", &[("package-lock.json", "{}")])
}

#[test]
fn name_is_npm_audit() {
    assert_eq!(NpmAuditRunner::default().name(), "npm-audit");
}

#[test]
fn npm_audit_layer_is_hostile() {
    assert!(matches!(NpmAuditRunner::default().layer(), Layer::Hostile));
}

#[test]
fn npm_audit_not_available_for_rust() {
    let rust = info(Language::Rust, "/tmp");
    assert!(!NpmAuditRunner.is_available(&rust, &nothing_at("/tmp"), &nothing_at("/tmp")));
}

#[test]
fn not_available_without_lockfile() {
    let files = files_at("/tmp", &[("package.json", "{}")]);
    assert!(!NpmAuditRunner.is_available(&ts_info("/tmp"), &files, &nothing_at("/tmp")));
}

#[test]
fn available_with_package_lock() {
    assert!(NpmAuditRunner.is_available(&ts_info("/tmp"), &npm_dir(), &nothing_at("/tmp")));
}

#[test]
fn available_with_pnpm_lock() {
    let files = files_at("/tmp", &[("pnpm-lock.yaml", "lockfileVersion: '6.0'")]);
    assert!(NpmAuditRunner.is_available(&ts_info("/tmp"), &files, &nothing_at("/tmp")));
}

#[test]
fn npm_audit_clean_project_returns_pass() {
    let json = r#"{"vulnerabilities":{},"metadata":{"vulnerabilities":{"total":0}}}"#;
    let mut proc = MockProcessRunner::passing(json);
    let result = NpmAuditRunner.run(&mut proc, &ts_info("/tmp"), &npm_dir(), &nothing_at("/tmp"));
    assert!(matches!(result.status, LayerStatus::Pass));
    assert!(result.findings.iter().any(|f| f.code == "NPM_AUDIT_PASSED"));
}

#[test]
fn critical_vulnerability_returns_fail() {
    let json = r#"{"vulnerabilities":{"lodash":{"severity":"critical","fixAvailable":true}}}"#;
    let mut proc = MockProcessRunner::failing(json);
    let result = NpmAuditRunner.run(&mut proc, &ts_info("/tmp"), &npm_dir(), &nothing_at("/tmp"));
    assert!(matches!(result.status, LayerStatus::Fail));
    assert_eq!(result.findings[0].severity, Severity::Critical);
    assert!(result.findings[0].reproduce_cmd.is_some());
}

#[test]
fn high_severity_returns_partial() {
    let json = r#"{"vulnerabilities":{"axios":{"severity":"high","fixAvailable":false}}}"#;
    let mut proc = MockProcessRunner::failing(json);
    let result = NpmAuditRunner.run(&mut proc, &ts_info("/tmp"), &npm_dir(), &nothing_at("/tmp"));
    assert!(matches!(result.status, LayerStatus::Partial));
}

#[test]
fn available_with_workspace_root_pnpm_lock() {
    let ws = files_at("/ws", &[("pnpm-lock.yaml", "lockfileVersion: '6.0'")]);
    assert!(
        NpmAuditRunner.is_available(&member("/pkg", "/ws"), &nothing_at("/pkg"), &ws),
        "should be available when lockfile is at workspace root"
    );
}

#[test]
fn not_available_without_lockfile_even_with_workspace_root() {
    assert!(
        !NpmAuditRunner.is_available(&member("/pkg", "/ws"), &nothing_at("/pkg"), &nothing_at("/ws")),
        "should not be available when neither package root nor workspace root has a lockfile"
    );
}

#[test]
fn run_uses_workspace_root_as_cwd_and_selects_pnpm() {
    let ws = files_at("/ws", &[("pnpm-lock.yaml", "lockfileVersion: '6.0'")]);
    let mut recorder = Recorder::new(MockProcessRunner::passing(r#"{"vulnerabilities":{}}"#));
    let result = NpmAuditRunner.run(&mut recorder, &member("/pkg", "/ws"), &nothing_at("/pkg"), &ws);
    assert!(matches!(result.status, LayerStatus::Pass));
    let asked = &recorder.asked;
    let (cmd, args, cwd) = asked.last().unwrap();
    assert_eq!(cmd, "pnpm", "must select pnpm when pnpm-lock.yaml is at workspace root");
    assert_eq!(args, &["audit", "--json"]);
    assert_eq!(cwd, "/ws", "cwd must be workspace root where pnpm-lock.yaml lives");
}

#[test]
fn reproduce_cmd_uses_selected_package_manager_and_cwd() {
    let files = files_at("/app/root", &[("pnpm-lock.yaml", "lockfileVersion: '6.0'")]);
    let json = r#"{"vulnerabilities":{"lodash":{"severity":"high","fixAvailable":false}}}"#;
    let mut proc = MockProcessRunner::passing(json);
    let result = NpmAuditRunner.run(&mut proc, &ts_info("/app/root"), &files, &nothing_at("/app/root"));
    let rc = result.findings[0].reproduce_cmd.as_deref().unwrap_or("");
    assert!(rc.contains("pnpm"), "reproduce_cmd must name pnpm, got: {rc}");
    assert!(rc.contains("/app/root"), "reproduce_cmd must include cwd");
}

#[test]
fn spawn_error_finding_names_selected_cmd() {
    let files = files_at("/tmp", &[("yarn.lock", "")]);
    let result = NpmAuditRunner.run(&mut BrokenProc, &ts_info("/tmp"), &files, &nothing_at("/tmp"));
    let finding = &result.findings[0];
    assert!(finding.message.contains("yarn"), "error message must name yarn");
    let rc = finding.reproduce_cmd.as_deref().unwrap_or("");
    assert!(rc.contains("yarn"), "reproduce_cmd must name yarn on spawn error");
}

#[test]
fn parse_extracts_vulnerability_severity() {
    let json = r#"{"vulnerabilities":{"express":{"severity":"moderate","fixAvailable":true}}}"#;
    let findings = parse_npm_audit_json(json);
    assert_eq!(findings.len(), 1);
    assert!(matches!(findings[0].severity, Severity::Medium));
    assert!(findings[0].suggestion.as_ref().unwrap().contains("audit fix"));
}

#[test]
fn parser_findings_always_have_reproduce_cmd() {
    let json = r#"{"vulnerabilities":{"lodash":{"severity":"high","fixAvailable":false},"axios":{"severity":"critical","fixAvailable":true}}}"#;
    let findings = parse_npm_audit_json(json);
    assert!(!findings.is_empty());
    for f in &findings {
        assert!(f.reproduce_cmd.is_some(), "parser finding '{}' must have reproduce_cmd", f.code);
    }
}

#[test]
fn reproduce_cmd_shell_quotes_path_with_spaces() {
    let files = files_at("/tmp/my project", &[("package-lock.json", "{}")]);
    let json = r#"{"vulnerabilities":{"lodash":{"severity":"high","fixAvailable":false}}}"#;
    let mut proc = MockProcessRunner::passing(json);
    let project = ts_info("/tmp/my project");
    let result = NpmAuditRunner.run(&mut proc, &project, &files, &nothing_at("/tmp/my project"));
    let rc = result.findings[0].reproduce_cmd.as_deref().unwrap_or("");
    assert!(rc.contains("'"), "path with spaces must be single-quoted in reproduce_cmd, got: {rc}");
    assert!(!rc.contains("my project "), "unquoted path must not appear in reproduce_cmd");
}

#[test]
fn spawn_error_reproduce_cmd_quotes_path_with_spaces() {
    let files = files_at("/tmp/my workspace", &[("yarn.lock", "")]);
    let project = ts_info("/tmp/my workspace");
    let result = NpmAuditRunner.run(&mut BrokenProc, &project, &files, &nothing_at("/tmp/my workspace"));
    let rc = result.findings[0].reproduce_cmd.as_deref().unwrap_or("");
    assert!(
        rc.contains("'"),
        "spawn-error reproduce_cmd must shell-quote path with spaces, got: {rc}"
    );
}

#[test]
fn passed_audits_are_not_piped_through_a_filter() {
    let cmd = audit_reproduce_cmd("npm", "/a b", "NPM_AUDIT_PASSED");
    assert!(cmd.starts_with("cd '/a b' && npm audit"));
}
