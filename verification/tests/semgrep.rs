use barzel::detect::{Language, ProjectFrameworks, ProjectInfo};
use barzel::files::{Entry, Files};
use barzel::plugin::{Layer, TestRunner};
use barzel::process::{MockProcessRunner, ProcessOutput, RunFailure, SubprocessRunner};
use barzel::report::{LayerStatus, Severity};
use barzel::runners::operational_command::shell_quote;
use barzel::runners::semgrep::{
    build_error_reproduce_cmd, build_semgrep_args, collect_all_custom_rule_paths,
    collect_custom_rule_paths, map_semgrep_severity, parse_semgrep_json, SemgrepRunner,
};

fn info(language: Language, root: &str) -> ProjectInfo {
    ProjectInfo {
        language,
        root: root.to_string(),
        has_tests: true,
        package_name: None,
        frameworks: ProjectFrameworks::default(),
        workspace_root: None,
    }
}

/// The files of a project at `root`, with the directories they stand in.
fn files_at(root: &str, texts: &[(&str, &str)]) -> Files {
    let mut entries = vec![Entry {
        path: String::new(),
        dir: true,
        absolute: root.to_string(),
        text: None,
    }];
    for (path, text) in texts {
        let parts: Vec<&str> = path.split('/').collect();
        for n in 1..parts.len() {
            let parent = parts[..n].join("/");
            if !entries.iter().any(|e| e.path == parent) {
                entries.push(Entry {
                    absolute: format!("{root}/{parent}"),
                    path: parent,
                    dir: true,
                    text: None,
                });
            }
        }
        if !path.ends_with('/') {
            entries.push(Entry {
                path: path.to_string(),
                dir: false,
                absolute: format!("{root}/{path}"),
                text: Some(text.to_string()),
            });
        }
    }
    Files { entries }
}

struct BrokenProc;

impl SubprocessRunner for BrokenProc {
    fn run(&mut self, _: &str, _: &Vec<String>, _: &str) -> Result<ProcessOutput, String> {
        Err("not found".to_string())
    }

    fn run_timed(
        &mut self,
        _: &str,
        _: &Vec<String>,
        _: &str,
        _: u64,
    ) -> Result<ProcessOutput, RunFailure> {
        Err(RunFailure { timed_out: false, text: "not found".to_string() })
    }
}

/// Answers every call alike and keeps the commands.
struct Recorder {
    answer: MockProcessRunner,
    asked: Vec<(String, Vec<String>, String)>,
}

impl Recorder {
    fn new(answer: MockProcessRunner) -> Self {
        Recorder { answer, asked: vec![] }
    }
}

impl SubprocessRunner for Recorder {
    fn run(&mut self, cmd: &str, args: &Vec<String>, cwd: &str) -> Result<ProcessOutput, String> {
        self.asked.push((cmd.to_string(), args.clone(), cwd.to_string()));
        self.answer.run(cmd, args, cwd)
    }

    fn run_timed(
        &mut self,
        cmd: &str,
        args: &Vec<String>,
        cwd: &str,
        timeout_ms: u64,
    ) -> Result<ProcessOutput, RunFailure> {
        self.asked.push((cmd.to_string(), args.clone(), cwd.to_string()));
        self.answer.run_timed(cmd, args, cwd, timeout_ms)
    }
}

fn rust_info() -> ProjectInfo {
    info(Language::Rust, "/tmp")
}

fn info_at(root: &str) -> ProjectInfo {
    info(Language::Python, root)
}

fn nothing() -> Files {
    files_at("/tmp", &[])
}

#[test]
fn name_is_semgrep() {
    assert_eq!(SemgrepRunner::default().name(), "semgrep");
}

#[test]
fn semgrep_layer_is_hostile() {
    assert!(matches!(SemgrepRunner::default().layer(), Layer::Hostile));
}

#[test]
fn skip_message_mentions_semgrep() {
    assert!(SemgrepRunner::default().skip_message().contains("semgrep"));
}

#[test]
fn available_when_command_succeeds() {
    assert!(SemgrepRunner.is_available(&mut MockProcessRunner::passing("semgrep 1.0")));
}

#[test]
fn not_available_when_command_fails() {
    assert!(!SemgrepRunner.is_available(&mut MockProcessRunner::unavailable()));
}

#[test]
fn no_rules_dir_returns_empty() {
    assert!(collect_custom_rule_paths(&nothing(), "/tmp").is_empty());
}

#[test]
fn empty_rules_dir_returns_empty() {
    let files = files_at("/tmp", &[(".barzel/rules/", "")]);
    assert!(collect_custom_rule_paths(&files, "/tmp").is_empty());
}

#[test]
fn ignores_non_yaml_files() {
    let files = files_at(
        "/tmp",
        &[(".barzel/rules/notes.txt", "not a rule"), (".barzel/rules/README.md", "docs")],
    );
    assert!(collect_custom_rule_paths(&files, "/tmp").is_empty());
}

#[test]
fn ignores_directory_named_with_yaml_extension() {
    let files = files_at(
        "/tmp",
        &[(".barzel/rules/ignored.yaml/", ""), (".barzel/rules/real.yml", "rules:")],
    );
    let paths = collect_custom_rule_paths(&files, "/tmp");
    assert_eq!(paths.len(), 1);
    assert!(paths[0].path.ends_with("/real.yml"));
}

#[test]
fn collects_yml_and_yaml_files_sorted() {
    let files = files_at(
        "/tmp",
        &[
            (".barzel/rules/z-rules.yaml", "rules:"),
            (".barzel/rules/a-rules.yml", "rules:"),
            (".barzel/rules/m-rules.yaml", "rules:"),
            (".barzel/rules/skip.txt", "ignored"),
        ],
    );
    let paths = collect_custom_rule_paths(&files, "/tmp");
    assert_eq!(paths.len(), 3);
    let names: Vec<&str> = paths.iter().map(|p| p.path.rsplit('/').next().unwrap()).collect();
    assert_eq!(names, ["a-rules.yml", "m-rules.yaml", "z-rules.yaml"]);
}

#[test]
fn shell_quote_wraps_in_single_quotes() {
    assert_eq!(shell_quote("p/python"), "'p/python'");
}

#[test]
fn shell_quote_handles_paths_with_spaces() {
    assert_eq!(shell_quote("/my rules/custom.yml"), "'/my rules/custom.yml'");
}

#[test]
fn shell_quote_escapes_embedded_single_quotes() {
    assert_eq!(shell_quote("it's"), "'it'\\''s'");
}

#[test]
fn reproduce_cmd_with_spaces_in_rule_path_is_quoted() {
    let json = r#"{"results":[{
            "check_id": "my-rule",
            "path": "src/my file.py",
            "start": {"line": 1},
            "extra": {"severity": "ERROR", "message": "issue"}
        }]}"#;
    let configs = vec!["p/python".to_string(), "/project/my rules/custom.yml".to_string()];
    let findings = parse_semgrep_json(json, &configs);
    let cmd = findings[0].reproduce_cmd.as_deref().unwrap();
    assert!(cmd.contains("'p/python'"), "ruleset must be quoted");
    assert!(cmd.contains("'/project/my rules/custom.yml'"), "rule path with space must be quoted");
    assert!(cmd.contains("'src/my file.py'"), "file path with space must be quoted");
}

#[test]
fn error_reproduce_cmd_with_spaces_is_quoted() {
    let custom = vec!["/project/my rules/custom.yml".to_string()];
    let cmd = build_error_reproduce_cmd("p/python", &custom);
    assert!(cmd.contains("'p/python'"));
    assert!(cmd.contains("'/project/my rules/custom.yml'"));
}

#[test]
fn no_custom_rules_produces_standard_args() {
    let args = build_semgrep_args("p/python", &vec![]);
    assert_eq!(args, ["--json", "--quiet", "--config", "p/python", "."]);
}

#[test]
fn custom_rules_appended_after_language_ruleset() {
    let rules = vec![".barzel/rules/a.yml".to_string(), ".barzel/rules/b.yaml".to_string()];
    let args = build_semgrep_args("p/rust", &rules);
    assert_eq!(
        args,
        [
            "--json",
            "--quiet",
            "--config",
            "p/rust",
            "--config",
            ".barzel/rules/a.yml",
            "--config",
            ".barzel/rules/b.yaml",
            ".",
        ]
    );
}

#[test]
fn run_without_custom_rules_command_shape_unchanged() {
    let mut captured = Recorder::new(MockProcessRunner::passing(r#"{"results":[]}"#));
    SemgrepRunner.run(&mut captured, &info_at("/tmp"), &nothing(), &nothing());
    let calls = captured.asked;
    assert_eq!(calls.len(), 1);
    assert_eq!(calls[0].1, ["--json", "--quiet", "--config", "p/python", "."]);
}

#[test]
fn run_with_custom_rules_includes_each_rule_path() {
    let files = files_at(
        "/tmp",
        &[(".barzel/rules/a.yml", "rules:"), (".barzel/rules/b.yaml", "rules:")],
    );
    let mut captured = Recorder::new(MockProcessRunner::passing(r#"{"results":[]}"#));
    SemgrepRunner.run(&mut captured, &info_at("/tmp"), &files, &nothing());
    let calls = captured.asked;
    let args = &calls[0].1;
    assert_eq!(&args[..4], ["--json", "--quiet", "--config", "p/python"]);
    let configs: Vec<&str> =
        args.windows(2).filter(|w| w[0] == "--config").map(|w| w[1].as_str()).collect();
    assert!(configs.contains(&"p/python"));
    assert!(configs.iter().any(|c| c.ends_with("a.yml")));
    assert!(configs.iter().any(|c| c.ends_with("b.yaml")));
    assert_eq!(args.last().map(String::as_str), Some("."));
}

#[test]
fn error_reproduce_cmd_includes_all_configs() {
    let files = files_at("/tmp", &[(".barzel/rules/custom.yml", "rules:")]);
    let result = SemgrepRunner.run(&mut BrokenProc, &info_at("/tmp"), &files, &nothing());
    let cmd = result.findings[0].reproduce_cmd.as_deref().unwrap();
    assert!(cmd.contains("p/python"), "reproduce_cmd must include language ruleset");
    assert!(cmd.contains("custom.yml"), "reproduce_cmd must include custom rule path");
}

#[test]
fn run_returns_pass_with_no_findings() {
    let mut proc = MockProcessRunner::passing(r#"{"results":[]}"#);
    let result = SemgrepRunner.run(&mut proc, &rust_info(), &nothing(), &nothing());
    assert!(matches!(result.status, LayerStatus::Pass));
    assert!(result.findings.is_empty());
}

#[test]
fn run_returns_fail_on_critical_finding() {
    let json = r#"{"results":[{"check_id":"sqli","path":"src/db.rs","start":{"line":1},"extra":{"severity":"ERROR","message":"SQL injection"}}]}"#;
    let result =
        SemgrepRunner.run(&mut MockProcessRunner::passing(json), &rust_info(), &nothing(), &nothing());
    assert!(matches!(result.status, LayerStatus::Fail));
    assert_eq!(result.findings.len(), 1);
    assert!(matches!(result.findings[0].severity, Severity::Critical));
}

#[test]
fn semgrep_run_returns_fail_on_subprocess_error() {
    let result = SemgrepRunner.run(&mut BrokenProc, &rust_info(), &nothing(), &nothing());
    assert!(matches!(result.status, LayerStatus::Fail));
    assert_eq!(result.findings[0].severity, Severity::Critical);
}

#[test]
fn empty_json_returns_no_findings() {
    assert!(parse_semgrep_json("", &vec![]).is_empty());
    assert!(parse_semgrep_json("{}", &vec![]).is_empty());
    assert!(parse_semgrep_json(r#"{"results":[]}"#, &vec![]).is_empty());
}

#[test]
fn parses_single_finding() {
    let json = r#"{
            "results": [{
                "check_id": "rules.sqli",
                "path": "src/db.rs",
                "start": {"line": 42, "col": 1},
                "extra": {
                    "severity": "ERROR",
                    "message": "SQL injection risk"
                }
            }]
        }"#;
    let findings = parse_semgrep_json(json, &vec!["p/rust".to_string()]);
    assert_eq!(findings.len(), 1);
    assert!(matches!(findings[0].severity, Severity::Critical));
    assert_eq!(findings[0].code, "rules.sqli");
    assert!(findings[0].location.as_deref().unwrap().contains("src/db.rs"));
    assert!(findings[0].location.as_deref().unwrap().contains("42"));
}

#[test]
fn finding_reproduce_cmd_includes_all_configs() {
    let json = r#"{"results":[{
            "check_id": "my-rule",
            "path": "src/app.py",
            "start": {"line": 1},
            "extra": {"severity": "ERROR", "message": "issue"}
        }]}"#;
    let configs = vec!["p/python".to_string(), ".barzel/rules/custom.yml".to_string()];
    let findings = parse_semgrep_json(json, &configs);
    let cmd = findings[0].reproduce_cmd.as_deref().unwrap();
    assert!(cmd.contains("--config 'p/python'"));
    assert!(cmd.contains("--config '.barzel/rules/custom.yml'"));
    assert!(cmd.contains("--include 'src/app.py'"));
}

#[test]
fn maps_severity_correctly() {
    assert!(matches!(map_semgrep_severity("ERROR"), Severity::Critical));
    assert!(matches!(map_semgrep_severity("WARNING"), Severity::High));
    assert!(matches!(map_semgrep_severity("INFO"), Severity::Info));
    assert!(matches!(map_semgrep_severity("unknown"), Severity::Medium));
}

#[test]
fn severity_mapping_is_case_insensitive() {
    assert!(matches!(map_semgrep_severity("error"), Severity::Critical));
    assert!(matches!(map_semgrep_severity("warning"), Severity::High));
    assert!(matches!(map_semgrep_severity("info"), Severity::Info));
}

#[test]
fn workspace_rules_included_when_package_has_none() {
    let ws = files_at("/ws", &[(".barzel/rules/shared.yml", "rules:")]);
    let pkg = files_at("/ws/packages/api", &[]);
    let paths =
        collect_all_custom_rule_paths(&pkg, "/ws/packages/api", &ws, &Some("/ws".to_string()));
    assert_eq!(paths.len(), 1);
    assert!(paths[0].ends_with("shared.yml"));
}

#[test]
fn both_workspace_and_package_rules_included_in_order() {
    let ws = files_at("/ws", &[(".barzel/rules/ws-rule.yml", "rules:")]);
    let pkg = files_at("/ws/packages/api", &[(".barzel/rules/pkg-rule.yml", "rules:")]);
    let paths =
        collect_all_custom_rule_paths(&pkg, "/ws/packages/api", &ws, &Some("/ws".to_string()));
    assert_eq!(paths.len(), 2);
    assert!(paths[0].contains("ws-rule.yml"));
    assert!(paths[1].contains("pkg-rule.yml"));
}

#[test]
fn no_duplication_when_workspace_root_equals_project_root() {
    let files = files_at("/ws", &[(".barzel/rules/rule.yml", "rules:")]);
    let same = files_at("/ws", &[(".barzel/rules/rule.yml", "rules:")]);
    let paths = collect_all_custom_rule_paths(&files, "/ws", &same, &Some("/ws".to_string()));
    assert_eq!(paths.len(), 1, "rule must not be duplicated when workspace_root == project.root");
}

#[test]
fn run_includes_workspace_rules_for_package_with_none() {
    let ws = files_at("/ws", &[(".barzel/rules/shared.yml", "rules:")]);
    let mut project = info_at("/pkg");
    project.workspace_root = Some("/ws".to_string());
    let mut captured = Recorder::new(MockProcessRunner::passing(r#"{"results":[]}"#));
    SemgrepRunner.run(&mut captured, &project, &files_at("/pkg", &[]), &ws);
    let calls = captured.asked;
    assert!(
        calls[0].1.iter().any(|a| a.ends_with("shared.yml")),
        "workspace-root rule must appear in semgrep argv"
    );
}

#[test]
fn parse_semgrep_json_never_panics() {
    for s in ["", "{", "[]", r#"{"results":3}"#, r#"{"results":[1,{}]}"#, "\u{1F600}"] {
        let _ = parse_semgrep_json(s, &vec![]);
    }
}

#[test]
fn map_severity_never_panics() {
    for s in ["", "ß", "\u{130}", "ERROR "] {
        let _ = map_semgrep_severity(s);
    }
}
