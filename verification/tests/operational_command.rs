use barzel::config::OperationalCommandConfig;
use barzel::plugin::{Layer, TestRunner};
use barzel::process::{MockProcessRunner, ProcessOutput, RunFailure, SubprocessRunner};
use barzel::report::{LayerStatus, Severity};
use barzel::runners::operational_command::{
    build_reproduce_cmd, resolve_cwd, shell_quote, truncate_output, OperationalCommandRunner,
};

struct BrokenProc;

impl SubprocessRunner for BrokenProc {
    fn run(&mut self, _: &str, _: &Vec<String>, _: &str) -> Result<ProcessOutput, String> {
        Err("not found".to_string())
    }

    fn run_timed(
        &mut self,
        _: &str,
        _: &Vec<String>,
        _: &str,
        _: u64,
    ) -> Result<ProcessOutput, RunFailure> {
        Err(RunFailure { timed_out: false, text: "not found".to_string() })
    }
}

/// Gives its answers in turn.
struct Sequence(Vec<ProcessOutput>);

impl SubprocessRunner for Sequence {
    fn run(&mut self, _: &str, _: &Vec<String>, _: &str) -> Result<ProcessOutput, String> {
        Ok(self.0.remove(0))
    }

    fn run_timed(
        &mut self,
        _: &str,
        _: &Vec<String>,
        _: &str,
        _: u64,
    ) -> Result<ProcessOutput, RunFailure> {
        Ok(self.0.remove(0))
    }
}

/// Keeps the directories and the timeouts.
struct CallRecorder(Vec<(String, u64)>);

impl SubprocessRunner for CallRecorder {
    fn run(&mut self, _: &str, _: &Vec<String>, _: &str) -> Result<ProcessOutput, String> {
        Ok(output(true, "", ""))
    }

    fn run_timed(
        &mut self,
        _: &str,
        _: &Vec<String>,
        cwd: &str,
        timeout_ms: u64,
    ) -> Result<ProcessOutput, RunFailure> {
        self.0.push((cwd.to_string(), timeout_ms));
        Ok(output(true, "", ""))
    }
}

struct TimedOutProc;

impl SubprocessRunner for TimedOutProc {
    fn run(&mut self, _: &str, _: &Vec<String>, _: &str) -> Result<ProcessOutput, String> {
        Err("timed out after 5000ms".to_string())
    }

    fn run_timed(
        &mut self,
        _: &str,
        _: &Vec<String>,
        _: &str,
        _: u64,
    ) -> Result<ProcessOutput, RunFailure> {
        Err(RunFailure { timed_out: true, text: "timed out after 5000ms".to_string() })
    }
}

fn output(success: bool, stdout: &str, stderr: &str) -> ProcessOutput {
    ProcessOutput { success, stdout: stdout.to_string(), stderr: stderr.to_string() }
}

fn make_cmd(name: &str, cmd: &str, args: &[&str]) -> OperationalCommandConfig {
    OperationalCommandConfig {
        name: name.to_string(),
        cmd: cmd.to_string(),
        args: args.iter().map(|s| s.to_string()).collect(),
        cwd: None,
        timeout_ms: 5000,
    }
}

#[test]
fn name_is_operational_cmd() {
    assert_eq!(OperationalCommandRunner::new(vec![]).name(), "operational-cmd");
}

#[test]
fn operational_command_layer_is_operational() {
    assert!(matches!(OperationalCommandRunner::new(vec![]).layer(), Layer::Operational));
}

#[test]
fn not_available_when_no_commands() {
    assert!(!OperationalCommandRunner::new(vec![]).is_available());
}

#[test]
fn available_when_commands_configured() {
    let r = OperationalCommandRunner::new(vec![make_cmd("c", "python", &["--version"])]);
    assert!(r.is_available());
}

#[test]
fn pass_when_command_exits_zero() {
    let r = OperationalCommandRunner::new(vec![make_cmd("check", "python", &["--version"])]);
    let result = r.run(&mut MockProcessRunner::passing("Python 3.11"), "/tmp");
    assert!(matches!(result.status, LayerStatus::Pass));
    assert!(result.findings.is_empty());
    assert_eq!(result.metrics.tests_run, 1);
    assert_eq!(result.metrics.passed, 1);
    assert_eq!(result.metrics.failed, 0);
}

#[test]
fn all_pass_metrics_correct() {
    let r = OperationalCommandRunner::new(vec![make_cmd("a", "cmd1", &[]), make_cmd("b", "cmd2", &[])]);
    let result = r.run(&mut MockProcessRunner::passing("ok"), "/tmp");
    assert_eq!(result.metrics.tests_run, 2);
    assert_eq!(result.metrics.passed, 2);
    assert_eq!(result.metrics.failed, 0);
}

#[test]
fn nonzero_exit_is_high_severity() {
    let r = OperationalCommandRunner::new(vec![make_cmd(
        "migrate",
        "python",
        &["manage.py", "migrate", "--check"],
    )]);
    let result = r.run(&mut MockProcessRunner::failing("unapplied migrations"), "/tmp");
    assert_eq!(result.findings.len(), 1);
    assert_eq!(result.findings[0].severity, Severity::High);
    assert_eq!(result.findings[0].code, "OPERATIONAL_COMMAND_FAILED");
    assert!(result.findings[0].message.contains("migrate"));
}

#[test]
fn nonzero_exit_output_in_finding() {
    let r = OperationalCommandRunner::new(vec![make_cmd("check", "sh", &[])]);
    let result = r.run(&mut MockProcessRunner::failing("something went wrong"), "/tmp");
    assert!(result.findings[0].message.contains("something went wrong"));
}

#[test]
fn nonzero_exit_has_reproduce_cmd() {
    let r = OperationalCommandRunner::new(vec![make_cmd("check", "python", &["manage.py", "check"])]);
    let result = r.run(&mut MockProcessRunner::failing("error"), "/tmp");
    let repr = result.findings[0].reproduce_cmd.as_deref().unwrap();
    assert!(repr.contains("python"), "reproduce_cmd must contain executable");
    assert!(repr.contains("manage.py"), "reproduce_cmd must contain args");
}

#[test]
fn nonzero_exit_layer_is_fail() {
    let r = OperationalCommandRunner::new(vec![make_cmd("check", "false", &[])]);
    let result = r.run(&mut MockProcessRunner::failing(""), "/tmp");
    assert!(matches!(result.status, LayerStatus::Fail));
    assert_eq!(result.metrics.failed, 1);
}

#[test]
fn spawn_error_is_critical_severity() {
    let r = OperationalCommandRunner::new(vec![make_cmd("check", "nonexistent-binary", &[])]);
    let result = r.run(&mut BrokenProc, "/tmp");
    assert_eq!(result.findings[0].severity, Severity::Critical);
    assert_eq!(result.findings[0].code, "OPERATIONAL_COMMAND_SPAWN_FAILED");
    assert!(result.findings[0].message.contains("nonexistent-binary"));
}

#[test]
fn spawn_error_has_reproduce_cmd() {
    let r = OperationalCommandRunner::new(vec![make_cmd("check", "my-tool", &["--verify"])]);
    let result = r.run(&mut BrokenProc, "/tmp");
    let repr = result.findings[0].reproduce_cmd.as_deref().unwrap();
    assert!(repr.contains("my-tool"));
    assert!(repr.contains("--verify"));
}

#[test]
fn spawn_error_layer_is_fail() {
    let r = OperationalCommandRunner::new(vec![make_cmd("check", "missing", &[])]);
    let result = r.run(&mut BrokenProc, "/tmp");
    assert!(matches!(result.status, LayerStatus::Fail));
}

#[test]
fn timeout_produces_timed_out_finding() {
    let r = OperationalCommandRunner::new(vec![make_cmd("slow-cmd", "slow", &[])]);
    let result = r.run(&mut TimedOutProc, "/tmp");
    assert_eq!(result.findings[0].code, "OPERATIONAL_COMMAND_TIMEOUT");
    assert_eq!(result.findings[0].severity, Severity::High);
    assert!(result.findings[0].suggestion.as_deref().unwrap().contains("timeout_ms"));
}

#[test]
fn timeout_value_is_passed_to_run_timed() {
    let mut recorded = CallRecorder(vec![]);
    let mut cfg = make_cmd("check", "python", &["--version"]);
    cfg.timeout_ms = 12_345;
    OperationalCommandRunner::new(vec![cfg]).run(&mut recorded, "/tmp");
    assert_eq!(
        recorded.0[0].1, 12_345,
        "timeout_ms from config must be passed to run_timed"
    );
}

#[test]
fn mixed_pass_and_fail_layer_is_fail() {
    let mut proc = Sequence(vec![output(true, "ok", ""), output(false, "", "err")]);
    let r = OperationalCommandRunner::new(vec![make_cmd("a", "ok", &[]), make_cmd("b", "fail", &[])]);
    let result = r.run(&mut proc, "/tmp");
    assert!(matches!(result.status, LayerStatus::Fail));
    assert_eq!(result.metrics.passed, 1);
    assert_eq!(result.metrics.failed, 1);
}

#[test]
fn reproduce_cmd_quotes_executable_and_args() {
    let cfg = make_cmd("test", "python", &["manage.py", "test"]);
    let repr = build_reproduce_cmd(&cfg);
    assert!(repr.starts_with("'python'"), "executable must be single-quoted");
    assert!(repr.contains("'manage.py'"), "args must be single-quoted");
}

#[test]
fn reproduce_cmd_includes_cwd_prefix() {
    let mut cfg = make_cmd("test", "pytest", &[]);
    cfg.cwd = Some("backend".to_string());
    let repr = build_reproduce_cmd(&cfg);
    assert!(repr.starts_with("cd 'backend' && "), "cwd must be shell-quoted cd prefix");
}

#[test]
fn reproduce_cmd_no_cwd_no_prefix() {
    let cfg = make_cmd("test", "pytest", &[]);
    let repr = build_reproduce_cmd(&cfg);
    assert!(!repr.contains("cd "));
    assert!(repr.starts_with("'pytest'"));
}

#[test]
fn shell_quote_handles_spaces_and_single_quotes() {
    assert_eq!(shell_quote("path with spaces"), "'path with spaces'");
    assert_eq!(shell_quote("it's"), "'it'\\''s'");
}

#[test]
fn relative_cwd_is_joined_with_project_root() {
    assert_eq!(resolve_cwd("/some/dir", &Some("backend".to_string())), "/some/dir/backend");
}

#[test]
fn absolute_cwd_used_as_is() {
    assert_eq!(resolve_cwd("/some/root", &Some("/some/dir".to_string())), "/some/dir");
}

#[test]
fn none_cwd_uses_project_root() {
    assert_eq!(resolve_cwd("/some/dir", &None), "/some/dir");
}

#[test]
fn cwd_is_passed_to_subprocess() {
    let mut recorder = CallRecorder(vec![]);
    let mut cfg = make_cmd("test", "pytest", &[]);
    cfg.cwd = Some("backend".to_string());
    OperationalCommandRunner::new(vec![cfg]).run(&mut recorder, "/some/dir");
    assert_eq!(
        recorder.0[0].0, "/some/dir/backend",
        "relative cwd must be joined with project root and passed to subprocess"
    );
}

#[test]
fn long_output_is_truncated_in_finding() {
    let long_output = "x".repeat(500);
    let mut proc = Sequence(vec![output(false, &long_output, "")]);
    let r = OperationalCommandRunner::new(vec![make_cmd("check", "sh", &[])]);
    let result = r.run(&mut proc, "/tmp");
    let msg = &result.findings[0].message;
    assert!(msg.contains("truncated"), "long output must be truncated in finding");
    assert!(msg.len() < 500, "truncated message must be shorter than raw output");
}

#[test]
fn output_is_cut_between_characters() {
    let odd = format!("{}é{}", "x".repeat(299), "x".repeat(100));
    assert_eq!(truncate_output(&odd, 300), format!("{}… (truncated)", "x".repeat(299)));
    assert_eq!(truncate_output(&odd, 301), format!("{}é… (truncated)", "x".repeat(299)));
    let mut proc = Sequence(vec![output(false, &odd, "")]);
    let r = OperationalCommandRunner::new(vec![make_cmd("check", "sh", &[])]);
    let result = r.run(&mut proc, "/tmp");
    assert!(result.findings[0].message.ends_with("x… (truncated)"));
}

#[test]
fn commands_run_once_each_and_in_order() {
    let mut recorder = CallRecorder(vec![]);
    let mut first = make_cmd("a", "x", &[]);
    first.timeout_ms = 1;
    let mut second = make_cmd("b", "y", &[]);
    second.timeout_ms = 2;
    OperationalCommandRunner::new(vec![first, second]).run(&mut recorder, "/r");
    let timeouts: Vec<u64> = recorder.0.iter().map(|c| c.1).collect();
    assert_eq!(timeouts, [1, 2]);
}

#[test]
fn short_output_is_kept() {
    assert_eq!(truncate_output("  fine\n", 300), "  fine");
}

#[test]
fn commands_add_up() {
    let r = OperationalCommandRunner::new(vec![
        make_cmd("a", "x", &[]),
        make_cmd("b", "y", &[]),
        make_cmd("c", "z", &[]),
    ]);
    let outcomes = vec![
        Ok(output(true, "", "")),
        Ok(output(false, "", "")),
        Err(RunFailure { timed_out: false, text: "gone".to_string() }),
    ];
    let result = r.report_commands(&outcomes, 5);
    assert_eq!(result.metrics.tests_run, 3);
    assert_eq!(result.metrics.passed + result.metrics.failed, 3);
    assert_eq!(result.findings.len() as u64, result.metrics.failed);
}

#[test]
fn quoted_texts_differ() {
    let texts = ["", "'", "a'b", "a b", "'a'", "\\'"];
    for a in texts {
        for b in texts {
            assert_eq!(a == b, shell_quote(a) == shell_quote(b));
        }
    }
}

#[test]
fn reproduce_cmd_is_one_line_of_quoted_words() {
    let mut cfg = make_cmd("test", "my tool", &["it's", "$HOME"]);
    assert_eq!(build_reproduce_cmd(&cfg), "'my tool' 'it'\\''s' '$HOME'");
    cfg.cwd = Some("a b".to_string());
    assert_eq!(build_reproduce_cmd(&cfg), "cd 'a b' && 'my tool' 'it'\\''s' '$HOME'");
}
