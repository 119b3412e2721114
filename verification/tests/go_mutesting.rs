use barzel::detect::{Language, ProjectFrameworks, ProjectInfo};
use barzel::percent::Percent;
use barzel::plugin::{Layer, TestRunner};
use barzel::process::{MockProcessRunner, ProcessOutput, RunFailure, SubprocessRunner};
use barzel::report::{LayerResult, LayerStatus, Severity};
use barzel::runners::go_mutesting::{build_findings, parse_go_mutesting_score, GoMutestingRunner};
use barzel::runners::score::{pick, Candidate, ScoreTexts};

fn info(language: Language, root: &str) -> ProjectInfo {
    ProjectInfo {
        language,
        root: root.to_string(),
        has_tests: true,
        package_name: None,
        frameworks: ProjectFrameworks::default(),
        workspace_root: None,
    }
}

struct BrokenProc;

impl SubprocessRunner for BrokenProc {
    fn run(&mut self, _: &str, _: &Vec<String>, _: &str) -> Result<ProcessOutput, String> {
        Err("not found".to_string())
    }

    fn run_timed(
        &mut self,
        _: &str,
        _: &Vec<String>,
        _: &str,
        _: u64,
    ) -> Result<ProcessOutput, RunFailure> {
        Err(RunFailure { timed_out: false, text: "not found".to_string() })
    }
}

fn pct(x: f64) -> Percent {
    Percent { bits: x.to_bits() }
}

fn share(hit: u64, missed: u64) -> f64 {
    hit as f64 / (hit as u128 + missed as u128) as f64 * 100.0
}

/// The number that a candidate stands for.
fn value(c: &Candidate) -> Option<Percent> {
    let x = match c {
        Candidate::Counts { hit, missed } => Some(share(*hit, *missed)),
        Candidate::Text(t) | Candidate::Bounded(t) | Candidate::Final(t) => t.parse::<f64>().ok(),
        Candidate::Share(t) => t.parse::<f64>().ok().map(|x| x * 100.0),
    };
    x.map(pct)
}

fn score_of(candidates: &Vec<Candidate>) -> Option<Percent> {
    let values: Vec<Option<Percent>> = candidates.iter().map(value).collect();
    pick(candidates, &values)
}

fn number(score: Option<Percent>) -> Option<f64> {
    score.map(|p| f64::from_bits(p.bits))
}

fn texts(score: Option<Percent>, threshold: Percent) -> ScoreTexts {
    let s = number(score).unwrap_or(0.0);
    ScoreTexts {
        score: format!("{s:.1}"),
        threshold: format!("{:.0}", f64::from_bits(threshold.bits)),
        survived: format!("{:.1}", 100.0 - s),
    }
}

fn go_info() -> ProjectInfo {
    info(Language::Go, "/tmp")
}

fn run_with<P: SubprocessRunner>(runner: &GoMutestingRunner, proc: &mut P) -> LayerResult {
    let ran = runner.run(proc, &go_info());
    let score = score_of(&ran.candidates);
    let shown = texts(score, runner.mutation_threshold);
    runner.report_go_mutesting(&ran.outcome, score, &shown, ran.duration_ms)
}

fn parsed(output: &str) -> Option<f64> {
    number(score_of(&parse_go_mutesting_score(output)))
}

#[test]
fn name_is_go_mutesting() {
    assert_eq!(GoMutestingRunner::default().name(), "go-mutesting");
}

#[test]
fn go_mutesting_layer_is_structural() {
    assert!(matches!(GoMutestingRunner::default().layer(), Layer::Structure));
}

#[test]
fn go_mutesting_skip_message_nonempty() {
    assert!(!GoMutestingRunner::default().skip_message().is_empty());
}

#[test]
fn go_mutesting_not_available_for_rust() {
    let mut proc = MockProcessRunner::passing("");
    assert!(!GoMutestingRunner::default().is_available(&mut proc, &info(Language::Rust, "/tmp")));
}

#[test]
fn go_mutesting_not_available_for_typescript() {
    let mut proc = MockProcessRunner::passing("");
    assert!(!GoMutestingRunner::default().is_available(&mut proc, &info(Language::TypeScript, "/tmp")));
}

#[test]
fn available_when_command_runs() {
    let mut proc = MockProcessRunner::passing("");
    assert!(GoMutestingRunner::default().is_available(&mut proc, &go_info()));
}

#[test]
fn not_available_when_command_errors() {
    assert!(!GoMutestingRunner::default().is_available(&mut BrokenProc, &go_info()));
}

#[test]
fn go_mutesting_run_returns_pass_when_score_meets_threshold() {
    let stdout = "The mutation score is 1.0000 (19 of 19 mutants killed)";
    let result = run_with(&GoMutestingRunner::default(), &mut MockProcessRunner::passing(stdout));
    assert!(matches!(result.status, LayerStatus::Pass));
    assert!(result.findings.is_empty());
}

#[test]
fn go_mutesting_run_returns_partial_when_score_below_threshold() {
    let stdout = "The mutation score is 0.6000 (12 of 20 mutants killed)";
    let result = run_with(&GoMutestingRunner::default(), &mut MockProcessRunner::passing(stdout));
    assert!(matches!(result.status, LayerStatus::Partial));
    assert_eq!(result.findings[0].severity, Severity::High);
}

#[test]
fn go_mutesting_run_returns_fail_on_subprocess_error() {
    let result = run_with(&GoMutestingRunner::default(), &mut BrokenProc);
    assert!(matches!(result.status, LayerStatus::Fail));
    assert_eq!(result.findings[0].severity, Severity::Critical);
    assert_eq!(result.metrics.failed, 1);
}

#[test]
fn parses_standard_score_line() {
    let score = parsed("The mutation score is 0.8421 (16 of 19 mutants killed)").unwrap();
    assert!((score - 84.21).abs() < 0.1);
}

#[test]
fn parses_perfect_score() {
    let score = parsed("The mutation score is 1.0000 (19 of 19 mutants killed)").unwrap();
    assert!((score - 100.0).abs() < 0.01);
}

#[test]
fn returns_none_for_no_match() {
    assert!(parsed("").is_none());
    assert!(parsed("no relevant output").is_none());
}

#[test]
fn build_findings_empty_when_above_threshold() {
    let shown = texts(Some(pct(97.0)), pct(95.0));
    assert!(build_findings(Some(pct(97.0)), pct(95.0), &shown).is_empty());
}

#[test]
fn build_findings_high_severity_when_below_threshold() {
    let shown = texts(Some(pct(60.0)), pct(95.0));
    let findings = build_findings(Some(pct(60.0)), pct(95.0), &shown);
    assert_eq!(findings.len(), 1);
    assert!(matches!(findings[0].severity, Severity::High));
    assert!(findings[0].message.contains("60.0%"));
}

#[test]
fn build_findings_info_when_no_score() {
    let findings = build_findings(None, pct(95.0), &texts(None, pct(95.0)));
    assert_eq!(findings.len(), 1);
    assert!(matches!(findings[0].severity, Severity::Info));
}

#[test]
fn parse_go_mutesting_score_never_panics() {
    for s in ["", "mutation score is", "The mutation score is x (", "mutation score is \u{e9}"] {
        let _ = parsed(s);
    }
}

#[test]
fn score_in_range_when_found() {
    for (killed, total) in [(0u64, 1u64), (99, 99), (12, 20), (150, 7)] {
        let ratio = killed.min(total) as f64 / total as f64;
        let output = format!(
            "The mutation score is {:.4} ({} of {} mutants killed)",
            ratio,
            killed.min(total),
            total
        );
        let score = parsed(&output).unwrap();
        assert!(score >= 0.0 && score <= 100.0);
    }
}

#[test]
fn lower_threshold_passes_the_same_score() {
    let stdout = "The mutation score is 0.6000 (12 of 20 mutants killed)";
    let runner = GoMutestingRunner::with_threshold(pct(50.0));
    let result = run_with(&runner, &mut MockProcessRunner::passing(stdout));
    assert_eq!(result.status, LayerStatus::Pass);
}
