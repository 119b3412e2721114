use barzel::detect::{Language, ProjectFrameworks, ProjectInfo};
use barzel::percent::Percent;
use barzel::plugin::{Layer, TestRunner};
use barzel::process::{MockProcessRunner, ProcessOutput, RunFailure, SubprocessRunner};
use barzel::report::{LayerResult, LayerStatus, Severity};
use barzel::runners::mutants::{count_before_label, parse_mutation_score, MutantsRunner};
use barzel::runners::score::{pick, Candidate, ScoreTexts};

fn info(language: Language, root: &str) -> ProjectInfo {
    ProjectInfo {
        language,
        root: root.to_string(),
        has_tests: true,
        package_name: None,
        frameworks: ProjectFrameworks::default(),
        workspace_root: None,
    }
}

struct BrokenProc;

impl SubprocessRunner for BrokenProc {
    fn run(&mut self, _: &str, _: &Vec<String>, _: &str) -> Result<ProcessOutput, String> {
        Err("not found".to_string())
    }

    fn run_timed(
        &mut self,
        _: &str,
        _: &Vec<String>,
        _: &str,
        _: u64,
    ) -> Result<ProcessOutput, RunFailure> {
        Err(RunFailure { timed_out: false, text: "not found".to_string() })
    }
}

fn pct(x: f64) -> Percent {
    Percent { bits: x.to_bits() }
}

fn share(hit: u64, missed: u64) -> f64 {
    hit as f64 / (hit as u128 + missed as u128) as f64 * 100.0
}

/// The number that a candidate stands for.
fn value(c: &Candidate) -> Option<Percent> {
    let x = match c {
        Candidate::Counts { hit, missed } => Some(share(*hit, *missed)),
        Candidate::Text(t) | Candidate::Bounded(t) | Candidate::Final(t) => t.parse::<f64>().ok(),
        Candidate::Share(t) => t.parse::<f64>().ok().map(|x| x * 100.0),
    };
    x.map(pct)
}

fn score_of(candidates: &Vec<Candidate>) -> Option<Percent> {
    let values: Vec<Option<Percent>> = candidates.iter().map(value).collect();
    pick(candidates, &values)
}

fn number(score: Option<Percent>) -> Option<f64> {
    score.map(|p| f64::from_bits(p.bits))
}

fn texts(score: Option<Percent>, threshold: Percent) -> ScoreTexts {
    let s = number(score).unwrap_or(0.0);
    ScoreTexts {
        score: format!("{s:.1}"),
        threshold: format!("{:.0}", f64::from_bits(threshold.bits)),
        survived: format!("{:.1}", 100.0 - s),
    }
}

fn rust_info() -> ProjectInfo {
    info(Language::Rust, "/tmp")
}

fn run_with<P: SubprocessRunner>(runner: &MutantsRunner, proc: &mut P) -> LayerResult {
    let ran = runner.run(proc, &rust_info());
    let score = score_of(&ran.candidates);
    let shown = texts(score, runner.mutation_threshold);
    runner.report_mutants(&ran.outcome, score, &shown, ran.duration_ms)
}

fn parsed(output: &str) -> Option<f64> {
    number(score_of(&parse_mutation_score(output)))
}

#[test]
fn name_and_layer() {
    assert_eq!(MutantsRunner::default().name(), "cargo-mutants");
    assert!(matches!(MutantsRunner::default().layer(), Layer::Structure));
}

#[test]
fn not_available_for_non_rust() {
    let mut proc = MockProcessRunner::passing("");
    assert!(!MutantsRunner::default().is_available(&mut proc, &info(Language::TypeScript, "/tmp")));
}

#[test]
fn available_when_tool_present() {
    let mut proc = MockProcessRunner::passing("cargo-mutants 27");
    assert!(MutantsRunner::default().is_available(&mut proc, &rust_info()));
}

#[test]
fn not_available_when_tool_missing() {
    let mut proc = MockProcessRunner::unavailable();
    assert!(!MutantsRunner::default().is_available(&mut proc, &rust_info()));
}

#[test]
fn run_pass_at_100_percent() {
    let mut proc = MockProcessRunner::passing("10 mutants tested in 5s: 0 missed, 10 caught");
    let result = run_with(&MutantsRunner::default(), &mut proc);
    assert!(matches!(result.status, LayerStatus::Pass));
    assert!(result.findings.is_empty());
}

#[test]
fn mutants_run_partial_below_threshold() {
    let mut proc = MockProcessRunner::passing("10 mutants tested: 8 missed, 2 caught");
    let result = run_with(&MutantsRunner::default(), &mut proc);
    assert!(matches!(result.status, LayerStatus::Partial));
    assert_eq!(result.findings[0].severity, Severity::High);
    assert!(result.findings[0].message.contains("20.0%"));
}

#[test]
fn mutants_run_uses_configurable_threshold() {
    let mut proc = MockProcessRunner::passing("10 mutants tested: 2 missed, 8 caught");
    let runner = MutantsRunner { mutation_threshold: pct(70.0), ..Default::default() };
    assert!(matches!(run_with(&runner, &mut proc).status, LayerStatus::Pass));
}

#[test]
fn mutants_run_fail_on_subprocess_error() {
    let result = run_with(&MutantsRunner::default(), &mut BrokenProc);
    assert!(matches!(result.status, LayerStatus::Fail));
    assert_eq!(result.metrics.failed, 1);
}

#[test]
fn parses_new_format() {
    let s = parsed("17 mutants tested in 23s: 11 missed, 6 caught").unwrap();
    assert!((s - 6.0 / 17.0 * 100.0).abs() < 0.01);
}

#[test]
fn parses_with_unviable() {
    let s = parsed("461 mutants tested in 8m: 395 missed, 37 caught, 29 unviable").unwrap();
    assert!((s - 37.0 / 432.0 * 100.0).abs() < 0.01);
}

#[test]
fn mutants_parse_never_panics() {
    for s in ["", "mutants tested", "18446744073709551615 missed, 18446744073709551615 caught mutants tested: ", "% score", "é%"] {
        let _ = parsed(s);
    }
}

#[test]
fn mutants_score_in_range() {
    for (caught, missed) in [(0u64, 0u64), (0, 999), (999, 0), (500, 499)] {
        let line = format!(
            "{} mutants tested in 1s: {} missed, {} caught",
            caught + missed,
            missed,
            caught
        );
        if let Some(s) = parsed(&line) {
            assert!(s >= 0.0 && s <= 100.0);
        }
    }
}

#[test]
fn first_score_counts() {
    let s = parsed("4 mutants tested: 1 missed, 3 caught\n4 mutants tested: 4 missed, 0 caught");
    assert_eq!(s, Some(75.0));
}

#[test]
fn counts_stand_before_their_labels() {
    assert_eq!(count_before_label("11 missed, 6 caught", "caught"), 6);
    assert_eq!(count_before_label("11 missed, 6 caught", "timeout"), 0);
}
