use barzel::detect::{Language, ProjectFrameworks, ProjectInfo};
use barzel::files::Files;
use barzel::percent::Percent;
use barzel::plugin::{Layer, TestRunner};
use barzel::process::{MockProcessRunner, ProcessOutput, RunFailure, SubprocessRunner};
use barzel::report::{LayerResult, LayerStatus, Severity};
use barzel::runners::mutmut::{
    extract_count_from_mutmut_line, mutmut_candidates, parse_mutmut_results, parse_pct_from_line,
    MutmutRunner, MutmutScore,
};
use barzel::runners::score::{pick, Candidate, ScoreTexts};

fn info(language: Language, root: &str) -> ProjectInfo {
    ProjectInfo {
        language,
        root: root.to_string(),
        has_tests: true,
        package_name: None,
        frameworks: ProjectFrameworks::default(),
        workspace_root: None,
    }
}

fn no_files() -> Files {
    Files { entries: vec![] }
}

struct BrokenProc;

impl SubprocessRunner for BrokenProc {
    fn run(&mut self, _: &str, _: &Vec<String>, _: &str) -> Result<ProcessOutput, String> {
        Err("not found".to_string())
    }

    fn run_timed(
        &mut self,
        _: &str,
        _: &Vec<String>,
        _: &str,
        _: u64,
    ) -> Result<ProcessOutput, RunFailure> {
        Err(RunFailure { timed_out: false, text: "not found".to_string() })
    }
}

fn pct(x: f64) -> Percent {
    Percent { bits: x.to_bits() }
}

fn py_info() -> ProjectInfo {
    info(Language::Python, "/tmp")
}

fn value(c: &Candidate) -> Option<Percent> {
    match c {
        Candidate::Counts { hit, missed } => {
            Some(pct(*hit as f64 / (*hit as u128 + *missed as u128) as f64 * 100.0))
        }
        Candidate::Text(t) => t.parse::<f64>().ok().map(pct),
        _ => panic!("neither counts nor a percentage: {c:?}"),
    }
}

/// The score in percent.
fn score_of(score: &MutmutScore) -> Option<f64> {
    let candidates = mutmut_candidates(score);
    let values: Vec<Option<Percent>> = candidates.iter().map(value).collect();
    pick(&candidates, &values).map(|p| f64::from_bits(p.bits))
}

fn run_with<P: SubprocessRunner>(runner: &MutmutRunner, proc: &mut P) -> LayerResult {
    let ran = runner.run(proc, &py_info(), &no_files());
    let score = ran.score.as_ref().and_then(score_of);
    let shown = score.unwrap_or(0.0);
    let texts = ScoreTexts {
        score: format!("{shown:.1}"),
        threshold: format!("{:.0}", f64::from_bits(runner.mutation_threshold.bits)),
        survived: format!("{:.1}", 100.0 - shown),
    };
    runner.report_mutmut(&ran, score.map(pct), &texts)
}

fn parsed(output: &str) -> Option<f64> {
    score_of(&parse_mutmut_results(output))
}

#[test]
fn name_is_mutmut() {
    assert_eq!(MutmutRunner::default().name(), "mutmut");
}

#[test]
fn mutmut_layer_is_structural() {
    assert!(matches!(MutmutRunner::default().layer(), Layer::Structure));
}

#[test]
fn mutmut_not_available_for_rust() {
    let mut proc = MockProcessRunner::passing("");
    let rust = info(Language::Rust, "/tmp");
    assert!(!MutmutRunner::default().is_available(&mut proc, &rust, &no_files()));
}

#[test]
fn available_when_system_mutmut_present() {
    let mut proc = MockProcessRunner::passing("mutmut 2.4.5");
    assert!(MutmutRunner::default().is_available(&mut proc, &py_info(), &no_files()));
}

#[test]
fn not_available_when_mutmut_missing() {
    let mut proc = MockProcessRunner::unavailable();
    assert!(!MutmutRunner::default().is_available(&mut proc, &py_info(), &no_files()));
}

#[test]
fn run_pass_above_threshold() {
    let result =
        run_with(&MutmutRunner::default(), &mut MockProcessRunner::passing("KILLED 42\nSURVIVED 8"));
    assert!(matches!(result.status, LayerStatus::Pass));
    let score = f64::from_bits(result.metrics.mutation_score.unwrap().bits);
    assert!((score - 84.0).abs() < 0.1);
}

#[test]
fn mutmut_run_partial_below_threshold() {
    let result =
        run_with(&MutmutRunner::default(), &mut MockProcessRunner::passing("KILLED 6\nSURVIVED 4"));
    assert!(matches!(result.status, LayerStatus::Partial));
    assert_eq!(result.findings[0].severity, Severity::High);
    assert!(result.findings[0].message.contains("60.0%"));
}

#[test]
fn mutmut_run_uses_configurable_threshold() {
    let runner = MutmutRunner { mutation_threshold: pct(50.0) };
    let result = run_with(&runner, &mut MockProcessRunner::passing("KILLED 6\nSURVIVED 4"));
    assert!(matches!(result.status, LayerStatus::Pass));
}

#[test]
fn mutmut_run_fail_on_subprocess_error() {
    let result = run_with(&MutmutRunner::default(), &mut BrokenProc);
    assert!(matches!(result.status, LayerStatus::Fail));
    assert_eq!(result.findings[0].severity, Severity::Critical);
}

#[test]
fn parse_killed_survived_format() {
    let s = parsed("KILLED 42\nSURVIVED 8").unwrap();
    assert!((s - 84.0).abs() < 0.1);
}

#[test]
fn parse_pct_format() {
    let s = parsed("42 out of 50 mutants killed (84.00%)").unwrap();
    assert!((s - 84.0).abs() < 0.1);
}

#[test]
fn parse_zero_mutants_returns_none() {
    assert!(parsed("no mutants found").is_none());
}

#[test]
fn mutmut_parse_never_panics() {
    for s in ["", "%(", ") % ( mutants killed", "KILLED x", "KILLED 18446744073709551615\nSURVIVED 18446744073709551615", "é (é%"] {
        let _ = parsed(s);
    }
}

#[test]
fn mutmut_score_in_range() {
    for (killed, survived) in [(0u64, 0u64), (0, 499), (499, 0), (250, 249)] {
        let line = format!("KILLED {killed}\nSURVIVED {survived}");
        if let Some(s) = parsed(&line) {
            assert!(s >= 0.0 && s <= 100.0);
        }
    }
}

#[test]
fn percentages_out_of_order_are_passed_over() {
    assert_eq!(parse_pct_from_line("84% of mutants (rest)"), None);
    assert_eq!(parse_pct_from_line("killed ( 84.00 %)").as_deref(), Some("84.00"));
}

#[test]
fn mutmut_counts_are_the_first_numbers() {
    assert_eq!(extract_count_from_mutmut_line("KILLED 42"), 42);
    assert_eq!(extract_count_from_mutmut_line("KILLED"), 0);
}

/// Keeps what it is asked for; counts the runs in its answers.
struct Counting {
    asked: Vec<String>,
}

impl SubprocessRunner for Counting {
    fn run(&mut self, _: &str, args: &Vec<String>, _: &str) -> Result<ProcessOutput, String> {
        self.asked.push(args.join(" "));
        let runs = self.asked.iter().filter(|a| *a == "run").count();
        let stdout = format!("KILLED {runs}\nSURVIVED {runs}");
        Ok(ProcessOutput { success: true, stdout, stderr: String::new() })
    }

    fn run_timed(
        &mut self,
        cmd: &str,
        args: &Vec<String>,
        cwd: &str,
        _: u64,
    ) -> Result<ProcessOutput, RunFailure> {
        self.run(cmd, args, cwd).map_err(|text| RunFailure { timed_out: false, text })
    }
}

#[test]
fn results_are_asked_for_after_the_run() {
    let mut proc = Counting { asked: vec![] };
    let ran = MutmutRunner::default().run(&mut proc, &py_info(), &no_files());
    assert_eq!(proc.asked, ["run", "results"]);
    assert_eq!(ran.score.as_ref().and_then(score_of), Some(50.0));
}

#[test]
fn counts_are_the_only_candidate() {
    let found = mutmut_candidates(&MutmutScore::Counts { killed: 3, survived: 1 });
    assert!(matches!(found.as_slice(), [Candidate::Counts { hit: 3, missed: 1 }]));
}

#[test]
fn candidates_stand_in_the_lines_that_state_a_percentage() {
    let lines = vec![
        "3 mutants killed".to_string(),
        "3 mutants killed (n/a%)".to_string(),
        "3 mutants killed ( 75.0 %)".to_string(),
        "9 mutants killed (90%)".to_string(),
    ];
    let found = mutmut_candidates(&MutmutScore::Lines(lines));
    let texts: Vec<&str> = found
        .iter()
        .map(|c| match c {
            Candidate::Text(t) => t.as_str(),
            _ => panic!("no percentage: {c:?}"),
        })
        .collect();
    assert_eq!(texts, ["n/a", "75.0", "90"]);
    let values: Vec<Option<Percent>> = found.iter().map(value).collect();
    assert_eq!(pick(&found, &values), Some(pct(75.0)));
}
