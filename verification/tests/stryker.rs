use barzel::detect::{Language, ProjectFrameworks, ProjectInfo};
use barzel::files::{Entry, Files};
use barzel::percent::Percent;
use barzel::plugin::{Layer, TestRunner};
use barzel::process::{MockProcessRunner, ProcessOutput, RunFailure, SubprocessRunner};
use barzel::report::{LayerResult, LayerStatus, Severity};
use barzel::runners::score::{pick, Candidate, ScoreTexts};
use barzel::runners::stryker::{
    build_stryker_findings, parse_stryker_report, parse_stryker_text_output, stryker_candidates,
    StrykerRunner,
};

fn info(language: Language, root: &str) -> ProjectInfo {
    ProjectInfo {
        language,
        root: root.to_string(),
        has_tests: true,
        package_name: None,
        frameworks: ProjectFrameworks::default(),
        workspace_root: None,
    }
}

/// The files of a project at `root`, with the directories they stand in.
fn files_at(root: &str, texts: &[(&str, &str)]) -> Files {
    let mut entries = vec![Entry {
        path: String::new(),
        dir: true,
        absolute: root.to_string(),
        text: None,
    }];
    for (path, text) in texts {
        let parts: Vec<&str> = path.split('/').collect();
        for n in 1..parts.len() {
            let parent = parts[..n].join("/");
            if !entries.iter().any(|e| e.path == parent) {
                entries.push(Entry {
                    absolute: format!("{root}/{parent}"),
                    path: parent,
                    dir: true,
                    text: None,
                });
            }
        }
        if !path.ends_with('/') {
            entries.push(Entry {
                path: path.to_string(),
                dir: false,
                absolute: format!("{root}/{path}"),
                text: Some(text.to_string()),
            });
        }
    }
    Files { entries }
}

struct BrokenProc;

impl SubprocessRunner for BrokenProc {
    fn run(&mut self, _: &str, _: &Vec<String>, _: &str) -> Result<ProcessOutput, String> {
        Err("not found".to_string())
    }

    fn run_timed(
        &mut self,
        _: &str,
        _: &Vec<String>,
        _: &str,
        _: u64,
    ) -> Result<ProcessOutput, RunFailure> {
        Err(RunFailure { timed_out: false, text: "not found".to_string() })
    }
}

fn pct(x: f64) -> Percent {
    Percent { bits: x.to_bits() }
}

fn share(hit: u64, missed: u64) -> f64 {
    hit as f64 / (hit as u128 + missed as u128) as f64 * 100.0
}

/// The number that a candidate stands for.
fn value(c: &Candidate) -> Option<Percent> {
    let x = match c {
        Candidate::Counts { hit, missed } => Some(share(*hit, *missed)),
        Candidate::Text(t) | Candidate::Bounded(t) | Candidate::Final(t) => t.parse::<f64>().ok(),
        Candidate::Share(t) => t.parse::<f64>().ok().map(|x| x * 100.0),
    };
    x.map(pct)
}

fn score_of(candidates: &Vec<Candidate>) -> Option<Percent> {
    let values: Vec<Option<Percent>> = candidates.iter().map(value).collect();
    pick(candidates, &values)
}

fn number(score: Option<Percent>) -> Option<f64> {
    score.map(|p| f64::from_bits(p.bits))
}

fn texts(score: Option<Percent>, threshold: Percent) -> ScoreTexts {
    let s = number(score).unwrap_or(0.0);
    ScoreTexts {
        score: format!("{s:.1}"),
        threshold: format!("{:.0}", f64::from_bits(threshold.bits)),
        survived: format!("{:.1}", 100.0 - s),
    }
}

fn ts_project(root: &str) -> ProjectInfo {
    ProjectInfo { package_name: Some("my-app".to_string()), ..info(Language::TypeScript, root) }
}

fn run_with<P: SubprocessRunner>(runner: &StrykerRunner, proc: &mut P) -> LayerResult {
    let (outcome, duration_ms) = runner.run(proc, &ts_project("/tmp"));
    let score = score_of(&stryker_candidates(&None, &outcome));
    let shown = texts(score, runner.mutation_threshold);
    runner.report_stryker("npm", &outcome, score, &shown, duration_ms)
}

fn found(score: Option<f64>, threshold: f64) -> Vec<barzel::report::Finding> {
    let score = score.map(pct);
    build_stryker_findings(score, pct(threshold), &texts(score, pct(threshold)))
}

#[test]
fn name_is_stryker() {
    assert_eq!(StrykerRunner::default().name(), "stryker");
}

#[test]
fn stryker_layer_is_structural() {
    assert!(matches!(StrykerRunner::default().layer(), Layer::Structure));
}

#[test]
fn skip_message_is_nonempty() {
    assert!(!StrykerRunner::default().skip_message().is_empty());
}

#[test]
fn not_available_for_non_typescript() {
    let rust = info(Language::Rust, "/tmp");
    assert!(!StrykerRunner::default().is_available(&rust, &files_at("/tmp", &[])));
}

#[test]
fn available_when_stryker_dep_present() {
    let files = files_at(
        "/tmp",
        &[("package.json", r#"{"devDependencies":{"@stryker-mutator/core":"7.0"}}"#)],
    );
    assert!(StrykerRunner::default().is_available(&ts_project("/tmp"), &files));
}

#[test]
fn available_when_stryker_config_present() {
    let files = files_at("/tmp", &[("stryker.config.mjs", "export default {}")]);
    assert!(StrykerRunner::default().is_available(&ts_project("/tmp"), &files));
}

#[test]
fn stryker_run_returns_pass_when_score_meets_threshold() {
    let mut proc = MockProcessRunner::passing("Mutation score: 97.00%");
    let result = run_with(&StrykerRunner::default(), &mut proc);
    assert!(matches!(result.status, LayerStatus::Pass));
    assert!(result.findings.is_empty());
}

#[test]
fn stryker_run_returns_partial_when_score_below_threshold() {
    let mut proc = MockProcessRunner::passing("Mutation score: 60.00%");
    let result = run_with(&StrykerRunner::default(), &mut proc);
    assert!(matches!(result.status, LayerStatus::Partial));
    assert_eq!(result.findings[0].severity, Severity::High);
}

#[test]
fn stryker_run_returns_fail_on_subprocess_error() {
    let result = run_with(&StrykerRunner::default(), &mut BrokenProc);
    assert!(matches!(result.status, LayerStatus::Fail));
    assert_eq!(result.findings[0].severity, Severity::Critical);
}

#[test]
fn empty_findings_when_score_meets_threshold() {
    assert!(found(Some(95.0), 95.0).is_empty());
    assert!(found(Some(100.0), 95.0).is_empty());
}

#[test]
fn high_severity_when_below_threshold() {
    let findings = found(Some(60.0), 95.0);
    assert_eq!(findings.len(), 1);
    assert!(matches!(findings[0].severity, Severity::High));
    assert!(findings[0].message.contains("60.0%"));
    assert!(findings[0].message.contains("95"));
}

#[test]
fn info_finding_when_no_score() {
    let findings = found(None, 95.0);
    assert_eq!(findings.len(), 1);
    assert!(matches!(findings[0].severity, Severity::Info));
}

#[test]
fn boundary_exactly_at_threshold_passes() {
    assert!(found(Some(80.0), 80.0).is_empty());
}

#[test]
fn parses_stryker_mutation_score_line() {
    let score = number(score_of(&parse_stryker_text_output("Mutation score: 87.50%"))).unwrap();
    assert!((score - 87.5).abs() < 0.01);
}

#[test]
fn returns_none_for_empty_output() {
    assert!(score_of(&parse_stryker_text_output("")).is_none());
}

#[test]
fn parses_json_mutation_report() {
    let json = r#"{
            "schemaVersion": "1",
            "files": {
                "src/foo.ts": {
                    "mutants": [
                        {"status": "Killed"},
                        {"status": "Killed"},
                        {"status": "Survived"},
                        {"status": "NoCoverage"}
                    ]
                }
            }
        }"#;
    let score = number(score_of(&parse_stryker_report(json))).unwrap();
    assert!((score - 50.0).abs() < 0.01);
}

#[test]
fn perfect_score_when_all_killed() {
    let json = r#"{"files":{"f.ts":{"mutants":[{"status":"Killed"},{"status":"Killed"}]}}}"#;
    let score = number(score_of(&parse_stryker_report(json))).unwrap();
    assert!((score - 100.0).abs() < 0.01);
}

#[test]
fn build_stryker_findings_never_panics() {
    for score in [None, Some(0.0), Some(50.0), Some(99.9)] {
        for threshold in [0.0, 50.0, 99.9] {
            let _ = found(score, threshold);
        }
    }
}

#[test]
fn parse_stryker_text_never_panics() {
    for s in ["", "mutation score", "Mutation score: é%", "% | % |"] {
        let _ = score_of(&parse_stryker_text_output(s));
    }
}

#[test]
fn report_counts_before_the_output() {
    let json = r#"{"files":{"f.ts":{"mutants":[{"status":"Killed"},{"status":"Survived"}]}}}"#;
    let mut proc = MockProcessRunner::passing("Mutation score: 97.00%");
    let (outcome, _) = StrykerRunner::default().run(&mut proc, &ts_project("/tmp"));
    let score = score_of(&stryker_candidates(&Some(json.to_string()), &outcome));
    assert_eq!(number(score), Some(50.0));
}
