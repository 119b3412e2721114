use barzel::detect::{Language, ProjectFrameworks, ProjectInfo};
use barzel::orchestrator::{
    layer_from_str, layer_priority, Action, IndexedResult, Progress, RunnerEvent, RunnerInfo, Step,
    VerificationOrchestrator,
};
use barzel::plugin::Layer;
use barzel::report::{BarzelReport, Finding, LayerMetrics, LayerResult, LayerStatus, Severity};

/// A runner, and what comes of it.
struct Fake {
    name: &'static str,
    layer: Layer,
    available: bool,
    cached: bool,
    outcome: fn(Layer, &str) -> Result<LayerResult, String>,
}

fn passed(layer: Layer, runner: &str) -> Result<LayerResult, String> {
    Ok(LayerResult {
        name: layer.as_str().to_string(),
        runner: runner.to_string(),
        status: LayerStatus::Pass,
        findings: vec![],
        metrics: LayerMetrics::default(),
        duration_ms: 1,
    })
}

fn failed(layer: Layer, runner: &str) -> Result<LayerResult, String> {
    Ok(LayerResult {
        name: layer.as_str().to_string(),
        runner: runner.to_string(),
        status: LayerStatus::Fail,
        findings: vec![Finding {
            severity: Severity::Critical,
            code: "TEST_FAIL".to_string(),
            message: "forced failure".to_string(),
            ..Default::default()
        }],
        metrics: LayerMetrics { failed: 1, ..Default::default() },
        duration_ms: 1,
    })
}

fn broken(_: Layer, _: &str) -> Result<LayerResult, String> {
    Err("Detection error: forced error".to_string())
}

fn never(_: Layer, _: &str) -> Result<LayerResult, String> {
    unreachable!()
}

fn pass_runner(layer: Layer, name: &'static str) -> Fake {
    Fake { name, layer, available: true, cached: false, outcome: passed }
}

fn fail_runner(layer: Layer) -> Fake {
    Fake { name: "fail-runner", layer, available: true, cached: false, outcome: failed }
}

fn error_runner() -> Fake {
    Fake { name: "error-runner", layer: Layer::Logic, available: true, cached: false, outcome: broken }
}

fn unavailable_runner() -> Fake {
    Fake { name: "unavailable", layer: Layer::Logic, available: false, cached: false, outcome: never }
}

fn project() -> ProjectInfo {
    ProjectInfo {
        language: Language::Rust,
        root: "/tmp".to_string(),
        has_tests: false,
        package_name: Some("test".to_string()),
        frameworks: ProjectFrameworks::default(),
        workspace_root: None,
    }
}

fn orchestrator(fakes: &[Fake]) -> VerificationOrchestrator {
    VerificationOrchestrator::new(
        fakes
            .iter()
            .map(|f| RunnerInfo {
                name: f.name.to_string(),
                layer: f.layer,
                skip_message: "tool not installed".to_string(),
            })
            .collect(),
    )
}

struct Ran {
    report: BarzelReport,
    remembered: Vec<&'static str>,
    events: Vec<RunnerEvent>,
}

/// Does what the steps ask for.
fn run(orch: &VerificationOrchestrator, fakes: &[Fake]) -> Ran {
    let mut done: Vec<IndexedResult> = vec![];
    let mut remembered = vec![];
    let mut events = vec![];
    loop {
        let now = match orch.next_step(&done) {
            Step::Together(all) => all,
            Step::One(i) => vec![i],
            Step::Done => break,
        };
        for index in now {
            let f = &fakes[index];
            let mut progress = Progress::New;
            let result = loop {
                progress = match orch.next_action(index, progress) {
                    Action::AskAvailable => Progress::Available(f.available),
                    Action::AskCached => Progress::Cached(f.cached),
                    Action::Start(event) => {
                        events.push(event);
                        Progress::Started
                    }
                    Action::Run => Progress::Ran((f.outcome)(f.layer, f.name)),
                    Action::Remember(result) => {
                        remembered.push(f.name);
                        Progress::Remembered(result)
                    }
                    Action::Complete(event, result) => {
                        events.push(event);
                        Progress::Completed(result)
                    }
                    Action::Finish(result) => break result,
                };
            };
            done.push(IndexedResult { index, result });
        }
    }
    Ran { report: orch.report(project(), &done), remembered, events }
}

fn run_all(fakes: &[Fake]) -> Ran {
    run(&orchestrator(fakes), fakes)
}

#[test]
fn unavailable_runner_produces_skipped_result() {
    let report = run_all(&[unavailable_runner()]).report;
    assert_eq!(report.layers.len(), 1);
    assert!(matches!(report.layers[0].status, LayerStatus::Skipped));
    assert_eq!(report.layers[0].findings[0].message, "tool not installed");
}

#[test]
fn unavailable_runner_is_not_called() {
    let _ = run_all(&[unavailable_runner()]);
}

#[test]
fn fail_fast_runs_sequentially_and_stops_on_first_failure() {
    let fakes = [fail_runner(Layer::Logic), pass_runner(Layer::Hostile, "hostile-runner")];
    let report = run(&orchestrator(&fakes).with_fail_fast(), &fakes).report;
    assert_eq!(report.layers.len(), 1);
    assert!(matches!(report.layers[0].status, LayerStatus::Fail));
}

#[test]
fn fail_fast_stops_on_any_layer_failure_not_just_logic() {
    let fakes = [
        pass_runner(Layer::Logic, "logic-pass"),
        fail_runner(Layer::Hostile),
        pass_runner(Layer::Structure, "struct-pass"),
    ];
    let report = run(&orchestrator(&fakes).with_fail_fast(), &fakes).report;
    assert_eq!(report.layers.len(), 2);
    assert!(report.layers.iter().any(|l| matches!(l.status, LayerStatus::Fail)));
    assert!(!report.layers.iter().any(|l| l.runner == "struct-pass"));
}

#[test]
fn without_fail_fast_all_runners_execute() {
    let fakes = [fail_runner(Layer::Logic), pass_runner(Layer::Hostile, "second-runner")];
    assert_eq!(run_all(&fakes).report.layers.len(), 2);
}

#[test]
fn results_are_sorted_by_layer_priority() {
    let fakes = [
        pass_runner(Layer::Hostile, "hostile-runner"),
        pass_runner(Layer::Logic, "logic-runner"),
    ];
    let report = run_all(&fakes).report;
    assert_eq!(report.layers[0].name, "logic");
    assert_eq!(report.layers[1].name, "hostile");
}

#[test]
fn structural_layer_is_cached_after_successful_run() {
    let ran = run_all(&[pass_runner(Layer::Structure, "mock-mutants")]);
    assert_eq!(ran.remembered, ["mock-mutants"]);
}

#[test]
fn logic_layer_is_not_cached() {
    assert!(run_all(&[pass_runner(Layer::Logic, "mock-proptest")]).remembered.is_empty());
}

#[test]
fn hostile_layer_is_not_cached() {
    assert!(run_all(&[pass_runner(Layer::Hostile, "mock-semgrep")]).remembered.is_empty());
}

#[test]
fn failed_structural_run_does_not_write_cache() {
    assert!(run_all(&[fail_runner(Layer::Structure)]).remembered.is_empty());
}

#[test]
fn cached_structural_layer_is_skipped() {
    let fakes = [Fake { cached: true, ..pass_runner(Layer::Structure, "mock-mutants") }];
    let report = run_all(&fakes).report;
    assert!(matches!(report.layers[0].status, LayerStatus::Skipped));
    assert_eq!(report.layers[0].findings[0].code, "CACHED");
}

#[test]
fn no_cache_flag_bypasses_cached_layer() {
    let fakes = [Fake { cached: true, ..pass_runner(Layer::Structure, "mock-mutants") }];
    let report = run(&orchestrator(&fakes).with_no_cache(), &fakes).report;
    assert!(matches!(report.layers[0].status, LayerStatus::Pass));
}

#[test]
fn runner_error_produces_fail_layer_with_failed_metric() {
    let report = run_all(&[error_runner()]).report;
    assert_eq!(report.layers.len(), 1);
    assert!(matches!(report.layers[0].status, LayerStatus::Fail));
    assert_eq!(report.layers[0].metrics.failed, 1);
    assert!(report.layers[0].findings[0].code.contains("RUNNER_FAILED"));
}

#[test]
fn logic_and_hostile_run_in_parallel() {
    let fakes =
        [pass_runner(Layer::Logic, "slow-logic"), pass_runner(Layer::Hostile, "slow-hostile")];
    match orchestrator(&fakes).next_step(&vec![]) {
        Step::Together(all) => {
            assert_eq!(all, [0, 1], "Logic and Hostile should run in parallel");
        }
        other => panic!("Logic and Hostile should run in parallel, not {other:?}"),
    }
}

#[test]
fn run_with_events_emits_started_and_completed_for_available_runner() {
    let ran = run_all(&[pass_runner(Layer::Logic, "mock-logic")]);
    let captured: Vec<String> = ran
        .events
        .iter()
        .map(|event| match event {
            RunnerEvent::Started { runner, layer } => format!("started:{}:{}", runner, layer),
            RunnerEvent::Completed { runner, layer, status, .. } => {
                format!("completed:{}:{}:{}", runner, layer, status)
            }
        })
        .collect();
    assert_eq!(captured.len(), 2, "expected exactly one started and one completed event");
    assert_eq!(captured[0], "started:mock-logic:logic");
    assert!(
        captured[1].starts_with("completed:mock-logic:logic:"),
        "completed event must carry status: {:?}",
        captured
    );
}

#[test]
fn run_with_events_started_comes_before_completed() {
    let ran = run_all(&[pass_runner(Layer::Logic, "mock-logic")]);
    let order: Vec<&str> = ran
        .events
        .iter()
        .map(|event| match event {
            RunnerEvent::Started { .. } => "started",
            RunnerEvent::Completed { .. } => "completed",
        })
        .collect();
    assert_eq!(order, vec!["started", "completed"]);
}

#[test]
fn run_with_events_no_events_for_unavailable_runner() {
    let ran = run_all(&[unavailable_runner()]);
    assert_eq!(ran.events.len(), 0, "unavailable runner must emit no events");
}

#[test]
fn run_with_events_completed_carries_duration_and_pass_status() {
    let ran = run_all(&[pass_runner(Layer::Logic, "mock-logic")]);
    let completed = ran.events.iter().find_map(|event| match event {
        RunnerEvent::Completed { status, duration_ms, .. } => Some((status.as_str(), *duration_ms)),
        _ => None,
    });
    let (status, duration) = completed.expect("completed event must fire");
    assert_eq!(status, "pass");
    assert_eq!(duration, 1);
}

#[test]
fn failed_logic_keeps_structural_runners_from_running() {
    let fakes = [
        pass_runner(Layer::Structure, "mutants"),
        fail_runner(Layer::Logic),
        pass_runner(Layer::Hostile, "scan"),
    ];
    let report = run_all(&fakes).report;
    assert_eq!(report.layers.len(), 2);
    assert!(!report.layers.iter().any(|l| l.runner == "mutants"));
}

#[test]
fn failed_scans_let_structural_runners_run() {
    let fakes = [fail_runner(Layer::Hostile), pass_runner(Layer::Structure, "mutants")];
    assert_eq!(run_all(&fakes).report.layers.len(), 2);
}

#[test]
fn layer_names_read_back() {
    for l in [Layer::Logic, Layer::Structure, Layer::Hostile, Layer::Operational] {
        assert_eq!(layer_from_str(l.as_str()), l);
    }
    assert!(layer_priority(Layer::Logic) < layer_priority(Layer::Hostile));
}

/// The actions that are asked for on the way to a runner's end.
fn actions(orch: &VerificationOrchestrator, f: &Fake) -> Vec<&'static str> {
    let mut progress = Progress::New;
    let mut asked = vec![];
    loop {
        let (word, next) = match orch.next_action(0, progress) {
            Action::AskAvailable => ("available?", Progress::Available(f.available)),
            Action::AskCached => ("cached?", Progress::Cached(f.cached)),
            Action::Start(_) => ("start", Progress::Started),
            Action::Run => ("run", Progress::Ran((f.outcome)(f.layer, f.name))),
            Action::Remember(l) => ("remember", Progress::Remembered(l)),
            Action::Complete(_, l) => ("complete", Progress::Completed(l)),
            Action::Finish(_) => return asked,
        };
        asked.push(word);
        progress = next;
    }
}

#[test]
fn structural_runner_is_remembered_before_its_end_is_announced() {
    let f = pass_runner(Layer::Structure, "mutants");
    let orch = orchestrator(&[pass_runner(Layer::Structure, "mutants")]);
    assert_eq!(
        actions(&orch, &f),
        ["available?", "cached?", "start", "run", "remember", "complete"]
    );
    let again = orchestrator(&[pass_runner(Layer::Structure, "mutants")]).with_no_cache();
    assert_eq!(actions(&again, &f), ["available?", "start", "run", "remember", "complete"]);
}

#[test]
fn other_runners_are_announced_run_and_announced() {
    for f in [pass_runner(Layer::Logic, "pytest"), fail_runner(Layer::Hostile), error_runner()] {
        let orch = orchestrator(std::slice::from_ref(&f));
        assert_eq!(actions(&orch, &f), ["available?", "start", "run", "complete"]);
    }
}

#[test]
fn skipped_runners_are_neither_announced_nor_run() {
    let absent = unavailable_runner();
    assert_eq!(actions(&orchestrator(std::slice::from_ref(&absent)), &absent), ["available?"]);
    let kept = Fake {
        name: "mutants",
        layer: Layer::Structure,
        available: true,
        cached: true,
        outcome: never,
    };
    let orch = orchestrator(std::slice::from_ref(&kept));
    assert_eq!(actions(&orch, &kept), ["available?", "cached?"]);
}
