//! Which runners run, in which order, and the report over their results.
//!
//! The orchestrator decides; the caller runs the runners that a step names and hands
//! back their results.
use vstd::prelude::*;

use crate::detect::ProjectInfo;
use crate::order;
use crate::order::{stable_order, Key};
use crate::plugin::Layer;
use crate::report;
use crate::report::{BarzelReport, Finding, LayerMetrics, LayerResult, LayerStatus, Severity};
use crate::text;

verus! {

/// What the orchestrator knows of a runner.
#[derive(Debug)]
pub struct RunnerInfo {
    pub name: String,
    pub layer: Layer,
    pub skip_message: String,
}

/// The result of the runner at a position.
#[derive(Debug)]
pub struct IndexedResult {
    pub index: usize,
    pub result: LayerResult,
}

/// What to do next.
#[derive(Debug)]
pub enum Step {
    /// Run these runners, at the same time if possible.
    Together(Vec<usize>),
    /// Run this runner.
    One(usize),
    /// Nothing is left to run.
    Done,
}

/// A progress event.
#[derive(Debug)]
pub enum RunnerEvent {
    /// Before a runner runs.
    Started { runner: String, layer: String },
    /// After a runner has run.
    Completed { runner: String, layer: String, status: String, duration_ms: u64 },
}

/// How far one runner has come.
#[derive(Debug)]
pub enum Progress {
    /// Nothing has happened.
    New,
    /// It is known whether the runner can run.
    Available(bool),
    /// It is known whether the source is that of the last run.
    Cached(bool),
    /// The start was announced.
    Started,
    /// The runner has run: its result, or why it broke.
    Ran(Result<LayerResult, String>),
    /// The source was remembered as verified.
    Remembered(LayerResult),
    /// The end was announced.
    Completed(LayerResult),
}

/// What to do next for one runner.
#[derive(Debug)]
pub enum Action {
    /// Find out whether the runner can run.
    AskAvailable,
    /// Find out whether the source is that of the last run.
    AskCached,
    /// Announce the start.
    Start(RunnerEvent),
    /// Run the runner.
    Run,
    /// Remember the source as verified. The result is the runner's.
    Remember(LayerResult),
    /// Announce the end. The result is the runner's.
    Complete(RunnerEvent, LayerResult),
    /// Nothing is left to do: this is the runner's result.
    Finish(LayerResult),
}

pub struct VerificationOrchestrator {
    pub runners: Vec<RunnerInfo>,
    pub no_cache: bool,
    pub fail_fast: bool,
}

// ── layers ──────────────────────────────────────────────────────────────────

/// Only structural layers are worth keeping: they are slow and depend on the source alone.
pub fn is_cacheable(layer: Layer) -> (r: bool)
    ensures
        r == (layer == Layer::Structure),
{
    layer == Layer::Structure
}

/// The place of a layer in a report.
pub open spec fn place_of(layer: Layer) -> u8 {
    match layer {
        Layer::Logic => 0,
        Layer::Structure => 1,
        Layer::Hostile => 2,
        Layer::Operational => 3,
    }
}

pub fn layer_priority(layer: Layer) -> (r: u8)
    ensures
        r == place_of(layer),
{
    match layer {
        Layer::Logic => 0,
        Layer::Structure => 1,
        Layer::Hostile => 2,
        Layer::Operational => 3,
    }
}

/// The layer that a text names; texts that name none stand for logic.
pub open spec fn layer_named(s: Seq<char>) -> Layer {
    if s == "logic"@ {
        Layer::Logic
    } else if s == "structural"@ {
        Layer::Structure
    } else if s == "hostile"@ {
        Layer::Hostile
    } else if s == "operational"@ {
        Layer::Operational
    } else {
        Layer::Logic
    }
}

pub fn layer_from_str(s: &str) -> (r: Layer)
    ensures
        r == layer_named(s@),
{
    if text::same(s, "logic") {
        Layer::Logic
    } else if text::same(s, "structural") {
        Layer::Structure
    } else if text::same(s, "hostile") {
        Layer::Hostile
    } else if text::same(s, "operational") {
        Layer::Operational
    } else {
        Layer::Logic
    }
}

/// A layer is the one that its own text names.
pub proof fn law_layer_names_read_back(layer: Layer)
    ensures
        layer_named(layer.text()) == layer,
{
    reveal_strlit("logic");
    reveal_strlit("structural");
    reveal_strlit("hostile");
    reveal_strlit("operational");
    assert("logic"@[0] != "structural"@[0] && "logic"@[0] != "hostile"@[0] && "logic"@[0]
        != "operational"@[0]);
    assert("structural"@[0] != "hostile"@[0] && "structural"@[0] != "operational"@[0]);
    assert("hostile"@[0] != "operational"@[0]);
}

// ── results that the orchestrator writes itself ─────────────────────────────

pub open spec fn plain_finding(
    severity: Severity,
    code: Seq<char>,
    message: Seq<char>,
) -> report::FindingV {
    report::FindingV {
        severity,
        code,
        message,
        location: None,
        reproduce_cmd: None,
        suggestion: None,
    }
}

/// The result of a runner that did not run.
pub open spec fn skipped_result(
    layer: Layer,
    runner: Seq<char>,
    code: Seq<char>,
    message: Seq<char>,
) -> report::LayerResultV {
    report::LayerResultV {
        name: layer.text(),
        runner,
        status: LayerStatus::Skipped,
        findings: seq![plain_finding(Severity::Info, code, message)],
        metrics: report::no_metrics(),
        duration_ms: 0,
    }
}

/// The result of a runner that broke.
pub open spec fn broken_result(
    layer: Layer,
    runner: Seq<char>,
    cause: Seq<char>,
) -> report::LayerResultV {
    report::LayerResultV {
        name: layer.text(),
        runner,
        status: LayerStatus::Fail,
        findings: seq![
            plain_finding(
                Severity::Critical,
                "RUNNER_FAILED"@,
                "Runner '"@ + runner + "' failed: "@ + cause,
            ),
        ],
        metrics: report::failed_metrics(),
        duration_ms: 0,
    }
}

fn one_finding(severity: Severity, code: &str, message: String) -> (r: Vec<Finding>)
    ensures
        report::findings_view(r@) == seq![plain_finding(severity, code@, message@)],
{
    let f = Finding {
        severity,
        code: code.to_string(),
        message,
        location: None,
        reproduce_cmd: None,
        suggestion: None,
    };
    let mut r: Vec<Finding> = Vec::new();
    r.push(f);
    assert(report::findings_view(r@) =~= seq![plain_finding(severity, code@, message@)]);
    r
}

// ── steps ───────────────────────────────────────────────────────────────────

/// The positions up to `n` of runners that are structural, or of those that are not.
pub open spec fn phase(runners: Seq<RunnerInfo>, structural: bool, n: int) -> Seq<int>
    decreases n,
{
    if n <= 0 {
        Seq::empty()
    } else {
        let before = phase(runners, structural, n - 1);
        if (runners[n - 1].layer == Layer::Structure) == structural {
            before.push(n - 1)
        } else {
            before
        }
    }
}

/// A logic layer failed.
pub open spec fn logic_failed(done: Seq<IndexedResult>) -> bool {
    exists|i: int|
        0 <= i < done.len() && (#[trigger] done[i]).result.status == LayerStatus::Fail
            && done[i].result.name@ == "logic"@
}

/// The model of a `Step`.
pub enum StepV {
    Together(Seq<int>),
    One(int),
    Done,
}

impl View for Step {
    type V = StepV;

    open spec fn view(&self) -> StepV {
        match *self {
            Step::Together(v) => StepV::Together(order::positions(v@)),
            Step::One(i) => StepV::One(i as int),
            Step::Done => StepV::Done,
        }
    }
}

/// What comes next. One after the other up to the first failure where failing fast; else
/// all runners that are not structural together, then, unless logic failed, the
/// structural ones one by one.
pub open spec fn step_after(
    runners: Seq<RunnerInfo>,
    fail_fast: bool,
    done: Seq<IndexedResult>,
) -> StepV {
    if fail_fast {
        if done.len() < runners.len() && (done.len() == 0 || done.last().result.status
            != LayerStatus::Fail) {
            StepV::One(done.len() as int)
        } else {
            StepV::Done
        }
    } else {
        let first = phase(runners, false, runners.len() as int);
        let second = phase(runners, true, runners.len() as int);
        if done.len() < first.len() {
            StepV::Together(first)
        } else if !logic_failed(done.subrange(0, first.len() as int)) && done.len() < first.len()
            + second.len() {
            StepV::One(second[done.len() - first.len()])
        } else {
            StepV::Done
        }
    }
}

proof fn lemma_phase(runners: Seq<RunnerInfo>, structural: bool, n: int)
    requires
        0 <= n <= runners.len(),
    ensures
        phase(runners, structural, n).len() <= n,
        forall|i: int|
            0 <= i < phase(runners, structural, n).len() ==> 0 <= #[trigger] phase(
                runners,
                structural,
                n,
            )[i] < n && (runners[phase(runners, structural, n)[i]].layer == Layer::Structure)
                == structural,
        forall|i: int, j: int|
            0 <= i < j < phase(runners, structural, n).len() ==> #[trigger] phase(
                runners,
                structural,
                n,
            )[i] < #[trigger] phase(runners, structural, n)[j],
        forall|k: int|
            0 <= k < n && (#[trigger] runners[k].layer == Layer::Structure) == structural ==> phase(
                runners,
                structural,
                n,
            ).contains(k),
    decreases n,
{
    if n > 0 {
        lemma_phase(runners, structural, n - 1);
        let before = phase(runners, structural, n - 1);
        let now = phase(runners, structural, n);
        assert forall|k: int|
            0 <= k < n && (#[trigger] runners[k].layer == Layer::Structure)
                == structural implies now.contains(k) by {
            if k < n - 1 {
                let i = choose|i: int| 0 <= i < before.len() && before[i] == k;
                assert(now[i] == k);
            } else {
                assert(now.last() == k);
            }
        }
    }
}

impl VerificationOrchestrator {
    pub fn new(runners: Vec<RunnerInfo>) -> (r: Self)
        ensures
            r.runners == runners,
            !r.no_cache,
            !r.fail_fast,
    {
        VerificationOrchestrator { runners, no_cache: false, fail_fast: false }
    }

    pub fn with_no_cache(self) -> (r: Self)
        ensures
            r.no_cache,
            r.runners == self.runners,
            r.fail_fast == self.fail_fast,
    {
        VerificationOrchestrator {
            runners: self.runners,
            no_cache: true,
            fail_fast: self.fail_fast,
        }
    }

    pub fn with_fail_fast(self) -> (r: Self)
        ensures
            r.fail_fast,
            r.runners == self.runners,
            r.no_cache == self.no_cache,
    {
        VerificationOrchestrator { runners: self.runners, no_cache: self.no_cache, fail_fast: true }
    }

    /// The positions of the runners that are structural, or of those that are not.
    fn positions_of(&self, structural: bool) -> (r: Vec<usize>)
        ensures
            order::positions(r@) == phase(self.runners@, structural, self.runners@.len() as int),
    {
        let mut r: Vec<usize> = Vec::new();
        let mut i: usize = 0;
        assert(order::positions(r@) =~= Seq::<int>::empty());
        while i < self.runners.len()
            invariant
                i <= self.runners@.len(),
                order::positions(r@) == phase(self.runners@, structural, i as int),
            decreases self.runners@.len() - i,
        {
            let ghost before = order::positions(r@);
            if (self.runners[i].layer == Layer::Structure) == structural {
                r.push(i);
                assert(order::positions(r@) =~= before.push(i as int));
            }
            i += 1;
        }
        r
    }

    /// What to do after the results so far, which came back in the order of the steps.
    pub fn next_step(&self, done: &Vec<IndexedResult>) -> (r: Step)
        ensures
            r@ == step_after(self.runners@, self.fail_fast, done@),
    {
        if self.fail_fast {
            let n = done.len();
            if n < self.runners.len() && (n == 0 || done[n - 1].result.status != LayerStatus::Fail) {
                return Step::One(n);
            }
            return Step::Done;
        }
        let first = self.positions_of(false);
        let second = self.positions_of(true);
        let ghost f = phase(self.runners@, false, self.runners@.len() as int);
        let ghost s = phase(self.runners@, true, self.runners@.len() as int);
        assert(first@.len() == f.len() && second@.len() == s.len());
        if done.len() < first.len() {
            return Step::Together(first);
        }
        let mut failed = false;
        let mut i: usize = 0;
        while i < first.len()
            invariant
                first@.len() <= done@.len(),
                i <= first@.len(),
                failed == logic_failed(done@.subrange(0, i as int)),
            decreases first@.len() - i,
        {
            let ghost front = done@.subrange(0, i as int);
            let ghost next = done@.subrange(0, i + 1);
            let own = done[i].result.status == LayerStatus::Fail && text::same(
                done[i].result.name.as_str(),
                "logic",
            );
            proof {
                assert(next =~= front.push(done@[i as int]));
                if logic_failed(front) {
                    let k = choose|k: int|
                        0 <= k < front.len() && (#[trigger] front[k]).result.status
                            == LayerStatus::Fail && front[k].result.name@ == "logic"@;
                    assert(next[k] == front[k]);
                }
                if own {
                    assert(next[i as int].result.name@ == "logic"@);
                }
                if logic_failed(next) && !own {
                    let k = choose|k: int|
                        0 <= k < next.len() && (#[trigger] next[k]).result.status
                            == LayerStatus::Fail && next[k].result.name@ == "logic"@;
                    assert(front[k] == next[k]);
                }
            }
            if own {
                failed = true;
            }
            i += 1;
        }
        let at: usize = done.len() - first.len();
        if !failed && at < second.len() {
            assert(s[at as int] == second@[at as int]);
            Step::One(second[at])
        } else {
            Step::Done
        }
    }

    fn unavailable(&self, index: usize) -> (r: LayerResult)
        requires
            index < self.runners@.len(),
        ensures
            r@ == unavailable_result(self.runners@[index as int]),
    {
        let runner = &self.runners[index];
        LayerResult {
            name: runner.layer.as_str().to_string(),
            runner: runner.name.clone(),
            status: LayerStatus::Skipped,
            findings: one_finding(
                Severity::Info,
                "RUNNER_UNAVAILABLE",
                runner.skip_message.clone(),
            ),
            metrics: LayerMetrics::none(),
            duration_ms: 0,
        }
    }

    fn unchanged(&self, index: usize) -> (r: LayerResult)
        requires
            index < self.runners@.len(),
        ensures
            r@ == unchanged_result(self.runners@[index as int]),
    {
        let runner = &self.runners[index];
        LayerResult {
            name: runner.layer.as_str().to_string(),
            runner: runner.name.clone(),
            status: LayerStatus::Skipped,
            findings: one_finding(
                Severity::Info,
                "CACHED",
                "Source unchanged since last run — using cached result".to_string(),
            ),
            metrics: LayerMetrics::none(),
            duration_ms: 0,
        }
    }

    /// What to do next for a runner. One that is not available, or whose source is that of
    /// its last run, ends at once. Any other is announced, runs, has its source remembered
    /// where `remembers` says so, and is announced again, in this order.
    pub fn next_action(&self, index: usize, progress: Progress) -> (r: Action)
        requires
            index < self.runners@.len(),
        ensures
            r@ == action_after(self.runners@[index as int], self.no_cache, progress@),
    {
        match progress {
            Progress::New => Action::AskAvailable,
            Progress::Available(false) => Action::Finish(self.unavailable(index)),
            Progress::Available(true) => if !self.no_cache && is_cacheable(
                self.runners[index].layer,
            ) {
                Action::AskCached
            } else {
                Action::Start(self.started(index))
            },
            Progress::Cached(true) => Action::Finish(self.unchanged(index)),
            Progress::Cached(false) => Action::Start(self.started(index)),
            Progress::Started => Action::Run,
            Progress::Ran(outcome) => {
                let kept = self.remembers(index, &outcome);
                let result = self.settle(index, outcome);
                if kept {
                    Action::Remember(result)
                } else {
                    Action::Complete(self.completed(index, &result), result)
                }
            },
            Progress::Remembered(result) => Action::Complete(
                self.completed(index, &result),
                result,
            ),
            Progress::Completed(result) => Action::Finish(result),
        }
    }

    /// The result of a runner that was run: its own, or, where it broke, a failure.
    pub fn settle(&self, index: usize, outcome: Result<LayerResult, String>) -> (r: LayerResult)
        requires
            index < self.runners@.len(),
        ensures
            r@ == settled_result(self.runners@[index as int], outcome_view(outcome)),
            outcome matches Ok(l) ==> r == l,
    {
        let runner = &self.runners[index];
        match outcome {
            Ok(l) => l,
            Err(e) => LayerResult {
                name: runner.layer.as_str().to_string(),
                runner: runner.name.clone(),
                status: LayerStatus::Fail,
                findings: one_finding(
                    Severity::Critical,
                    "RUNNER_FAILED",
                    text::cat4("Runner '", runner.name.as_str(), "' failed: ", e.as_str()),
                ),
                metrics: LayerMetrics::one_failure(),
                duration_ms: 0,
            },
        }
    }

    /// Whether a runner's source is to be remembered as verified: it is structural, was
    /// run, did not break and did not fail.
    pub fn remembers(&self, index: usize, outcome: &Result<LayerResult, String>) -> (r: bool)
        requires
            index < self.runners@.len(),
        ensures
            r == is_remembered(self.runners@[index as int], outcome_view(*outcome)),
    {
        is_cacheable(self.runners[index].layer) && match outcome {
            Ok(l) => l.status != LayerStatus::Fail,
            Err(_) => false,
        }
    }

    /// The event before a runner runs.
    pub fn started(&self, index: usize) -> (r: RunnerEvent)
        requires
            index < self.runners@.len(),
        ensures
            r@ == started_event(self.runners@[index as int]),
    {
        let info = &self.runners[index];
        RunnerEvent::Started { runner: info.name.clone(), layer: info.layer.as_str().to_string() }
    }

    /// The event after a runner has run.
    pub fn completed(&self, index: usize, result: &LayerResult) -> (r: RunnerEvent)
        requires
            index < self.runners@.len(),
        ensures
            r@ == completed_event(self.runners@[index as int], result@),
    {
        let info = &self.runners[index];
        let status = match result.status {
            LayerStatus::Pass => "pass",
            LayerStatus::Partial => "partial",
            LayerStatus::Fail => "fail",
            LayerStatus::Skipped => "skipped",
        };
        RunnerEvent::Completed {
            runner: info.name.clone(),
            layer: info.layer.as_str().to_string(),
            status: status.to_string(),
            duration_ms: result.duration_ms,
        }
    }
}

pub open spec fn status_word(s: LayerStatus) -> Seq<char> {
    match s {
        LayerStatus::Pass => "pass"@,
        LayerStatus::Partial => "partial"@,
        LayerStatus::Fail => "fail"@,
        LayerStatus::Skipped => "skipped"@,
    }
}

// ── one runner ──────────────────────────────────────────────────────────────

/// The model of a `RunnerEvent`.
pub enum RunnerEventV {
    Started { runner: Seq<char>, layer: Seq<char> },
    Completed { runner: Seq<char>, layer: Seq<char>, status: Seq<char>, duration_ms: u64 },
}

impl View for RunnerEvent {
    type V = RunnerEventV;

    open spec fn view(&self) -> RunnerEventV {
        match *self {
            RunnerEvent::Started { runner, layer } => RunnerEventV::Started {
                runner: runner@,
                layer: layer@,
            },
            RunnerEvent::Completed { runner, layer, status, duration_ms } =>
            RunnerEventV::Completed {
                runner: runner@,
                layer: layer@,
                status: status@,
                duration_ms,
            },
        }
    }
}

/// The model of what came of a run.
pub type OutcomeV = Result<report::LayerResultV, Seq<char>>;

pub open spec fn outcome_view(o: Result<LayerResult, String>) -> OutcomeV {
    match o {
        Ok(l) => Ok(l@),
        Err(e) => Err(e@),
    }
}

/// The model of a `Progress`.
pub enum ProgressV {
    New,
    Available(bool),
    Cached(bool),
    Started,
    Ran(OutcomeV),
    Remembered(report::LayerResultV),
    Completed(report::LayerResultV),
}

impl View for Progress {
    type V = ProgressV;

    open spec fn view(&self) -> ProgressV {
        match *self {
            Progress::New => ProgressV::New,
            Progress::Available(b) => ProgressV::Available(b),
            Progress::Cached(b) => ProgressV::Cached(b),
            Progress::Started => ProgressV::Started,
            Progress::Ran(o) => ProgressV::Ran(outcome_view(o)),
            Progress::Remembered(l) => ProgressV::Remembered(l@),
            Progress::Completed(l) => ProgressV::Completed(l@),
        }
    }
}

/// The model of an `Action`.
pub enum ActionV {
    AskAvailable,
    AskCached,
    Start(RunnerEventV),
    Run,
    Remember(report::LayerResultV),
    Complete(RunnerEventV, report::LayerResultV),
    Finish(report::LayerResultV),
}

impl View for Action {
    type V = ActionV;

    open spec fn view(&self) -> ActionV {
        match *self {
            Action::AskAvailable => ActionV::AskAvailable,
            Action::AskCached => ActionV::AskCached,
            Action::Start(e) => ActionV::Start(e@),
            Action::Run => ActionV::Run,
            Action::Remember(l) => ActionV::Remember(l@),
            Action::Complete(e, l) => ActionV::Complete(e@, l@),
            Action::Finish(l) => ActionV::Finish(l@),
        }
    }
}

/// The result of a runner that is not available.
pub open spec fn unavailable_result(info: RunnerInfo) -> report::LayerResultV {
    skipped_result(info.layer, info.name@, "RUNNER_UNAVAILABLE"@, info.skip_message@)
}

/// The result of a runner whose source is that of its last run.
pub open spec fn unchanged_result(info: RunnerInfo) -> report::LayerResultV {
    skipped_result(
        info.layer,
        info.name@,
        "CACHED"@,
        "Source unchanged since last run — using cached result"@,
    )
}

/// The result of a runner that was run.
pub open spec fn settled_result(info: RunnerInfo, o: OutcomeV) -> report::LayerResultV {
    match o {
        Ok(l) => l,
        Err(e) => broken_result(info.layer, info.name@, e),
    }
}

/// The source of the runner is to be remembered as verified.
pub open spec fn is_remembered(info: RunnerInfo, o: OutcomeV) -> bool {
    info.layer == Layer::Structure && match o {
        Ok(l) => l.status != LayerStatus::Fail,
        Err(_) => false,
    }
}

pub open spec fn started_event(info: RunnerInfo) -> RunnerEventV {
    RunnerEventV::Started { runner: info.name@, layer: info.layer.text() }
}

pub open spec fn completed_event(info: RunnerInfo, l: report::LayerResultV) -> RunnerEventV {
    RunnerEventV::Completed {
        runner: info.name@,
        layer: info.layer.text(),
        status: status_word(l.status),
        duration_ms: l.duration_ms,
    }
}

/// What to do next for a runner that has come so far.
pub open spec fn action_after(info: RunnerInfo, no_cache: bool, p: ProgressV) -> ActionV {
    match p {
        ProgressV::New => ActionV::AskAvailable,
        ProgressV::Available(available) => if !available {
            ActionV::Finish(unavailable_result(info))
        } else if !no_cache && info.layer == Layer::Structure {
            ActionV::AskCached
        } else {
            ActionV::Start(started_event(info))
        },
        ProgressV::Cached(cached) => if cached {
            ActionV::Finish(unchanged_result(info))
        } else {
            ActionV::Start(started_event(info))
        },
        ProgressV::Started => ActionV::Run,
        ProgressV::Ran(o) => {
            let l = settled_result(info, o);
            if is_remembered(info, o) {
                ActionV::Remember(l)
            } else {
                ActionV::Complete(completed_event(info, l), l)
            }
        },
        ProgressV::Remembered(l) => ActionV::Complete(completed_event(info, l), l),
        ProgressV::Completed(l) => ActionV::Finish(l),
    }
}

/// A runner has come to `q` by the action.
pub open spec fn is_done_by(a: ActionV, q: ProgressV) -> bool {
    match a {
        ActionV::AskAvailable => q is Available,
        ActionV::AskCached => q is Cached,
        ActionV::Start(_) => q is Started,
        ActionV::Run => q is Ran,
        ActionV::Remember(l) => q == ProgressV::Remembered(l),
        ActionV::Complete(_, l) => q == ProgressV::Completed(l),
        ActionV::Finish(_) => false,
    }
}

/// How far a runner came after each of the actions that were asked for.
pub open spec fn is_course(info: RunnerInfo, no_cache: bool, course: Seq<ProgressV>) -> bool {
    &&& course.len() > 0
    &&& course[0] is New
    &&& forall|i: int|
        0 < i < course.len() ==> is_done_by(
            action_after(info, no_cache, course[i - 1]),
            #[trigger] course[i],
        )
}

pub open spec fn stage(p: ProgressV) -> int {
    match p {
        ProgressV::New => 0,
        ProgressV::Available(_) => 1,
        ProgressV::Cached(_) => 2,
        ProgressV::Started => 3,
        ProgressV::Ran(_) => 4,
        ProgressV::Remembered(_) => 5,
        ProgressV::Completed(_) => 6,
    }
}

/// A runner never comes to a stage twice, nor back to an earlier one.
pub proof fn law_runner_goes_in_order(
    info: RunnerInfo,
    no_cache: bool,
    course: Seq<ProgressV>,
    i: int,
    j: int,
)
    requires
        is_course(info, no_cache, course),
        0 <= i < j < course.len(),
    ensures
        stage(course[i]) < stage(course[j]),
    decreases j,
{
    assert(is_done_by(action_after(info, no_cache, course[j - 1]), course[j]));
    if i < j - 1 {
        law_runner_goes_in_order(info, no_cache, course, i, j - 1);
    }
}

/// A runner that is at its end was announced, run, remembered where that is due, and
/// announced again; or it was skipped, and neither announced nor run.
pub proof fn law_runner_ends_announced_or_skipped(
    info: RunnerInfo,
    no_cache: bool,
    course: Seq<ProgressV>,
)
    requires
        is_course(info, no_cache, course),
        action_after(info, no_cache, course.last()) is Finish,
    ensures
        match course.last() {
            ProgressV::Completed(l) => exists|k: int, o: OutcomeV|
                0 < k < course.len() - 1 && course[k - 1] is Started && #[trigger] course[k]
                    == ProgressV::Ran(o) && l == #[trigger] settled_result(info, o) && (
                if is_remembered(info, o) {
                    k + 3 == course.len() && course[k + 1] == ProgressV::Remembered(l)
                } else {
                    k + 2 == course.len()
                }),
            _ => forall|i: int|
                0 <= i < course.len() ==> !(#[trigger] course[i] is Started) && !(
                course[i] is Ran),
        },
{
    let n = course.len() as int;
    let last = course.last();
    if last is Completed {
        assert(is_done_by(action_after(info, no_cache, course[n - 2]), course[n - 1]));
        let k = if course[n - 2] is Remembered {
            n - 3
        } else {
            n - 2
        };
        if course[n - 2] is Remembered {
            assert(is_done_by(action_after(info, no_cache, course[n - 3]), course[n - 2]));
        }
        assert(is_done_by(action_after(info, no_cache, course[k - 1]), course[k]));
        match course[k] {
            ProgressV::Ran(o) => {
                assert(course[k] == ProgressV::Ran(o));
            },
            _ => {},
        }
    } else {
        assert forall|i: int| 0 <= i < n implies !(#[trigger] course[i] is Started) && !(
        course[i] is Ran) by {
            if i < n - 1 {
                law_runner_goes_in_order(info, no_cache, course, i, n - 1);
            }
        }
    }
}

// ── histories ───────────────────────────────────────────────────────────────

/// Results that came back from the steps that the orchestrator named.
pub open spec fn is_history(
    runners: Seq<RunnerInfo>,
    fail_fast: bool,
    done: Seq<IndexedResult>,
) -> bool {
    if fail_fast {
        &&& done.len() <= runners.len()
        &&& forall|i: int| 0 <= i < done.len() ==> (#[trigger] done[i]).index == i
        &&& forall|i: int|
            0 <= i < done.len() - 1 ==> (#[trigger] done[i]).result.status != LayerStatus::Fail
    } else {
        let first = phase(runners, false, runners.len() as int);
        let second = phase(runners, true, runners.len() as int);
        &&& done.len() == 0 || first.len() <= done.len() <= first.len() + second.len()
        &&& forall|i: int|
            0 <= i < done.len() ==> (#[trigger] done[i]).index == (first + second)[i]
        &&& done.len() > first.len() ==> !logic_failed(done.subrange(0, first.len() as int))
    }
}

/// The history before anything ran, and after any result of a step that runs one runner.
pub proof fn law_history_goes_on(
    runners: Seq<RunnerInfo>,
    fail_fast: bool,
    done: Seq<IndexedResult>,
    next: IndexedResult,
)
    requires
        is_history(runners, fail_fast, done),
        step_after(runners, fail_fast, done) == StepV::One(next.index as int),
    ensures
        is_history(runners, fail_fast, Seq::empty()),
        is_history(runners, fail_fast, done.push(next)),
{
    let first = phase(runners, false, runners.len() as int);
    let now = done.push(next);
    if !fail_fast {
        assert(now.subrange(0, first.len() as int) =~= done.subrange(0, first.len() as int));
    }
}

/// The history after any results of the step that runs several runners.
pub proof fn law_history_starts_together(
    runners: Seq<RunnerInfo>,
    indices: Seq<int>,
    results: Seq<IndexedResult>,
)
    requires
        step_after(runners, false, Seq::empty()) == StepV::Together(indices),
        results.len() == indices.len(),
        forall|i: int| 0 <= i < results.len() ==> (#[trigger] results[i]).index == indices[i],
    ensures
        is_history(runners, false, results),
{
}

/// Failing fast, nothing runs after a failure, and without a failure everything runs.
pub proof fn law_fail_fast_stops_at_first_failure(
    runners: Seq<RunnerInfo>,
    done: Seq<IndexedResult>,
)
    requires
        is_history(runners, true, done),
    ensures
        step_after(runners, true, done) is Done <==> done.len() == runners.len() || (done.len() > 0
            && done.last().result.status == LayerStatus::Fail),
        forall|i: int|
            0 <= i < done.len() && (#[trigger] done[i]).result.status == LayerStatus::Fail ==> i
                == done.len() - 1,
{
}

/// Not failing fast, every runner that is not structural has run at the end; the
/// structural ones have run exactly where no logic layer failed.
pub proof fn law_parallel_run_is_complete(
    runners: Seq<RunnerInfo>,
    done: Seq<IndexedResult>,
    k: int,
)
    requires
        is_history(runners, false, done),
        step_after(runners, false, done) is Done,
        0 <= k < runners.len(),
    ensures
        (exists|i: int| 0 <= i < done.len() && (#[trigger] done[i]).index == k) <==> (
        runners[k].layer != Layer::Structure || !logic_failed(
            done.subrange(0, phase(runners, false, runners.len() as int).len() as int),
        )),
        forall|i: int, j: int|
            0 <= i < j < done.len() ==> (#[trigger] done[i]).index != (#[trigger] done[j]).index,
{
    let n = runners.len() as int;
    let first = phase(runners, false, n);
    let second = phase(runners, true, n);
    lemma_phase(runners, false, n);
    lemma_phase(runners, true, n);
    let failed = logic_failed(done.subrange(0, first.len() as int));
    if runners[k].layer != Layer::Structure {
        let i = choose|i: int| 0 <= i < first.len() && first[i] == k;
        assert((first + second)[i] == k);
        assert(done[i].index == k);
    } else {
        let i = choose|i: int| 0 <= i < second.len() && second[i] == k;
        if !failed {
            assert((first + second)[first.len() + i] == k);
            assert(done[first.len() + i].index == k);
        } else {
            assert(done.len() == first.len());
            assert forall|j: int| 0 <= j < done.len() implies (#[trigger] done[j]).index != k by {
                assert((first + second)[j] == first[j]);
                assert(runners[first[j]].layer != Layer::Structure);
            }
        }
    }
    assert forall|i: int, j: int| 0 <= i < j < done.len() implies (#[trigger] done[i]).index != (
    #[trigger] done[j]).index by {
        if j < first.len() {
            assert(first[i] < first[j]);
        } else if i >= first.len() {
            assert(second[i - first.len()] < second[j - first.len()]);
        } else {
            assert(runners[first[i]].layer != Layer::Structure);
            assert(runners[second[j - first.len()]].layer == Layer::Structure);
        }
    }
}

// ── the report over the results ─────────────────────────────────────────────

/// The model of an `IndexedResult`.
pub struct IndexedResultV {
    pub index: int,
    pub result: report::LayerResultV,
}

impl View for IndexedResult {
    type V = IndexedResultV;

    open spec fn view(&self) -> IndexedResultV {
        IndexedResultV { index: self.index as int, result: self.result@ }
    }
}

pub open spec fn results_view(v: Seq<IndexedResult>) -> Seq<IndexedResultV> {
    v.map_values(|r: IndexedResult| r@)
}

/// Layers in their places, the runners of a layer as they were listed.
pub open spec fn result_key(r: IndexedResultV) -> order::KeyV {
    order::KeyV {
        major: place_of(layer_named(r.result.name)) as int,
        minor: r.index,
        texts: Seq::empty(),
    }
}

/// `sorted` holds the results in the order in which a report lists them.
pub open spec fn is_report_order(
    sorted: Seq<IndexedResultV>,
    results: Seq<IndexedResultV>,
) -> bool {
    order::is_stable_sort(sorted, results, |x: IndexedResultV| result_key(x))
}

/// How many findings the results have in all.
pub open spec fn findings_in_all(v: Seq<IndexedResult>) -> nat
    decreases v.len(),
{
    if v.len() == 0 {
        0
    } else {
        findings_in_all(v.drop_last()) + v.last().result.findings@.len()
    }
}

/// How many findings the results at some positions have.
spec fn findings_at(v: Seq<IndexedResult>, at: Seq<int>) -> nat
    decreases at.len(),
{
    if at.len() == 0 {
        0
    } else {
        findings_at(v, at.drop_last()) + v[at.last()].result.findings@.len()
    }
}

proof fn lemma_findings_at_remove(v: Seq<IndexedResult>, at: Seq<int>, p: int)
    requires
        0 <= p < at.len(),
    ensures
        findings_at(v, at) == findings_at(v, at.remove(p)) + v[at[p]].result.findings@.len(),
    decreases at.len(),
{
    if p == at.len() - 1 {
        assert(at.remove(p) =~= at.drop_last());
    } else {
        lemma_findings_at_remove(v, at.drop_last(), p);
        assert(at.remove(p).drop_last() =~= at.drop_last().remove(p));
        assert(at.remove(p).last() == at.last());
    }
}

/// Different positions have no more findings than all positions.
proof fn lemma_findings_at_bound(v: Seq<IndexedResult>, at: Seq<int>)
    requires
        at.no_duplicates(),
        forall|i: int| 0 <= i < at.len() ==> 0 <= #[trigger] at[i] < v.len(),
    ensures
        findings_at(v, at) <= findings_in_all(v),
    decreases v.len(),
{
    if v.len() == 0 {
        if at.len() > 0 {
            assert(0 <= at[0] < v.len());
        }
    } else {
        let last = v.len() - 1;
        let front = v.drop_last();
        if at.contains(last) {
            let p = choose|p: int| 0 <= p < at.len() && at[p] == last;
            lemma_findings_at_remove(v, at, p);
            let rest = at.remove(p);
            assert forall|i: int| 0 <= i < rest.len() implies 0 <= #[trigger] rest[i] < front.len() by {
                let k = if i < p { i } else { i + 1 };
                assert(rest[i] == at[k]);
                assert(at[k] != at[p]);
            }
            assert(rest.no_duplicates()) by {
                assert forall|i: int, j: int|
                    0 <= i < rest.len() && 0 <= j < rest.len() && i != j implies rest[i] != rest[j] by {
                    let a = if i < p { i } else { i + 1 };
                    let b = if j < p { j } else { j + 1 };
                    assert(at[a] != at[b]);
                }
            }
            lemma_findings_at_bound(front, rest);
            lemma_findings_at_front(v, front, rest);
        } else {
            assert forall|i: int| 0 <= i < at.len() implies 0 <= #[trigger] at[i] < front.len() by {
                assert(at[i] != last);
            }
            lemma_findings_at_bound(front, at);
            lemma_findings_at_front(v, front, at);
        }
    }
}

proof fn lemma_findings_at_front(v: Seq<IndexedResult>, front: Seq<IndexedResult>, at: Seq<int>)
    requires
        front.len() <= v.len(),
        forall|i: int| 0 <= i < front.len() ==> front[i] == v[i],
        forall|i: int| 0 <= i < at.len() ==> 0 <= #[trigger] at[i] < front.len(),
    ensures
        findings_at(v, at) == findings_at(front, at),
    decreases at.len(),
{
    if at.len() > 0 {
        assert forall|i: int| 0 <= i < at.drop_last().len() implies 0 <= #[trigger] at.drop_last()[i]
            < front.len() by {
            assert(at.drop_last()[i] == at[i]);
        }
        lemma_findings_at_front(v, front, at.drop_last());
        assert(0 <= at[at.len() - 1] < front.len());
    }
}

proof fn lemma_findings_at_grows(v: Seq<IndexedResult>, at: Seq<int>, n: int)
    requires
        0 <= n <= at.len(),
    ensures
        findings_at(v, at.subrange(0, n)) <= findings_at(v, at),
    decreases at.len(),
{
    if n == at.len() {
        assert(at.subrange(0, n) =~= at);
    } else {
        lemma_findings_at_grows(v, at.drop_last(), n);
        assert(at.drop_last().subrange(0, n) =~= at.subrange(0, n));
    }
}

fn copy_findings(v: &Vec<Finding>) -> (r: Vec<Finding>)
    ensures
        r@ == v@,
{
    let mut r: Vec<Finding> = Vec::new();
    let mut i: usize = 0;
    while i < v.len()
        invariant
            i <= v@.len(),
            r@ == v@.subrange(0, i as int),
        decreases v@.len() - i,
    {
        r.push(v[i].clone());
        i += 1;
    }
    r
}

pub(crate) fn copy_layer(l: &LayerResult) -> (r: LayerResult)
    ensures
        r@ == l@,
        r.findings@ == l.findings@,
{
    LayerResult {
        name: l.name.clone(),
        runner: l.runner.clone(),
        status: l.status,
        findings: copy_findings(&l.findings),
        metrics: l.metrics,
        duration_ms: l.duration_ms,
    }
}

impl VerificationOrchestrator {
    /// The report over the results of all steps: the layers in their places, counted.
    pub fn report(&self, project: ProjectInfo, done: &Vec<IndexedResult>) -> (r: BarzelReport)
        requires
            findings_in_all(done@) <= usize::MAX,
            forall|i: int| 0 <= i < done@.len() ==> (#[trigger] done@[i]).index <= i64::MAX,
        ensures
            r.is_counted(),
            r.project == project,
            r.fail_on@ == "high"@,
            r.workspace_members@.len() == 0,
            r.diff_since is None,
            r.diff_changed_files is None,
            r.diff_fallback_reason is None,
            exists|sorted: Seq<IndexedResultV>|
                #[trigger] is_report_order(sorted, results_view(done@)) && report::layers_view(r.layers@) == sorted.map_values(
                    |x: IndexedResultV| x.result,
                ),
    {
        let ghost key = |x: IndexedResultV| result_key(x);
        let mut keys: Vec<Key> = Vec::new();
        let mut i: usize = 0;
        while i < done.len()
            invariant
                i <= done@.len(),
                forall|k: int| 0 <= k < done@.len() ==> (#[trigger] done@[k]).index <= i64::MAX,
                keys@.len() == i,
                forall|k: int| 0 <= k < i ==> (#[trigger] keys@[k])@ == result_key(done@[k]@),
            decreases done@.len() - i,
        {
            let texts: Vec<String> = Vec::new();
            assert(text::views(texts@) =~= Seq::<Seq<char>>::empty());
            assert(done@[i as int].index <= i64::MAX);
            keys.push(
                Key {
                    major: layer_priority(layer_from_str(done[i].result.name.as_str())) as i64,
                    minor: done[i].index as i64,
                    texts,
                },
            );
            i += 1;
        }
        let order = stable_order(&keys);
        let ghost o = order::positions(order@);
        let ghost source = results_view(done@);
        proof {
            assert(order::keys_of(keys@) =~= source.map_values(key));
            order::lemma_stable_order_distinct(o, source.map_values(key));
            assert forall|k: int| 0 <= k < o.len() implies 0 <= #[trigger] o[k] < done@.len() by {
                assert(0 <= o[k] < source.map_values(key).len());
            }
            lemma_findings_at_bound(done@, o);
        }
        let mut r = BarzelReport::new(project);
        let mut j: usize = 0;
        assert(o.subrange(0, 0) =~= Seq::<int>::empty());
        while j < order.len()
            invariant
                j <= order@.len(),
                o == order::positions(order@),
                forall|k: int| 0 <= k < o.len() ==> 0 <= #[trigger] o[k] < done@.len(),
                findings_at(done@, o) <= usize::MAX,
                r.is_counted(),
                r.project == project,
                r.fail_on@ == "high"@,
                r.workspace_members@.len() == 0,
                r.diff_since is None,
                r.diff_changed_files is None,
                r.diff_fallback_reason is None,
                r.layers@.len() == j,
                report::total(r.layers@) == findings_at(done@, o.subrange(0, j as int)),
                forall|k: int| 0 <= k < j ==> (#[trigger] r.layers@[k])@ == done@[o[k]].result@,
            decreases order@.len() - j,
        {
            assert(0 <= o[j as int] < done@.len());
            let layer = copy_layer(&done[order[j]].result);
            proof {
                let next = o.subrange(0, j + 1);
                assert(next.drop_last() =~= o.subrange(0, j as int));
                assert(next.last() == o[j as int]);
                lemma_findings_at_grows(done@, o, j + 1);
                report::lemma_room(r, layer);
            }
            let ghost before = r.layers@;
            r.add_layer(layer);
            assert(r.layers@.drop_last() =~= before);
            j += 1;
        }
        proof {
            let sorted = Seq::new(o.len(), |k: int| source[o[k]]);
            assert(o.subrange(0, j as int) =~= o);
            assert(order::is_stable_sort(sorted, source, key));
            assert(is_report_order(sorted, source));
            assert forall|k: int| 0 <= k < r.layers@.len() implies report::layers_view(r.layers@)[k]
                == sorted[k].result by {
                assert(0 <= o[k] < done@.len());
                assert(r.layers@[k]@ == done@[o[k]].result@);
            }
            assert(report::layers_view(r.layers@) =~= sorted.map_values(
                |x: IndexedResultV| x.result,
            ));
        }
        r
    }
}

// ── laws of the steps ───────────────────────────────────────────────────────

/// How many of the first `n` runners are not structural.
pub open spec fn others(runners: Seq<RunnerInfo>, n: int) -> nat {
    runners.subrange(0, n).filter(|r: RunnerInfo| r.layer != Layer::Structure).len()
}

proof fn lemma_phase_counts(runners: Seq<RunnerInfo>, n: int)
    requires
        0 <= n <= runners.len(),
    ensures
        phase(runners, false, n).len() == others(runners, n),
        phase(runners, true, n).len() == n - others(runners, n),
    decreases n,
{
    let f = |r: RunnerInfo| r.layer != Layer::Structure;
    let front = runners.subrange(0, n);
    reveal(Seq::filter);
    if n > 0 {
        lemma_phase_counts(runners, n - 1);
        assert(front.drop_last() =~= runners.subrange(0, n - 1));
        assert(front.last() == runners[n - 1]);
    }
}

proof fn lemma_phase_place(runners: Seq<RunnerInfo>, structural: bool, n: int, j: int)
    requires
        0 <= n <= runners.len(),
        0 <= j < phase(runners, structural, n).len(),
    ensures
        0 <= phase(runners, structural, n)[j] < n,
        (runners[phase(runners, structural, n)[j]].layer == Layer::Structure) == structural,
        phase(runners, structural, phase(runners, structural, n)[j]).len() == j,
    decreases n,
{
    let before = phase(runners, structural, n - 1);
    if j < before.len() {
        lemma_phase_place(runners, structural, n - 1, j);
    }
}

/// Not failing fast, as long as results of runners that are not structural are missing, all
/// of these are to run together, in the order in which they are listed.
pub proof fn law_all_others_run_together(
    runners: Seq<RunnerInfo>,
    done: Seq<IndexedResult>,
    together: Seq<int>,
    k: int,
)
    requires
        done.len() < others(runners, runners.len() as int),
    ensures
        step_after(runners, false, done) is Together,
        step_after(runners, false, done) == StepV::Together(together) ==> (together.contains(k)
            <==> 0 <= k < runners.len() && runners[k].layer != Layer::Structure) && (forall|
            i: int,
            j: int,
        |
            0 <= i < j < together.len() ==> #[trigger] together[i] < #[trigger] together[j]),
{
    let n = runners.len() as int;
    lemma_phase_counts(runners, n);
    lemma_phase(runners, false, n);
    let first = phase(runners, false, n);
    if first.contains(k) {
        let i = choose|i: int| 0 <= i < first.len() && first[i] == k;
        assert(0 <= first[i] < n);
    }
}

/// Not failing fast, once all other runners have results, of which none is of a logic layer
/// that failed, the structural runners run one by one in the order in which they are
/// listed. A logic layer that passed, is partial or was skipped keeps none from running.
pub proof fn law_structural_runners_follow(
    runners: Seq<RunnerInfo>,
    done: Seq<IndexedResult>,
    k: int,
)
    requires
        0 <= k < runners.len(),
        runners[k].layer == Layer::Structure,
        done.len() == others(runners, runners.len() as int) + (k - others(runners, k)),
        forall|i: int|
            0 <= i < others(runners, runners.len() as int)
                && (#[trigger] done[i]).result.name@ == "logic"@ ==> done[i].result.status
                == LayerStatus::Pass || done[i].result.status == LayerStatus::Partial
                || done[i].result.status == LayerStatus::Skipped,
    ensures
        step_after(runners, false, done) == StepV::One(k),
{
    let n = runners.len() as int;
    lemma_phase_counts(runners, n);
    lemma_phase_counts(runners, k);
    lemma_phase(runners, true, n);
    let (first, second) = (phase(runners, false, n), phase(runners, true, n));
    let front = done.subrange(0, first.len() as int);
    assert(!logic_failed(front)) by {
        if logic_failed(front) {
            let i = choose|i: int|
                0 <= i < front.len() && (#[trigger] front[i]).result.name@ == "logic"@
                    && front[i].result.status == LayerStatus::Fail;
            assert(done[i] == front[i]);
        }
    }
    assert(second.contains(k));
    let j = choose|j: int| 0 <= j < second.len() && second[j] == k;
    lemma_phase_place(runners, true, n, j);
    assert(phase(runners, true, k).len() == j);
}

/// Not failing fast, once all other runners have results, nothing more runs where one of
/// them is of a logic layer that failed, nor once the structural runners have run.
pub proof fn law_failed_logic_ends_the_run(
    runners: Seq<RunnerInfo>,
    done: Seq<IndexedResult>,
    i: int,
)
    requires
        done.len() >= others(runners, runners.len() as int),
        (0 <= i < others(runners, runners.len() as int) && done[i].result.name@ == "logic"@
            && done[i].result.status == LayerStatus::Fail) || done.len() >= runners.len(),
    ensures
        step_after(runners, false, done) is Done,
{
    let n = runners.len() as int;
    lemma_phase_counts(runners, n);
    let first = phase(runners, false, n);
    let front = done.subrange(0, first.len() as int);
    if 0 <= i < first.len() && done[i].result.name@ == "logic"@ && done[i].result.status
        == LayerStatus::Fail {
        assert(front[i] == done[i]);
        assert(logic_failed(front));
    }
}

/// Failing fast, the next runner is the next that is listed, unless the last result is a
/// failure.
pub proof fn law_fail_fast_takes_the_next(runners: Seq<RunnerInfo>, done: Seq<IndexedResult>)
    requires
        done.len() < runners.len(),
        done.len() > 0 ==> done.last().result.status == LayerStatus::Pass
            || done.last().result.status == LayerStatus::Partial || done.last().result.status
            == LayerStatus::Skipped,
    ensures
        step_after(runners, true, done) == StepV::One(done.len() as int),
{
}

/// A runner that is not available is reported as skipped, with the reason that it gives
/// itself; one whose source did not change since its last run as skipped and cached. Only
/// structural runners are asked whether their source changed, and none without the cache.
pub proof fn law_what_is_skipped(info: RunnerInfo, no_cache: bool)
    ensures
        action_after(info, no_cache, ProgressV::Available(false)) matches ActionV::Finish(l)
            && l.name == info.layer.text() && l.runner == info.name@ && l.status
            == LayerStatus::Skipped && l.findings.len() == 1 && l.findings[0].severity
            == Severity::Info && l.findings[0].code == "RUNNER_UNAVAILABLE"@
            && l.findings[0].message == info.skip_message@,
        action_after(info, no_cache, ProgressV::Cached(true)) matches ActionV::Finish(l) && l.name
            == info.layer.text() && l.runner == info.name@ && l.status == LayerStatus::Skipped
            && l.findings.len() == 1 && l.findings[0].severity == Severity::Info
            && l.findings[0].code == "CACHED"@,
        action_after(info, no_cache, ProgressV::Available(true)) is AskCached <==> !no_cache
            && info.layer == Layer::Structure,
        action_after(info, no_cache, ProgressV::Available(true)) is AskCached || action_after(
            info,
            no_cache,
            ProgressV::Available(true),
        ) is Start,
        action_after(info, no_cache, ProgressV::Cached(false)) is Start,
{
}

/// After a run the source is remembered exactly where the runner is structural, did not
/// break and did not fail. A runner that broke counts as failed, with one critical finding
/// that gives the cause.
pub proof fn law_what_comes_of_a_run(
    info: RunnerInfo,
    no_cache: bool,
    l: report::LayerResultV,
    cause: Seq<char>,
)
    ensures
        action_after(info, no_cache, ProgressV::Ran(Ok(l))) == (if info.layer == Layer::Structure
            && l.status != LayerStatus::Fail {
            ActionV::Remember(l)
        } else {
            ActionV::Complete(completed_event(info, l), l)
        }),
        action_after(info, no_cache, ProgressV::Ran(Err(cause))) matches ActionV::Complete(_, x)
            && x.name == info.layer.text() && x.runner == info.name@ && x.status
            == LayerStatus::Fail && x.findings.len() == 1 && x.findings[0].severity
            == Severity::Critical && x.findings[0].code == "RUNNER_FAILED"@
            && x.findings[0].message == "Runner '"@ + info.name@ + "' failed: "@ + cause
            && x.metrics.failed == 1,
        completed_event(info, l) matches RunnerEventV::Completed {
            runner,
            layer,
            status,
            duration_ms,
        } && runner == info.name@ && layer == info.layer.text() && duration_ms == l.duration_ms && (
        l.status == LayerStatus::Pass ==> status == "pass"@) && (l.status == LayerStatus::Partial
            ==> status == "partial"@) && (l.status == LayerStatus::Fail ==> status == "fail"@) && (
        l.status == LayerStatus::Skipped ==> status == "skipped"@),
        started_event(info) matches RunnerEventV::Started { runner, layer } && runner == info.name@
            && layer == info.layer.text(),
{
}

/// The layers are called logic, structural, hostile and operational.
pub proof fn law_layer_names()
    ensures
        Layer::Logic.text() == "logic"@,
        Layer::Structure.text() == "structural"@,
        Layer::Hostile.text() == "hostile"@,
        Layer::Operational.text() == "operational"@,
{
}

/// A text that is no layer's name stands for logic.
pub proof fn law_other_names_are_logic(s: Seq<char>)
    requires
        s != "structural"@,
        s != "hostile"@,
        s != "operational"@,
    ensures
        layer_named(s) == Layer::Logic,
{
}

/// The place of a layer by its name: logic first, then structural, hostile, operational.
pub open spec fn comes_first(a: Seq<char>, b: Seq<char>) -> bool {
    ||| a == "logic"@ && (b == "structural"@ || b == "hostile"@ || b == "operational"@)
    ||| a == "structural"@ && (b == "hostile"@ || b == "operational"@)
    ||| a == "hostile"@ && b == "operational"@
}

/// A report lists every result once: logic layers before structural ones, these before
/// hostile ones and these before operational ones, and the results of one layer in the
/// order of their runners.
pub proof fn law_report_lists_layers_in_order(
    sorted: Seq<IndexedResultV>,
    results: Seq<IndexedResultV>,
    i: int,
    j: int,
)
    requires
        is_report_order(sorted, results),
        0 <= i < j < sorted.len(),
    ensures
        !comes_first(sorted[j].result.name, sorted[i].result.name),
        sorted[i].result.name == sorted[j].result.name ==> sorted[i].index <= sorted[j].index,
        sorted.len() == results.len(),
        forall|x: IndexedResultV| sorted.contains(x) <==> results.contains(x),
{
    let key = |x: IndexedResultV| result_key(x);
    order::law_stable_sort_keeps_items(sorted, results, key);
    order::law_stable_sort_is_sorted(sorted, results, key);
    assert(!order::key_less(key(sorted[j]), key(sorted[i])));
    law_layer_names_read_back(Layer::Logic);
    law_layer_names_read_back(Layer::Structure);
    law_layer_names_read_back(Layer::Hostile);
    law_layer_names_read_back(Layer::Operational);
}

/// What is said of a runner whose sources did not change.
pub proof fn law_what_is_said_of_cached_results(info: RunnerInfo)
    ensures
        unchanged_result(info).status == LayerStatus::Skipped,
        unchanged_result(info).runner == info.name@,
        unchanged_result(info).findings.len() == 1,
        unchanged_result(info).findings[0].severity == Severity::Info,
        unchanged_result(info).findings[0].code == "CACHED"@,
        unchanged_result(info).findings[0].message
            == "Source unchanged since last run — using cached result"@,
{
}

} // verus!
