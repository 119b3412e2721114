//! Health checks: endpoints that a running project must answer on.
use vstd::prelude::*;

use crate::config::HealthCheckConfig;
use crate::http::HttpClient;
use crate::plugin::{Layer, TestRunner};
use crate::report;
use crate::report::{Finding, FindingV, LayerMetrics, LayerResult, LayerResultV, LayerStatus, Severity};
use crate::runners::parts;
use crate::text;
use crate::time;

verus! {

#[derive(Debug)]
pub struct HealthCheckRunner {
    pub checks: Vec<HealthCheckConfig>,
}

pub const SKIP: &'static str = "no health_checks configured — add [[layers.operational.health_checks]] to .barzel.toml";

impl TestRunner for HealthCheckRunner {
    fn name(&self) -> (r: &'static str)
        ensures
            r@ == "health-check"@,
    {
        "health-check"
    }

    fn layer(&self) -> (r: Layer)
        ensures
            r == Layer::Operational,
    {
        Layer::Operational
    }

    fn skip_message(&self) -> (r: &'static str)
        ensures
            r@ == SKIP@,
    {
        SKIP
    }
}

/// What is wrong with the answer to a check, if anything is. `timeout` is the time limit
/// in seconds, as text.
pub open spec fn check_found(
    check: HealthCheckConfig,
    answer: Result<u16, String>,
    timeout: Seq<char>,
) -> Option<FindingV> {
    let again = "curl -i --max-time "@ + timeout + " "@ + check.url@;
    match answer {
        Ok(status) => if status == check.expected_status {
            None
        } else {
            Some(
                FindingV {
                    severity: Severity::High,
                    code: "HEALTH_CHECK_STATUS_MISMATCH"@,
                    message: "Health check '"@ + check.name@ + "' returned HTTP "@ + text::decimal(
                        status as nat,
                    ) + " (expected "@ + text::decimal(check.expected_status as nat) + ")"@,
                    location: Some(check.url@),
                    reproduce_cmd: Some(again),
                    suggestion: Some(
                        "Investigate why "@ + check.url@ + " returns "@ + text::decimal(
                            status as nat,
                        ) + ". Check application logs and service health."@,
                    ),
                },
            )
        },
        Err(e) => Some(
            FindingV {
                severity: Severity::Critical,
                code: "HEALTH_CHECK_UNREACHABLE"@,
                message: "Health check '"@ + check.name@ + "' failed to connect: "@ + e@,
                location: Some(check.url@),
                reproduce_cmd: Some(again),
                suggestion: Some(
                    "Ensure the service at "@ + check.url@
                        + " is running and reachable. Verify network connectivity and that the service is started."@,
                ),
            },
        ),
    }
}

/// The finding for the answer to a check, if there is one.
pub fn check_finding(check: &HealthCheckConfig, answer: &Result<u16, String>, timeout: &str) -> (r: Option<
    Finding,
>)
    ensures
        match r {
            Some(f) => check_found(*check, *answer, timeout@) == Some(f@),
            None => check_found(*check, *answer, timeout@) is None,
        },
{
    let url = check.url.as_str();
    let again = text::cat4("curl -i --max-time ", timeout, " ", url);
    match answer {
        Ok(status) => {
            if *status == check.expected_status {
                return None;
            }
            let actual = text::number(*status as u64);
            let expected = text::number(check.expected_status as u64);
            let head = text::cat5(
                "Health check '",
                check.name.as_str(),
                "' returned HTTP ",
                actual.as_str(),
                " (expected ",
            );
            Some(
                Finding {
                    severity: Severity::High,
                    code: "HEALTH_CHECK_STATUS_MISMATCH".to_string(),
                    message: text::cat3(head.as_str(), expected.as_str(), ")"),
                    location: Some(check.url.clone()),
                    reproduce_cmd: Some(again),
                    suggestion: Some(
                        text::cat5(
                            "Investigate why ",
                            url,
                            " returns ",
                            actual.as_str(),
                            ". Check application logs and service health.",
                        ),
                    ),
                },
            )
        },
        Err(e) => Some(
            Finding {
                severity: Severity::Critical,
                code: "HEALTH_CHECK_UNREACHABLE".to_string(),
                message: text::cat4(
                    "Health check '",
                    check.name.as_str(),
                    "' failed to connect: ",
                    e.as_str(),
                ),
                location: Some(check.url.clone()),
                reproduce_cmd: Some(again),
                suggestion: Some(
                    text::cat3(
                        "Ensure the service at ",
                        url,
                        " is running and reachable. Verify network connectivity and that the service is started.",
                    ),
                ),
            },
        ),
    }
}

/// The findings of the first `n` checks.
pub open spec fn checks_found(
    checks: Seq<HealthCheckConfig>,
    answers: Seq<Result<u16, String>>,
    timeouts: Seq<Seq<char>>,
    n: int,
) -> Seq<FindingV>
    decreases n,
{
    if n <= 0 {
        Seq::empty()
    } else {
        let front = checks_found(checks, answers, timeouts, n - 1);
        match check_found(checks[n - 1], answers[n - 1], timeouts[n - 1]) {
            Some(f) => front.push(f),
            None => front,
        }
    }
}

/// The status of checks: one that cannot be reached fails them, a wrong answer makes them
/// partial.
pub open spec fn checks_status(findings: Seq<FindingV>) -> LayerStatus {
    if parts::has_severity(findings, Severity::Critical) {
        LayerStatus::Fail
    } else if parts::has_severity(findings, Severity::High) {
        LayerStatus::Partial
    } else {
        LayerStatus::Pass
    }
}

/// The result of the checks with these answers.
pub open spec fn reported(
    checks: Seq<HealthCheckConfig>,
    answers: Seq<Result<u16, String>>,
    timeouts: Seq<Seq<char>>,
    duration_ms: u64,
) -> LayerResultV {
    let found = checks_found(checks, answers, timeouts, checks.len() as int);
    parts::result_of(
        Layer::Operational,
        "health-check"@,
        checks_status(found),
        found,
        parts::tested(
            checks.len() as u64,
            (checks.len() - found.len()) as u64,
            found.len() as u64,
        ),
        duration_ms,
    )
}

proof fn lemma_checks_found(
    checks: Seq<HealthCheckConfig>,
    answers: Seq<Result<u16, String>>,
    timeouts: Seq<Seq<char>>,
    n: int,
)
    requires
        0 <= n,
    ensures
        checks_found(checks, answers, timeouts, n).len() <= n,
        forall|i: int|
            0 <= i < checks_found(checks, answers, timeouts, n).len() ==> {
                let s = (#[trigger] checks_found(checks, answers, timeouts, n)[i]).severity;
                s == Severity::Critical || s == Severity::High
            },
    decreases n,
{
    if n > 0 {
        lemma_checks_found(checks, answers, timeouts, n - 1);
    }
}

/// Every check passed or failed, and the layer passes exactly where all did.
pub proof fn law_checks_add_up(
    checks: Seq<HealthCheckConfig>,
    answers: Seq<Result<u16, String>>,
    timeouts: Seq<Seq<char>>,
    duration_ms: u64,
)
    requires
        checks.len() == answers.len() == timeouts.len(),
        checks.len() <= u64::MAX,
    ensures
        ({
            let r = reported(checks, answers, timeouts, duration_ms);
            &&& r.metrics.tests_run == r.metrics.passed + r.metrics.failed
            &&& r.metrics.failed == r.findings.len()
            &&& r.status == LayerStatus::Pass <==> r.metrics.failed == 0
        }),
{
    lemma_checks_found(checks, answers, timeouts, checks.len() as int);
    let found = checks_found(checks, answers, timeouts, checks.len() as int);
    if found.len() > 0 {
        assert(found[0].severity == Severity::Critical || found[0].severity == Severity::High);
    }
}

/// The client, as it was before each check and after the last, answered the checks so, one
/// after the other.
pub open spec fn answered<C: HttpClient>(
    checks: Seq<HealthCheckConfig>,
    states: Seq<C>,
    answers: Seq<Result<u16, String>>,
) -> bool {
    &&& answers.len() == checks.len()
    &&& states.len() == checks.len() + 1
    &&& forall|i: int|
        0 <= i < checks.len() ==> (#[trigger] states[i]).answers(
            checks[i].url@,
            checks[i].timeout_ms,
            answers[i],
            states[i + 1],
        )
}

/// `r` is the result of answers that a client can give to the requests of the checks, one
/// after the other.
pub open spec fn is_run<C: HttpClient>(
    checks: Seq<HealthCheckConfig>,
    before: C,
    after: C,
    timeouts: Seq<Seq<char>>,
    r: LayerResultV,
) -> bool {
    exists|states: Seq<C>, answers: Seq<Result<u16, String>>, ms: u64|
        #[trigger] answered(checks, states, answers) && states[0] == before && states.last() == after
            && r == #[trigger] reported(checks, answers, timeouts, ms)
}

impl HealthCheckRunner {
    pub fn new(checks: Vec<HealthCheckConfig>) -> (r: Self)
        ensures
            r.checks == checks,
    {
        HealthCheckRunner { checks }
    }

    pub fn is_available(&self) -> (r: bool)
        ensures
            r == (self.checks@.len() > 0),
    {
        self.checks.len() > 0
    }

    /// The result of the checks with these answers. `timeouts` holds the time limit of each
    /// check in seconds, as text.
    pub fn report_checks(
        &self,
        answers: &Vec<Result<u16, String>>,
        timeouts: &Vec<String>,
        duration_ms: u64,
    ) -> (r: LayerResult)
        requires
            answers@.len() == self.checks@.len(),
            timeouts@.len() == self.checks@.len(),
        ensures
            r@ == reported(self.checks@, answers@, text::views(timeouts@), duration_ms),
    {
        let ghost limits = text::views(timeouts@);
        let mut findings = parts::nothing();
        let total: usize = self.checks.len();
        let mut i: usize = 0;
        while i < total
            invariant
                i <= total == self.checks@.len(),
                limits == text::views(timeouts@),
                answers@.len() == self.checks@.len(),
                timeouts@.len() == self.checks@.len(),
                report::findings_view(findings@) == checks_found(
                    self.checks@,
                    answers@,
                    limits,
                    i as int,
                ),
            decreases total - i,
        {
            assert(limits[i as int] == timeouts@[i as int]@);
            match check_finding(&self.checks[i], &answers[i], timeouts[i].as_str()) {
                Some(f) => {
                    parts::push_finding(&mut findings, f);
                },
                None => {},
            }
            i += 1;
        }
        proof {
            lemma_checks_found(self.checks@, answers@, limits, total as int);
            assert(report::findings_view(findings@).len() == findings@.len());
        }
        let failed: usize = findings.len();
        let status = if parts::any_severity(&findings, Severity::Critical) {
            LayerStatus::Fail
        } else if parts::any_severity(&findings, Severity::High) {
            LayerStatus::Partial
        } else {
            LayerStatus::Pass
        };
        let metrics = LayerMetrics {
            tests_run: total as u64,
            passed: (total - failed) as u64,
            failed: failed as u64,
            coverage: None,
            mutation_score: None,
        };
        parts::layer_result(
            Layer::Operational,
            "health-check",
            status,
            findings,
            metrics,
            duration_ms,
        )
    }

    /// Requests every endpoint, one after the other. `timeouts` holds the time limit of each
    /// check in seconds, as text.
    pub fn run<C: HttpClient>(&self, client: &mut C, timeouts: &Vec<String>) -> (r: LayerResult)
        requires
            timeouts@.len() == self.checks@.len(),
            old(client).left() matches Some(n) ==> n >= self.checks@.len(),
        ensures
            is_run(self.checks@, *old(client), *final(client), text::views(timeouts@), r@),
    {
        let start = time::started();
        let ghost before = *client;
        let ghost mut states: Seq<C> = seq![*client];
        let mut answers: Vec<Result<u16, String>> = Vec::new();
        let mut i: usize = 0;
        while i < self.checks.len()
            invariant
                i <= self.checks@.len(),
                answers@.len() == i,
                states.len() == i + 1,
                states[0] == before,
                states[i as int] == *client,
                client.left() matches Some(n) ==> n >= self.checks@.len() - i,
                forall|k: int|
                    0 <= k < i ==> (#[trigger] states[k]).answers(
                        self.checks@[k].url@,
                        self.checks@[k].timeout_ms,
                        answers@[k],
                        states[k + 1],
                    ),
            decreases self.checks@.len() - i,
        {
            let check = &self.checks[i];
            let answer = client.get(check.url.as_str(), check.timeout_ms);
            answers.push(answer);
            proof {
                states = states.push(*client);
            }
            i += 1;
        }
        assert(answered(self.checks@, states, answers@));
        assert(states.last() == *client);
        let ms = time::elapsed_ms(&start);
        let r = self.report_checks(&answers, timeouts, ms);
        assert(r@ == reported(self.checks@, answers@, text::views(timeouts@), ms));
        r
    }
}

// ── laws ────────────────────────────────────────────────────────────────────

/// A check is well exactly where the service answers with the status that is expected. Any
/// other status is a high finding, no answer a critical one, each with the address.
pub proof fn law_expected_status_is_well(
    check: HealthCheckConfig,
    status: u16,
    e: String,
    timeout: Seq<char>,
)
    ensures
        status == check.expected_status ==> check_found(check, Ok(status), timeout) is None,
        status != check.expected_status ==> (check_found(check, Ok(status), timeout) matches Some(f)
            && f.severity == Severity::High && f.code == "HEALTH_CHECK_STATUS_MISMATCH"@
            && f.location == Some(check.url@) && f.message == "Health check '"@ + check.name@
            + "' returned HTTP "@ + text::decimal(status as nat) + " (expected "@ + text::decimal(
            check.expected_status as nat,
        ) + ")"@),
        check_found(check, Err(e), timeout) matches Some(f) && f.severity == Severity::Critical
            && f.code == "HEALTH_CHECK_UNREACHABLE"@ && f.location == Some(check.url@) && f.message
            == "Health check '"@ + check.name@ + "' failed to connect: "@ + e@,
{
}

/// The check at `i` is well.
pub open spec fn is_well(check: HealthCheckConfig, answer: Result<u16, String>) -> bool {
    answer matches Ok(status) && status == check.expected_status
}

proof fn lemma_checks(
    checks: Seq<HealthCheckConfig>,
    answers: Seq<Result<u16, String>>,
    timeouts: Seq<Seq<char>>,
    n: int,
)
    requires
        0 <= n <= checks.len(),
    ensures
        ({
            let v = checks_found(checks, answers, timeouts, n);
            &&& parts::has_severity(v, Severity::Critical) <==> exists|i: int|
                0 <= i < n && (#[trigger] answers[i]) is Err
            &&& parts::has_severity(v, Severity::High) <==> exists|i: int|
                0 <= i < n && (#[trigger] answers[i]) is Ok && !is_well(checks[i], answers[i])
            &&& v.len() <= n
        }),
    decreases n,
{
    if n > 0 {
        lemma_checks(checks, answers, timeouts, n - 1);
        let before = checks_found(checks, answers, timeouts, n - 1);
        let all = checks_found(checks, answers, timeouts, n);
        let own = check_found(checks[n - 1], answers[n - 1], timeouts[n - 1]);
        if parts::has_severity(before, Severity::Critical) {
            let k = choose|k: int|
                0 <= k < before.len() && (#[trigger] before[k]).severity == Severity::Critical;
            assert(all[k] == before[k]);
        }
        if parts::has_severity(before, Severity::High) {
            let k = choose|k: int|
                0 <= k < before.len() && (#[trigger] before[k]).severity == Severity::High;
            assert(all[k] == before[k]);
        }
        if own is Some {
            assert(all[all.len() - 1] == own->0);
        }
        if parts::has_severity(all, Severity::Critical) {
            let k = choose|k: int|
                0 <= k < all.len() && (#[trigger] all[k]).severity == Severity::Critical;
            if k < before.len() {
                assert(before[k].severity == Severity::Critical);
            } else {
                assert(answers[n - 1] is Err);
            }
        }
        if parts::has_severity(all, Severity::High) {
            let k = choose|k: int|
                0 <= k < all.len() && (#[trigger] all[k]).severity == Severity::High;
            if k < before.len() {
                assert(before[k].severity == Severity::High);
            } else {
                assert(answers[n - 1] is Ok && !is_well(checks[n - 1], answers[n - 1]));
            }
        }
    }
}

/// The layer fails where a service did not answer, else is partial where one answered with
/// another status than expected, else passes.
pub proof fn law_unreachable_services_fail(
    checks: Seq<HealthCheckConfig>,
    answers: Seq<Result<u16, String>>,
    timeouts: Seq<Seq<char>>,
    ms: u64,
)
    requires
        checks.len() == answers.len(),
        checks.len() == timeouts.len(),
    ensures
        ({
            let r = reported(checks, answers, timeouts, ms);
            &&& r.name == "operational"@ && r.runner == "health-check"@ && r.duration_ms == ms
            &&& r.status == LayerStatus::Fail <==> exists|i: int|
                0 <= i < checks.len() && (#[trigger] answers[i]) is Err
            &&& r.status == LayerStatus::Partial <==> (forall|i: int|
                0 <= i < checks.len() ==> (#[trigger] answers[i]) is Ok) && exists|i: int|
                0 <= i < checks.len() && (#[trigger] answers[i]) is Ok && !is_well(
                    checks[i],
                    answers[i],
                )
            &&& r.status != LayerStatus::Skipped
        }),
{
    lemma_checks(checks, answers, timeouts, checks.len() as int);
}

/// Every check that is not well is reported, in order, and no other.
pub proof fn law_each_check_is_reported(
    checks: Seq<HealthCheckConfig>,
    answers: Seq<Result<u16, String>>,
    timeouts: Seq<Seq<char>>,
    n: int,
)
    requires
        0 <= n < checks.len(),
    ensures
        is_well(checks[n], answers[n]) ==> checks_found(checks, answers, timeouts, n + 1)
            == checks_found(checks, answers, timeouts, n),
        !is_well(checks[n], answers[n]) ==> checks_found(checks, answers, timeouts, n + 1)
            == checks_found(checks, answers, timeouts, n).push(
            check_found(checks[n], answers[n], timeouts[n])->0,
        ),
        checks_found(checks, answers, timeouts, 0) == Seq::<FindingV>::empty(),
{
}

/// What is said of a service that answers otherwise, or not at all.
pub proof fn law_what_a_failed_check_says(
    check: HealthCheckConfig,
    status: u16,
    e: String,
    timeout: Seq<char>,
)
    ensures
        check_found(check, Ok(status), timeout) matches Some(f) ==> f.reproduce_cmd == Some(
            "curl -i --max-time "@ + timeout + " "@ + check.url@,
        ) && f.location == Some(check.url@) && f.suggestion == Some(
            "Investigate why "@ + check.url@ + " returns "@ + text::decimal(status as nat)
                + ". Check application logs and service health."@,
        ),
        check_found(check, Err(e), timeout) matches Some(f) && f.reproduce_cmd == Some(
            "curl -i --max-time "@ + timeout + " "@ + check.url@,
        ) && f.location == Some(check.url@) && f.suggestion == Some(
            "Ensure the service at "@ + check.url@
                + " is running and reachable. Verify network connectivity and that the service is started."@,
        ),
{
}

/// A result belongs to the layer and the runner that it is of, whatever came out.
pub proof fn law_where_results_belong(checks: Seq<HealthCheckConfig>, answers: Seq<Result<u16, String>>, timeouts: Seq<Seq<char>>, duration_ms: u64)
    ensures
        reported(checks, answers, timeouts, duration_ms).name == "operational"@,
        reported(checks, answers, timeouts, duration_ms).runner == "health-check"@,
        reported(checks, answers, timeouts, duration_ms).duration_ms == duration_ms,
{
}

} // verus!
