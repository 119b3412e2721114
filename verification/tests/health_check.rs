use barzel::config::HealthCheckConfig;
use barzel::http::MockHttpClient;
use barzel::plugin::{Layer, TestRunner};
use barzel::report::{LayerResult, LayerStatus, Severity};
use barzel::runners::health_check::{check_finding, HealthCheckRunner};

fn check(name: &str, url: &str) -> HealthCheckConfig {
    HealthCheckConfig {
        name: name.to_string(),
        url: url.to_string(),
        expected_status: 200,
        timeout_ms: 1000,
    }
}

/// The timeouts in seconds, as they are shown.
fn timeouts(checks: &Vec<HealthCheckConfig>) -> Vec<String> {
    checks.iter().map(|c| format!("{:.1}", c.timeout_ms as f64 / 1000.0)).collect()
}

fn run_with(checks: Vec<HealthCheckConfig>, mut client: MockHttpClient) -> LayerResult {
    let shown = timeouts(&checks);
    HealthCheckRunner::new(checks).run(&mut client, &shown)
}

#[test]
fn name_is_health_check() {
    assert_eq!(HealthCheckRunner::new(vec![]).name(), "health-check");
}

#[test]
fn health_check_layer_is_operational() {
    assert!(matches!(HealthCheckRunner::new(vec![]).layer(), Layer::Operational));
}

#[test]
fn not_available_when_no_checks() {
    assert!(!HealthCheckRunner::new(vec![]).is_available());
}

#[test]
fn available_when_checks_configured() {
    assert!(HealthCheckRunner::new(vec![check("api", "http://localhost:3000/health")]).is_available());
}

#[test]
fn pass_when_expected_status_matches() {
    let result = run_with(
        vec![check("api", "http://localhost:3000/health")],
        MockHttpClient::always_ok(200),
    );
    assert!(matches!(result.status, LayerStatus::Pass));
    assert!(result.findings.is_empty());
    assert_eq!(result.metrics.tests_run, 1);
    assert_eq!(result.metrics.passed, 1);
    assert_eq!(result.metrics.failed, 0);
}

#[test]
fn all_pass_counted_in_metrics() {
    let result = run_with(
        vec![
            check("api", "http://localhost:3000/health"),
            check("db", "http://localhost:5432/health"),
        ],
        MockHttpClient::always_ok(200),
    );
    assert_eq!(result.metrics.tests_run, 2);
    assert_eq!(result.metrics.passed, 2);
    assert_eq!(result.metrics.failed, 0);
}

#[test]
fn status_mismatch_is_high_severity() {
    let result = run_with(
        vec![check("api", "http://localhost:3000/health")],
        MockHttpClient::always_ok(503),
    );
    assert_eq!(result.findings.len(), 1);
    assert_eq!(result.findings[0].severity, Severity::High);
    assert_eq!(result.findings[0].code, "HEALTH_CHECK_STATUS_MISMATCH");
    assert!(result.findings[0].message.contains("503"));
    assert!(result.findings[0].message.contains("200"));
}

#[test]
fn status_mismatch_has_reproduce_cmd() {
    let result = run_with(
        vec![check("api", "http://localhost:3000/health")],
        MockHttpClient::always_ok(500),
    );
    let cmd = result.findings[0].reproduce_cmd.as_deref().unwrap();
    assert!(cmd.contains("curl"), "reproduce_cmd must use curl");
    assert!(cmd.contains("http://localhost:3000/health"));
}

#[test]
fn status_mismatch_layer_is_partial() {
    let result = run_with(
        vec![check("api", "http://localhost:3000/health")],
        MockHttpClient::always_ok(404),
    );
    assert!(matches!(result.status, LayerStatus::Partial));
    assert_eq!(result.metrics.failed, 1);
}

#[test]
fn client_error_is_critical_severity() {
    let result = run_with(
        vec![check("api", "http://localhost:3000/health")],
        MockHttpClient::always_err("connection refused"),
    );
    assert_eq!(result.findings[0].severity, Severity::Critical);
    assert_eq!(result.findings[0].code, "HEALTH_CHECK_UNREACHABLE");
    assert!(result.findings[0].message.contains("connection refused"));
}

#[test]
fn client_error_has_reproduce_cmd() {
    let result = run_with(
        vec![check("api", "http://localhost:3000/health")],
        MockHttpClient::always_err("timeout"),
    );
    let cmd = result.findings[0].reproduce_cmd.as_deref().unwrap();
    assert!(cmd.contains("curl"));
    assert!(cmd.contains("http://localhost:3000/health"));
    assert!(cmd.contains("--max-time"));
}

#[test]
fn client_error_layer_is_fail() {
    let result = run_with(
        vec![check("api", "http://localhost:3000/health")],
        MockHttpClient::always_err("dns error"),
    );
    assert!(matches!(result.status, LayerStatus::Fail));
    assert_eq!(result.metrics.failed, 1);
}

#[test]
fn mixed_pass_and_mismatch_partial_status() {
    let result = run_with(
        vec![
            check("api", "http://localhost:3000/health"),
            check("db", "http://localhost:5432/health"),
        ],
        MockHttpClient::new(vec![Ok(200), Ok(503)]),
    );
    assert!(matches!(result.status, LayerStatus::Partial));
    assert_eq!(result.metrics.passed, 1);
    assert_eq!(result.metrics.failed, 1);
}

#[test]
fn critical_error_dominates_high_mismatch() {
    let result = run_with(
        vec![
            check("api", "http://localhost:3000/health"),
            check("db", "http://localhost:5432/health"),
        ],
        MockHttpClient::new(vec![Ok(404), Err("refused".to_string())]),
    );
    assert!(matches!(result.status, LayerStatus::Fail));
}

#[test]
fn checks_add_up() {
    let checks = vec![check("a", "u1"), check("b", "u2"), check("c", "u3")];
    let shown = timeouts(&checks);
    let answers = vec![Ok(200), Err("x".to_string()), Ok(418)];
    let result = HealthCheckRunner::new(checks).report_checks(&answers, &shown, 9);
    assert_eq!(result.metrics.tests_run, 3);
    assert_eq!(result.metrics.passed + result.metrics.failed, 3);
    assert_eq!(result.findings.len() as u64, result.metrics.failed);
    assert_eq!(result.duration_ms, 9);
}

#[test]
fn reproduce_cmd_shows_the_timeout() {
    let finding = check_finding(&check("a", "http://u"), &Ok(500), "1.0").unwrap();
    assert_eq!(finding.reproduce_cmd.as_deref(), Some("curl -i --max-time 1.0 http://u"));
}
