use barzel::config::{BarzelConfig, HistoryConfig};
use barzel::detect::{Language, ProjectFrameworks, ProjectInfo};
use barzel::percent::Percent;
use barzel::run::check_request;

fn pct(x: f64) -> Percent {
    Percent { bits: x.to_bits() }
}

fn rust_info(name: &str) -> ProjectInfo {
    ProjectInfo {
        language: Language::Rust,
        root: "/tmp".to_string(),
        has_tests: true,
        package_name: Some(name.to_string()),
        frameworks: ProjectFrameworks::default(),
        workspace_root: None,
    }
}

fn number(p: Percent) -> f64 {
    f64::from_bits(p.bits)
}

fn tolerances(coverage: f64, mutation: f64) -> HistoryConfig {
    HistoryConfig {
        enabled: true,
        coverage_regression_tolerance: pct(coverage),
        mutation_regression_tolerance: pct(mutation),
        ..HistoryConfig::default()
    }
}

#[test]
fn load_for_project_returns_default_when_no_file() {
    let cfg = BarzelConfig::load_for_project(None);
    let def = BarzelConfig::default();
    assert_eq!(
        cfg.layers.structural.mutation_threshold,
        def.layers.structural.mutation_threshold
    );
    assert_eq!(cfg.reporting.fail_on, def.reporting.fail_on);
}

#[test]
fn from_project_info_sets_name_and_language() {
    let cfg = BarzelConfig::from_project_info(&rust_info("my-crate"));
    assert_eq!(cfg.project.name, "my-crate");
    assert_eq!(cfg.project.language, "rust");
}

#[test]
fn from_project_info_defaults_name_when_none() {
    let info = ProjectInfo {
        language: Language::TypeScript,
        root: "/tmp".to_string(),
        has_tests: false,
        package_name: None,
        frameworks: ProjectFrameworks::default(),
        workspace_root: None,
    };
    let cfg = BarzelConfig::from_project_info(&info);
    assert_eq!(cfg.project.name, "project");
    assert_eq!(cfg.project.language, "typescript");
}

#[test]
fn min_coverage_defaults_to_none() {
    let cfg = BarzelConfig::default();
    assert!(cfg.layers.logic.min_coverage.is_none());
}

#[test]
fn no_operational_section_defaults_to_empty_health_checks() {
    let cfg = BarzelConfig::default();
    assert!(
        cfg.layers.operational.health_checks.is_empty(),
        "no configured health_checks must produce an empty vec by default"
    );
}

#[test]
fn no_commands_section_defaults_to_empty() {
    let cfg = BarzelConfig::default();
    assert!(
        cfg.layers.operational.commands.is_empty(),
        "no configured commands must produce empty vec by default"
    );
}

#[test]
fn history_defaults_to_enabled_with_zero_tolerance() {
    let cfg = BarzelConfig::default();
    assert!(cfg.history.enabled, "history.enabled must default to true");
    assert_eq!(number(cfg.history.coverage_regression_tolerance), 0.0);
    assert_eq!(number(cfg.history.mutation_regression_tolerance), 0.0);
}

#[test]
fn negative_tolerance_clamped_to_zero() {
    let n = tolerances(-0.05, -1.0).normalized();
    assert_eq!(
        number(n.coverage_regression_tolerance),
        0.0,
        "negative coverage tolerance must be clamped to 0.0"
    );
    assert_eq!(
        number(n.mutation_regression_tolerance),
        0.0,
        "negative mutation tolerance must be clamped to 0.0"
    );
}

#[test]
fn tolerance_above_one_clamped_to_one() {
    let n = tolerances(1.5, 99.0).normalized();
    assert_eq!(
        number(n.coverage_regression_tolerance),
        1.0,
        "tolerance > 1.0 must be clamped to 1.0 (scores are stored as fractions)"
    );
    assert_eq!(number(n.mutation_regression_tolerance), 1.0);
}

#[test]
fn valid_tolerance_passes_through_unchanged() {
    let n = tolerances(0.02, 0.05).normalized();
    assert!((number(n.coverage_regression_tolerance) - 0.02).abs() < 1e-9);
    assert!((number(n.mutation_regression_tolerance) - 0.05).abs() < 1e-9);
}

#[test]
fn zero_tolerance_passes_through_unchanged() {
    let n = HistoryConfig::default().normalized();
    assert_eq!(number(n.coverage_regression_tolerance), 0.0);
    assert_eq!(number(n.mutation_regression_tolerance), 0.0);
    assert!(n.enabled);
}

#[test]
fn enabled_flag_preserved_through_normalization() {
    let cfg = HistoryConfig { enabled: false, ..HistoryConfig::default() };
    assert!(!cfg.normalized().enabled);
}

#[test]
fn history_max_entries_defaults_to_50() {
    let cfg = BarzelConfig::default();
    assert_eq!(cfg.history.max_entries_per_package, 50);
}

#[test]
fn max_entries_zero_parses_and_preserved_through_normalization() {
    let cfg = HistoryConfig { max_entries_per_package: 0, ..tolerances(0.0, 0.0) };
    assert_eq!(
        cfg.normalized().max_entries_per_package,
        0,
        "max_entries=0 (no pruning) must survive normalization unchanged"
    );
}

#[test]
fn max_entries_preserved_through_normalization() {
    let cfg = HistoryConfig { max_entries_per_package: 10, ..HistoryConfig::default() };
    assert_eq!(cfg.normalized().max_entries_per_package, 10);
}

#[test]
fn load_for_project_normalizes_invalid_tolerances() {
    let read = BarzelConfig { history: tolerances(-0.2, 2.0), ..BarzelConfig::default() };
    let cfg = BarzelConfig::load_for_project(Some(read));
    assert_eq!(
        number(cfg.history.coverage_regression_tolerance),
        0.0,
        "negative tolerance in .barzel.toml must be clamped to 0.0 on load"
    );
    assert_eq!(
        number(cfg.history.mutation_regression_tolerance),
        1.0,
        "tolerance > 1.0 in .barzel.toml must be clamped to 1.0 on load"
    );
}

#[test]
fn non_finite_tolerance_treated_as_zero() {
    let n = tolerances(f64::NAN, f64::INFINITY).normalized();
    assert_eq!(number(n.coverage_regression_tolerance), 0.0, "NaN tolerance must become 0.0");
    assert_eq!(number(n.mutation_regression_tolerance), 0.0, "Inf tolerance must become 0.0");
}

#[test]
fn default_config_validates_successfully() {
    assert!(BarzelConfig::default().validate().is_ok(), "default config must be valid");
}

#[test]
fn empty_layers_enabled_is_rejected() {
    let mut cfg = BarzelConfig::default();
    cfg.layers.enabled = vec![];
    let err = cfg.validate().unwrap_err().message();
    assert!(err.contains("layers.enabled"), "error must mention layers.enabled: {err}");
    assert!(err.contains("must not be empty"), "error must say 'must not be empty': {err}");
    assert!(err.contains("logic"), "error must list valid layers: {err}");
}

#[test]
fn unknown_layer_in_enabled_is_rejected() {
    let mut cfg = BarzelConfig::default();
    cfg.layers.enabled = vec!["security".to_string()];
    let err = cfg.validate().unwrap_err().message();
    assert!(err.contains("security"), "error must name the bad value: {err}");
    assert!(err.contains("hostile"), "error must list valid layers: {err}");
}

#[test]
fn uppercase_layer_in_enabled_is_rejected() {
    let mut cfg = BarzelConfig::default();
    cfg.layers.enabled = vec!["Hostile".to_string()];
    let err = cfg.validate().unwrap_err().message();
    assert!(err.contains("Hostile"), "error must name the bad value: {err}");
    assert!(err.contains("hostile"), "error must show correct casing: {err}");
}

#[test]
fn invalid_fail_on_is_rejected() {
    let mut cfg = BarzelConfig::default();
    cfg.reporting.fail_on = "severe".to_string();
    let err = cfg.validate().unwrap_err().message();
    assert!(err.contains("severe"), "error must name the bad value: {err}");
    assert!(err.contains("critical"), "error must list valid thresholds: {err}");
    assert!(err.contains("any"), "error must list 'any' as valid: {err}");
}

#[test]
fn run_verification_rejects_invalid_config_before_running() {
    let mut cfg = BarzelConfig::default();
    cfg.layers.enabled = vec!["security".to_string()];
    let result = check_request(&None, &cfg);
    assert!(result.is_err(), "invalid config must be refused");
    let msg = result.unwrap_err().message();
    assert!(msg.contains("security"), "error must name the bad layer: {msg}");
    assert!(msg.contains("hostile"), "error must list valid layers: {msg}");
}
