use barzel::files::{Entry, Files};
use barzel::process::ProcessOutput;
use barzel::report::LayerStatus;
use barzel::runners::fastcheck::{
    detect_package_manager, extract_failing_tests, extract_label_count, parse_ts_test_counts,
    report_fast_check,
};

/// The files of a project at `root`, with the directories they stand in.
fn files_at(root: &str, texts: &[(&str, &str)]) -> Files {
    let mut entries = vec![Entry {
        path: String::new(),
        dir: true,
        absolute: root.to_string(),
        text: None,
    }];
    for (path, text) in texts {
        let parts: Vec<&str> = path.split('/').collect();
        for n in 1..parts.len() {
            let parent = parts[..n].join("/");
            if !entries.iter().any(|e| e.path == parent) {
                entries.push(Entry {
                    absolute: format!("{root}/{parent}"),
                    path: parent,
                    dir: true,
                    text: None,
                });
            }
        }
        if !path.ends_with('/') {
            entries.push(Entry {
                path: path.to_string(),
                dir: false,
                absolute: format!("{root}/{path}"),
                text: Some(text.to_string()),
            });
        }
    }
    Files { entries }
}

const ODD_TEXTS: [&str; 6] = ["", "Tests:", "passed failed total", "Tests: 99999999999999999999999 passed", "● ", "\u{1F600} passed\n\n"];

#[test]
fn detects_pnpm_from_lockfile() {
    let files = files_at("/tmp", &[("pnpm-lock.yaml", "lockfileVersion: '9.0'")]);
    assert_eq!(detect_package_manager(&files), "pnpm");
}

#[test]
fn detects_yarn_from_lockfile() {
    let files = files_at("/tmp", &[("yarn.lock", "# yarn lockfile v1")]);
    assert_eq!(detect_package_manager(&files), "yarn");
}

#[test]
fn defaults_to_npm() {
    assert_eq!(detect_package_manager(&files_at("/tmp", &[])), "npm");
}

#[test]
fn pnpm_takes_priority_over_yarn() {
    let files = files_at("/tmp", &[("pnpm-lock.yaml", ""), ("yarn.lock", "")]);
    assert_eq!(detect_package_manager(&files), "pnpm");
}

#[test]
fn parses_jest_format() {
    let output = "Tests: 5 passed, 2 failed, 7 total";
    let (total, passed, failed) = parse_ts_test_counts(output);
    assert_eq!(passed, 5);
    assert_eq!(failed, 2);
    assert_eq!(total, 7);
}

#[test]
fn parses_vitest_tests_line() {
    let output = "Tests  8 passed (8)";
    let (total, passed, _failed) = parse_ts_test_counts(output);
    assert_eq!(passed, 8);
    assert_eq!(total, 8);
}

#[test]
fn fastcheck_fallback_returns_one_passed() {
    let (total, passed, failed) = parse_ts_test_counts("no test output");
    assert_eq!(total, 1);
    assert_eq!(passed, 1);
    assert_eq!(failed, 0);
}

#[test]
fn extracts_count_correctly() {
    assert_eq!(extract_label_count("5 passed", "passed"), 5);
    assert_eq!(extract_label_count("10 failed", "failed"), 10);
    assert_eq!(extract_label_count("no match here", "passed"), 0);
}

#[test]
fn extracts_jest_bullet_failures() {
    let output = "● MyTest > should work\n● AnotherTest > fails";
    let tests = extract_failing_tests(output);
    assert_eq!(tests.len(), 2);
    assert!(tests[0].contains("MyTest"));
}

#[test]
fn limits_to_three_failures() {
    let output = "● A\n● B\n● C\n● D\n● E";
    let tests = extract_failing_tests(output);
    assert_eq!(tests.len(), 3);
}

#[test]
fn returns_empty_for_passing_output() {
    let output = "✓ all tests pass\n✓ more passing";
    let tests = extract_failing_tests(output);
    assert!(tests.is_empty());
}

#[test]
fn parse_ts_test_counts_never_panics() {
    for s in ODD_TEXTS {
        let _ = parse_ts_test_counts(s);
    }
}

#[test]
fn extract_label_count_never_panics() {
    for s in ODD_TEXTS {
        let _ = extract_label_count(s, "passed");
    }
}

#[test]
fn extract_failing_tests_never_panics() {
    for s in ODD_TEXTS {
        let _ = extract_failing_tests(s);
    }
}

#[test]
fn ts_totals_that_do_not_fit_are_capped() {
    let line = format!("Tests: {} passed, {} failed", u64::MAX, 5);
    let (total, passed, failed) = parse_ts_test_counts(&line);
    assert_eq!(passed, u64::MAX);
    assert_eq!(failed, 5);
    assert_eq!(total, u64::MAX);
}

#[test]
fn property_failures_name_the_tests() {
    let outcome = Ok(ProcessOutput {
        success: false,
        stdout: "● Sum > commutes\nTests: 1 passed, 1 failed, 2 total".to_string(),
        stderr: String::new(),
    });
    let result = report_fast_check("pnpm", &outcome, 3);
    assert_eq!(result.status, LayerStatus::Fail);
    assert_eq!(result.findings[0].message, "Property-based tests failed (1 failed)");
    assert_eq!(
        result.findings[0].suggestion.as_deref(),
        Some("Failing: Sum > commutes. Examine the counterexample and fix the invariant.")
    );
    assert_eq!(result.metrics.failed, 1);
}
