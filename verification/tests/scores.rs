use barzel::percent::Percent;
use barzel::report::LayerStatus;
use barzel::report::{Finding, Severity};
use barzel::runners::parts::{any_severity, status_of_audit, status_of_scan};
use barzel::runners::score::{pick, status_of_run, status_of_score, Candidate};

fn pct(x: f64) -> Percent {
    Percent { bits: x.to_bits() }
}

#[test]
fn the_first_settled_candidate_counts() {
    let candidates = vec![
        Candidate::Text("x".to_string()),
        Candidate::Bounded("150".to_string()),
        Candidate::Text("70".to_string()),
        Candidate::Counts { hit: 1, missed: 1 },
    ];
    let values = vec![None, Some(pct(150.0)), Some(pct(70.0)), Some(pct(50.0))];
    assert_eq!(pick(&candidates, &values), Some(pct(70.0)));
}

#[test]
fn a_final_candidate_ends_the_search() {
    let candidates =
        vec![Candidate::Final("x".to_string()), Candidate::Counts { hit: 1, missed: 0 }];
    assert_eq!(pick(&candidates, &vec![None, Some(pct(100.0))]), None);
}

#[test]
fn lower_thresholds_pass_more() {
    let score = Some(pct(80.0));
    assert_eq!(status_of_score(score, pct(80.0)), LayerStatus::Pass);
    assert_eq!(status_of_score(score, pct(79.0)), LayerStatus::Pass);
    assert_eq!(status_of_score(score, pct(81.0)), LayerStatus::Partial);
    assert_eq!(status_of_run(None, pct(0.0), false), LayerStatus::Fail);
    assert_eq!(status_of_run(None, pct(0.0), true), LayerStatus::Partial);
}

#[test]
fn audits_are_stricter_than_scans() {
    let with = |severity: Severity| vec![Finding { severity, ..Default::default() }];
    let all = [
        Severity::Critical,
        Severity::High,
        Severity::Medium,
        Severity::Low,
        Severity::Info,
    ];
    for s in all {
        assert!(any_severity(&with(s), s));
        if status_of_audit(&with(s)) == LayerStatus::Pass {
            assert_eq!(status_of_scan(&with(s)), LayerStatus::Pass);
        }
    }
}
