use barzel::plugin::{Layer, TestRunner};

struct MinimalRunner;

impl TestRunner for MinimalRunner {
    fn name(&self) -> &'static str {
        "minimal"
    }

    fn layer(&self) -> Layer {
        Layer::Logic
    }
}

#[test]
fn layer_as_str_is_correct() {
    assert_eq!(Layer::Logic.as_str(), "logic");
    assert_eq!(Layer::Structure.as_str(), "structural");
    assert_eq!(Layer::Hostile.as_str(), "hostile");
    assert_eq!(Layer::Operational.as_str(), "operational");
}

#[test]
fn default_skip_message_is_nonempty() {
    assert!(!MinimalRunner.skip_message().is_empty());
    assert!(MinimalRunner.skip_message().contains("not"));
}

#[test]
fn default_parse_results_returns_empty() {
    let findings = MinimalRunner.parse_results("some output");
    assert!(findings.is_empty());
}

#[test]
fn layer_equality() {
    assert_eq!(Layer::Logic, Layer::Logic);
    assert_ne!(Layer::Logic, Layer::Structure);
    assert_ne!(Layer::Hostile, Layer::Operational);
}
