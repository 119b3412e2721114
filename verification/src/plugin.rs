//! What a test runner is.
use vstd::prelude::*;

use crate::report::Finding;

verus! {

#[derive(Debug, Clone, Copy, PartialEq, Eq, Structural)]
pub enum Layer {
    Logic,
    Structure,
    Hostile,
    Operational,
}

impl Layer {
    pub open spec fn text(self) -> Seq<char> {
        match self {
            Layer::Logic => "logic"@,
            Layer::Structure => "structural"@,
            Layer::Hostile => "hostile"@,
            Layer::Operational => "operational"@,
        }
    }

    pub fn as_str(self) -> (r: &'static str)
        ensures
            r@ == self.text(),
    {
        match self {
            Layer::Logic => "logic",
            Layer::Structure => "structural",
            Layer::Hostile => "hostile",
            Layer::Operational => "operational",
        }
    }
}

/// A tool that verifies a project in one layer.
pub trait TestRunner {
    fn name(&self) -> (r: &'static str);

    fn layer(&self) -> (r: Layer);

    /// What a report says where the runner is not available.
    fn skip_message(&self) -> (r: &'static str)
        default_ensures
            r@ == "Runner not available — tool not installed"@,
    {
        "Runner not available — tool not installed"
    }

    fn parse_results(&self, raw_output: &str) -> (r: Vec<Finding>)
        default_ensures
            r@.len() == 0,
    {
        Vec::new()
    }
}

} // verus!
