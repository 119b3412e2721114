//! Creating a configuration.
use vstd::prelude::*;

verus! {

/// What became of the configuration.
#[derive(Debug, Clone, Copy, PartialEq, Eq, Structural)]
pub enum InitOutcome {
    Created,
    Skipped,
    Overwritten,
}

/// What to do with the configuration of a directory, in which one may stand already.
pub fn run_init(config_exists: bool, force: bool) -> (r: InitOutcome)
    ensures
        r == (if !config_exists {
            InitOutcome::Created
        } else if force {
            InitOutcome::Overwritten
        } else {
            InitOutcome::Skipped
        }),
{
    if config_exists && !force {
        return InitOutcome::Skipped;
    }
    if config_exists {
        InitOutcome::Overwritten
    } else {
        InitOutcome::Created
    }
}

/// The word for what became of the configuration.
pub fn action_word(outcome: InitOutcome) -> (r: &'static str)
    ensures
        r@ == (if outcome == InitOutcome::Overwritten {
            "Overwrote"@
        } else {
            "Created"@
        }),
{
    match outcome {
        InitOutcome::Overwritten => "Overwrote",
        _ => "Created",
    }
}

} // verus!
