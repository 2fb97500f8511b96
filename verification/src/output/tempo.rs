use vstd::prelude::*;

use crate::data_types::ProgressiveTempo;

verus! {

/// The tempo change in progress during playback, if any.
#[derive(Debug)]
pub struct TempoState {
    pub update: bool,
    pub transition: Option<TempoTransition>,
}

impl TempoState {
    pub fn default() -> (r: TempoState)
        ensures
            !r.update,
            r.transition is None,
    {
        TempoState { update: false, transition: None }
    }
}

/// A gradual tempo change, from the tempo it started at.
#[derive(Debug, Clone, Copy, PartialEq, Eq, Structural)]
pub struct TempoTransition {
    pub kind: ProgressiveTempo,
    pub initial_value: u16,
}

} // verus!
