use vstd::prelude::*;

use crate::data_types::Dynamic;

verus! {

/// The loudness of the playback: the current level, and a crescendo or
/// decrescendo in progress, with whether it has reached its end.
#[derive(Debug)]
pub struct DynamicState {
    pub current: Dynamic,
    pub transition: Option<DynamicTransition>,
    pub update: bool,
}

impl DynamicState {
    /// Mezzo forte, with no transition.
    pub fn default() -> (r: DynamicState)
        ensures
            r.current == Dynamic::MF,
            r.transition is None,
            !r.update,
    {
        DynamicState { current: Dynamic::MF, transition: None, update: false }
    }
}

/// A crescendo or decrescendo, from the level it started at.
#[derive(Debug, Clone, Copy, PartialEq, Eq, Structural)]
pub struct DynamicTransition {
    pub level: Dynamic,
    pub kind: DynamicTransitionKind,
}

#[derive(Debug, Clone, Copy, PartialEq, Eq, Structural)]
pub enum DynamicTransitionKind {
    Cre,
    Dec,
}

} // verus!
