use vstd::prelude::*;

use crate::ast::symbols::Field;
use crate::data_types::{Dynamic, Jump, Key, List, Mark, Tempo, TimeSignature, TimedList, TimedValue, Voice};
use crate::diagnostics::types::DiagnosticKind;

verus! {

/// The parameters a document starts with (`[$]` lines of the header).
#[derive(Debug)]
pub struct InitialParams {
    pub key: Field<Key>,
    pub time: Field<TimeSignature>,
    pub tempo: Field<Tempo>,
    pub voices: Field<List<Voice>>,
}

impl InitialParams {
    pub fn new() -> (r: InitialParams)
        ensures
            r.key is None,
            r.time is None,
            r.tempo is None,
            r.voices is None,
    {
        InitialParams { key: None, time: None, tempo: None, voices: None }
    }
}

/// The parameters a section sets for itself (`[$]` lines of a section).
#[derive(Debug, Clone)]
pub struct SectionParams {
    pub time: Field<TimeSignature>,
    pub tempo: Field<Tempo>,
    pub label: Field<String>,
    pub ending: Field<usize>,
    pub key: Field<Key>,
    pub jump: Field<Jump>,
    pub mark: Field<Mark>,
    pub repeat: Field<usize>,
}

impl SectionParams {
    pub open spec fn spec_empty() -> SectionParams {
        SectionParams {
            time: None,
            tempo: None,
            label: None,
            ending: None,
            key: None,
            jump: None,
            mark: None,
            repeat: None,
        }
    }

    pub fn new() -> (r: SectionParams)
        ensures
            r == SectionParams::spec_empty(),
    {
        SectionParams {
            time: None,
            tempo: None,
            label: None,
            ending: None,
            key: None,
            jump: None,
            mark: None,
            repeat: None,
        }
    }

    pub open spec fn spec_has_events(&self) -> bool {
        self.key is Some || self.jump is Some || self.mark is Some || self.ending is Some
    }

    /// Whether the section sets a key, a jump, a mark or an ending.
    pub fn has_events(&self) -> (r: bool)
        ensures
            r == self.spec_has_events(),
    {
        self.key.is_some() || self.jump.is_some() || self.mark.is_some() || self.ending.is_some()
    }
}

/// The parameters of a sub-section.
#[derive(Debug)]
pub struct SubSectionParams {
    pub dynamics: Field<TimedList<Dynamic>>,
}

impl SubSectionParams {
    pub fn new() -> (r: SubSectionParams)
        ensures
            r.dynamics is None,
    {
        SubSectionParams { dynamics: None }
    }
}

/// What is wrong with the timing of a dynamic marking, if anything: a
/// crescendo or decrescendo needs a range of timestamps, and any other
/// marking stands at a single one.
pub open spec fn spec_dynamic_timing_error(value: TimedValue<Dynamic>) -> Option<DiagnosticKind> {
    if value.value.spec_expected_params() == 2 && value.end is None {
        Some(DiagnosticKind::ExpectedTimestampRange)
    } else if value.value.spec_expected_params() == 1 && value.end is Some {
        Some(DiagnosticKind::RangeNotAllowed)
    } else {
        None
    }
}

pub fn dynamic_timing_error(value: &TimedValue<Dynamic>) -> (r: Option<DiagnosticKind>)
    ensures
        r == spec_dynamic_timing_error(*value),
{
    let expected = value.value.expected_params();
    if expected == 2 && value.end.is_none() {
        Some(DiagnosticKind::ExpectedTimestampRange)
    } else if expected == 1 && value.end.is_some() {
        Some(DiagnosticKind::RangeNotAllowed)
    } else {
        None
    }
}

} // verus!
