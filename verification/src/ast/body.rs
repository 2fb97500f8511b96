use vstd::prelude::*;

use crate::ast::lyrics::LyricLine;
use crate::ast::params::{SectionParams, SubSectionParams};
use crate::ast::solfa::SolfaLine;
use crate::ast::symbols::{Field, ScopeId};

verus! {

/// The body of a document: its sections, in order.
#[derive(Debug)]
pub struct Body {
    pub sid: ScopeId,
    pub sections: Vec<Section>,
}

impl Body {
    pub fn new(sid: ScopeId) -> (r: Body)
        ensures
            r.sid == sid,
            r.sections@.len() == 0,
    {
        Body { sid, sections: Vec::new() }
    }
}

/// A section: sub-sections sharing one set of parameters.
#[derive(Debug)]
pub struct Section {
    pub sid: ScopeId,
    pub items: Vec<SubSection>,
    pub metadata: SectionMetadata,
    pub params: SectionParams,
    pub merge: bool,
}

impl Section {
    pub fn new(sid: ScopeId) -> (r: Section)
        ensures
            r.sid == sid,
            r.items@.len() == 0,
            r.metadata.name is None,
            r.metadata.ending is None,
            r.params == SectionParams::spec_empty(),
            !r.merge,
    {
        Section {
            sid,
            items: Vec::new(),
            metadata: SectionMetadata::new(),
            params: SectionParams::new(),
            merge: false,
        }
    }
}

/// What a section says of itself (`[#]` lines of a section).
#[derive(Debug)]
pub struct SectionMetadata {
    pub name: Field<String>,
    pub ending: Field<usize>,
}

impl SectionMetadata {
    pub fn new() -> (r: SectionMetadata)
        ensures
            r.name is None,
            r.ending is None,
    {
        SectionMetadata { name: None, ending: None }
    }
}

/// A sub-section: solfa lines with the lyrics sung under them.
#[derive(Debug)]
pub struct SubSection {
    pub id: usize,
    pub sid: ScopeId,
    pub params: SubSectionParams,
    pub solfa: Vec<SolfaLine>,
    pub lyrics: Vec<LyricLine>,
}

impl SubSection {
    pub fn new(sid: ScopeId) -> (r: SubSection)
        ensures
            r.id == 0,
            r.sid == sid,
            r.params.dynamics is None,
            r.solfa@.len() == 0,
            r.lyrics@.len() == 0,
    {
        SubSection {
            id: 0,
            sid,
            params: SubSectionParams::new(),
            solfa: Vec::new(),
            lyrics: Vec::new(),
        }
    }
}

} // verus!
