use vstd::prelude::*;

use crate::ast::directives::DirectiveMap;
use crate::ast::params::InitialParams;
use crate::ast::symbols::{Field, ScopeId};
use crate::data_types::{List, Voice};

verus! {

/// The header of a document: what comes before `---`.
#[derive(Debug)]
pub struct Header {
    pub sid: ScopeId,
    pub metadata: HeaderMetadata,
    pub params: InitialParams,
    pub directives: DirectiveMap,
}

impl Header {
    pub fn new(scope_id: ScopeId) -> (r: Header)
        ensures
            r.sid == scope_id,
            r.metadata == HeaderMetadata::spec_empty(),
            r.params.key is None,
            r.params.time is None,
            r.params.tempo is None,
            r.params.voices is None,
            r.directives.version is None,
    {
        Header {
            sid: scope_id,
            metadata: HeaderMetadata::new(),
            params: InitialParams::new(),
            directives: DirectiveMap::new(),
        }
    }
}

/// What the header says of the piece (`[#]` lines of the header).
#[derive(Debug)]
pub struct HeaderMetadata {
    pub title: Field<String>,
    pub author: Field<List<String>>,
    pub composer: Field<List<String>>,
    pub voices: Field<List<Voice>>,
    pub verses: Field<usize>,
    pub meter: Field<List<usize>>,
    pub description: Field<String>,
    pub release: Field<usize>,
    pub language: Field<String>,
    pub tags: Field<List<String>>,
}

impl HeaderMetadata {
    pub open spec fn spec_empty() -> HeaderMetadata {
        HeaderMetadata {
            title: None,
            author: None,
            composer: None,
            voices: None,
            verses: None,
            meter: None,
            description: None,
            release: None,
            language: None,
            tags: None,
        }
    }

    pub fn new() -> (r: HeaderMetadata)
        ensures
            r == HeaderMetadata::spec_empty(),
    {
        HeaderMetadata {
            title: None,
            author: None,
            composer: None,
            voices: None,
            verses: None,
            meter: None,
            description: None,
            release: None,
            language: None,
            tags: None,
        }
    }
}

} // verus!
