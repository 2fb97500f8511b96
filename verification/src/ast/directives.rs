use vstd::prelude::*;

use crate::ast::symbols::Field;

verus! {

/// The directives of a document (`;; @name value`).
#[derive(Debug)]
pub struct DirectiveMap {
    pub version: Field<String>,
}

impl DirectiveMap {
    pub fn new() -> (r: DirectiveMap)
        ensures
            r.version is None,
    {
        DirectiveMap { version: None }
    }
}

} // verus!
