use vstd::prelude::*;

verus! {

/// The medium a score is laid out for.
#[derive(Debug, Clone, Copy, PartialEq, Eq, Structural)]
pub enum RenderType {
    Text,
    Image,
}

} // verus!
