pub mod dynamics;
pub mod key;
pub mod marker;
pub mod navigation;
pub mod tempo;
pub mod time_signature;
pub mod touch;
pub mod voice;

pub use dynamics::Dynamic;
pub use key::Key;
pub use marker::Navigation;
pub use navigation::{Jump, Mark};
pub use tempo::{ExtendedTempo, ProgressiveTempo, StaticTempo, Tempo};
pub use time_signature::TimeSignature;
pub use touch::Touch;
pub use voice::Voice;

use vstd::prelude::*;

use crate::ast::symbols::SymbolRef;

verus! {

pub type List<T> = Vec<SymbolRef<T>>;

pub type TimedList<T> = List<TimedValue<T>>;

/// A decimal number written in the document, held exactly as
/// `numerator / denominator` with a power-of-ten denominator.
#[derive(Debug, Clone, Copy, PartialEq, Eq, Structural)]
pub struct Decimal {
    pub numerator: usize,
    pub denominator: usize,
}

/// A value placed at a point, or over a stretch, of a sub-section.
#[derive(Debug, Clone)]
pub struct TimedValue<T> {
    pub start: Decimal,
    pub end: Option<Decimal>,
    pub value: T,
}

} // verus!
