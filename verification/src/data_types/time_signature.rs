use vstd::prelude::*;

use crate::ast::solfa::PulseAccent;

verus! {

/// A time signature: pulses per measure over the pulse's note value.
#[derive(Debug, Clone, Copy, PartialEq, Eq, Structural)]
pub struct TimeSignature {
    pub top: usize,
    pub bottom: usize,
}

impl TimeSignature {
    /// Pulses of a measure are grouped by three when the top is a multiple
    /// of three, by two otherwise.
    pub open spec fn spec_group_size(self) -> usize {
        if self.top % 3 == 0 {
            3
        } else {
            2
        }
    }

    /// The accent of the pulse at `position` in a measure: the first pulse is
    /// strong, the first of every later group medium, the others weak.
    pub open spec fn spec_accent(self, position: usize) -> PulseAccent {
        if position == 0 {
            PulseAccent::Strong
        } else if position % self.spec_group_size() == 0 {
            PulseAccent::Medium
        } else {
            PulseAccent::Weak
        }
    }

    pub fn get_accent(&self, position: usize) -> (r: PulseAccent)
        ensures
            r == self.spec_accent(position),
    {
        if position == 0 {
            return PulseAccent::Strong;
        }
        let group_size: usize = if self.top % 3 == 0 {
            3
        } else {
            2
        };
        if position % group_size == 0 {
            PulseAccent::Medium
        } else {
            PulseAccent::Weak
        }
    }

    pub fn default() -> (r: TimeSignature)
        ensures
            r.top == 0,
            r.bottom == 0,
    {
        TimeSignature { top: 0, bottom: 0 }
    }
}

/// Only the first pulse of a measure is strong, and the accents of a measure
/// repeat with the period of its groups.
pub proof fn lemma_accent_pattern(time: TimeSignature, position: usize)
    requires
        position + time.spec_group_size() <= usize::MAX,
    ensures
        (time.spec_accent(position) == PulseAccent::Strong) == (position == 0),
        position > 0 ==> time.spec_accent((position + time.spec_group_size()) as usize)
            == time.spec_accent(position),
{
    let g = time.spec_group_size();
    assert(((position + g) as usize) % g == position % g) by (nonlinear_arith)
        requires
            g == 2 || g == 3,
            position + g <= usize::MAX,
    ;
}

/// The accents of a measure: its first pulse is strong; after it, pulses
/// come in groups of three where the top of the signature is a multiple of
/// three (6/8, 9/8, 12/8, 3/4, ...), in pairs otherwise, and the first pulse
/// of each group is medium, the others weak.
pub proof fn lemma_accent_groups(time: TimeSignature, position: usize)
    ensures
        position == 0 ==> time.spec_accent(position) == PulseAccent::Strong,
        position > 0 && time.top % 3 == 0 ==> (time.spec_accent(position) == PulseAccent::Medium) == (position % 3
            == 0),
        position > 0 && time.top % 3 != 0 ==> (time.spec_accent(position) == PulseAccent::Medium) == (position % 2
            == 0),
        position > 0 ==> (time.spec_accent(position) == PulseAccent::Weak) == (time.spec_accent(position)
            != PulseAccent::Medium),
{
}

} // verus!
