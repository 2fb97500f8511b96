use vstd::prelude::*;

use crate::ast::solfa::{Note, PulseAccent};
use crate::ast::symbols::ScopeId;
use crate::data_types::Voice;
use crate::ir::utils::{UnderlineMarker, UnderlineRange, starts_at, ends_at, spec_starts_at, spec_ends_at};
use crate::text::owned;

verus! {

/// A solfa line with its pulses laid out in columns.
#[derive(Debug)]
pub struct SolfaLineIr {
    pub sid: ScopeId,
    pub voice: Voice,
    pub pulses: Vec<PulseIr>,
}

/// The number of columns in the pulses before pulse `p`.
pub open spec fn column_offset(pulses: Seq<PulseIr>, p: int) -> int
    decreases p,
{
    if p <= 0 {
        0
    } else {
        column_offset(pulses, p - 1) + pulses[p - 1].columns@.len()
    }
}

proof fn lemma_column_offset_monotone(pulses: Seq<PulseIr>, p: int, q: int)
    requires
        0 <= p <= q,
    ensures
        column_offset(pulses, p) <= column_offset(pulses, q),
    decreases q - p,
{
    if p < q {
        lemma_column_offset_monotone(pulses, p, q - 1);
    }
}

/// Adding a pulse at the end leaves the offsets of the earlier pulses unchanged.
pub proof fn lemma_column_offset_push(pulses: Seq<PulseIr>, pulse: PulseIr, p: int)
    requires
        0 <= p <= pulses.len(),
    ensures
        column_offset(pulses.push(pulse), p) == column_offset(pulses, p),
    decreases p,
{
    if p > 0 {
        lemma_column_offset_push(pulses, pulse, p - 1);
        assert(pulses.push(pulse)[p - 1] == pulses[p - 1]);
    }
}

/// Two pulses agree on everything but the underline flags of their columns.
pub open spec fn same_but_underlines(a: PulseIr, b: PulseIr) -> bool {
    &&& a.expanded == b.expanded
    &&& a.sid == b.sid
    &&& a.accent == b.accent
    &&& a.factor == b.factor
    &&& a.columns@.len() == b.columns@.len()
    &&& forall|c: int|
        0 <= c < a.columns@.len() ==> (#[trigger] a.columns@[c]).duration == b.columns@[c].duration
            && a.columns@[c].kind == b.columns@[c].kind
}

impl SolfaLineIr {
    pub fn new(sid: ScopeId, voice: Voice) -> (r: SolfaLineIr)
        ensures
            r.sid == sid,
            r.voice == voice,
            r.pulses@.len() == 0,
    {
        SolfaLineIr { sid, voice, pulses: Vec::new() }
    }

    /// Marks every column of the line, numbered across its pulses, as opening
    /// an underline when some range starts there, and as closing one when some
    /// range ends just after it.
    pub fn fit_underlines(&mut self, underlines: &[UnderlineRange])
        requires
            forall|k: int| 0 <= k < underlines@.len() ==> #[trigger] underlines@[k].end > 0,
            column_offset(old(self).pulses@, old(self).pulses@.len() as int) <= usize::MAX,
        ensures
            final(self).sid == old(self).sid,
            final(self).voice == old(self).voice,
            final(self).pulses@.len() == old(self).pulses@.len(),
            forall|p: int|
                0 <= p < old(self).pulses@.len() ==> same_but_underlines(
                    #[trigger] final(self).pulses@[p],
                    old(self).pulses@[p],
                ),
            forall|p: int, c: int|
                0 <= p < old(self).pulses@.len() && 0 <= c < old(self).pulses@[p].columns@.len()
                    ==> {
                    let g = column_offset(old(self).pulses@, p) + c;
                    &&& (#[trigger] final(self).pulses@[p].columns@[c]).underline.left
                        == spec_starts_at(underlines@, g)
                    &&& final(self).pulses@[p].columns@[c].underline.right == spec_ends_at(
                        underlines@,
                        g,
                    )
                },
    {
        let n = self.pulses.len();
        let mut column_idx: usize = 0;
        let mut p: usize = 0;
        while p < n
            invariant
                n == self.pulses@.len(),
                n == old(self).pulses@.len(),
                self.sid == old(self).sid,
                self.voice == old(self).voice,
                p <= n,
                forall|k: int| 0 <= k < underlines@.len() ==> #[trigger] underlines@[k].end > 0,
                column_offset(old(self).pulses@, n as int) <= usize::MAX,
                column_idx == column_offset(old(self).pulses@, p as int),
                forall|q: int|
                    0 <= q < n ==> same_but_underlines(#[trigger] self.pulses@[q], old(self).pulses@[q]),
                forall|q: int| p <= q < n ==> #[trigger] self.pulses@[q] == old(self).pulses@[q],
                forall|q: int, c: int|
                    0 <= q < p && 0 <= c < old(self).pulses@[q].columns@.len() ==> {
                        let g = column_offset(old(self).pulses@, q) + c;
                        &&& (#[trigger] self.pulses@[q].columns@[c]).underline.left
                            == spec_starts_at(underlines@, g)
                        &&& self.pulses@[q].columns@[c].underline.right == spec_ends_at(
                            underlines@,
                            g,
                        )
                    },
            decreases n - p,
        {
            let m = self.pulses[p].columns.len();
            let mut c: usize = 0;
            while c < m
                invariant
                    n == self.pulses@.len(),
                    n == old(self).pulses@.len(),
                    p < n,
                    m == old(self).pulses@[p as int].columns@.len(),
                    c <= m,
                    forall|k: int| 0 <= k < underlines@.len() ==> #[trigger] underlines@[k].end > 0,
                    column_offset(old(self).pulses@, n as int) <= usize::MAX,
                    column_idx == column_offset(old(self).pulses@, p as int) + c,
                    self.sid == old(self).sid,
                    self.voice == old(self).voice,
                    forall|q: int|
                        0 <= q < n ==> same_but_underlines(#[trigger] self.pulses@[q], old(self).pulses@[q]),
                    forall|q: int| p < q < n ==> #[trigger] self.pulses@[q] == old(self).pulses@[q],
                    forall|q: int, c: int|
                        0 <= q < p && 0 <= c < old(self).pulses@[q].columns@.len() ==> {
                            let g = column_offset(old(self).pulses@, q) + c;
                            &&& (#[trigger] self.pulses@[q].columns@[c]).underline.left
                                == spec_starts_at(underlines@, g)
                            &&& self.pulses@[q].columns@[c].underline.right == spec_ends_at(
                                underlines@,
                                g,
                            )
                        },
                    same_but_underlines(self.pulses@[p as int], old(self).pulses@[p as int]),
                    forall|d: int| c <= d < m ==> #[trigger] self.pulses@[p as int].columns@[d] == old(self).pulses@[p as int].columns@[d],
                    forall|d: int|
                        0 <= d < c ==> {
                            let g = column_offset(old(self).pulses@, p as int) + d;
                            &&& (#[trigger] self.pulses@[p as int].columns@[d]).underline.left
                                == spec_starts_at(underlines@, g)
                            &&& self.pulses@[p as int].columns@[d].underline.right == spec_ends_at(
                                underlines@,
                                g,
                            )
                        },
                decreases m - c,
            {
                let left = starts_at(underlines, column_idx);
                let right = ends_at(underlines, column_idx);
                self.pulses[p].columns[c].underline = UnderlineMarker { left, right };
                proof {
                    lemma_column_offset_monotone(old(self).pulses@, p as int + 1, n as int);
                }
                column_idx = column_idx + 1;
                c = c + 1;
            }
            p = p + 1;
        }
    }
}

/// A pulse laid out in columns.
#[derive(Debug)]
pub struct PulseIr {
    pub expanded: bool,
    pub sid: ScopeId,
    pub accent: PulseAccent,
    pub columns: Vec<PulseColumn>,
    pub factor: usize,
}

impl PulseIr {
    pub fn new(sid: ScopeId, accent: PulseAccent) -> (r: PulseIr)
        ensures
            r.sid == sid,
            r.accent == accent,
            r.columns@.len() == 0,
            !r.expanded,
            r.factor == 1,
    {
        PulseIr { sid, accent, columns: Vec::new(), expanded: false, factor: 1 }
    }

    /// Adds a column of the given kind, with no duration and no underline yet.
    pub fn add_column(&mut self, kind: PulseColumnKind)
        ensures
            final(self).sid == old(self).sid,
            final(self).accent == old(self).accent,
            final(self).expanded == old(self).expanded,
            final(self).factor == old(self).factor,
            final(self).columns@ == old(self).columns@.push(
                PulseColumn { kind, duration: 0, underline: UnderlineMarker { left: false, right: false } },
            ),
    {
        self.columns.push(
            PulseColumn { kind, duration: 0, underline: UnderlineMarker { left: false, right: false } },
        );
    }

    /// Sets the denominator of the column durations.
    pub fn set_length(&mut self, length: usize)
        ensures
            final(self).factor == length,
            final(self).sid == old(self).sid,
            final(self).accent == old(self).accent,
            final(self).expanded == old(self).expanded,
            final(self).columns@ == old(self).columns@,
    {
        self.factor = length;
    }

    /// Gives column `i` the duration `durations[i]`, for every index both have.
    pub fn fit_durations(&mut self, durations: &[usize])
        ensures
            final(self).sid == old(self).sid,
            final(self).accent == old(self).accent,
            final(self).expanded == old(self).expanded,
            final(self).factor == old(self).factor,
            final(self).columns@.len() == old(self).columns@.len(),
            forall|i: int|
                0 <= i < old(self).columns@.len() ==> {
                    &&& (#[trigger] final(self).columns@[i]).kind == old(self).columns@[i].kind
                    &&& final(self).columns@[i].underline == old(self).columns@[i].underline
                    &&& final(self).columns@[i].duration == if i < durations@.len() {
                        durations@[i]
                    } else {
                        old(self).columns@[i].duration
                    }
                },
    {
        let n = durations.len();
        let mut i: usize = 0;
        while i < n
            invariant
                n == durations@.len(),
                i <= n,
                self.sid == old(self).sid,
                self.accent == old(self).accent,
                self.expanded == old(self).expanded,
                self.factor == old(self).factor,
                self.columns@.len() == old(self).columns@.len(),
                forall|j: int|
                    0 <= j < old(self).columns@.len() ==> {
                        &&& (#[trigger] self.columns@[j]).kind == old(self).columns@[j].kind
                        &&& self.columns@[j].underline == old(self).columns@[j].underline
                        &&& self.columns@[j].duration == if j < i {
                            durations@[j]
                        } else {
                            old(self).columns@[j].duration
                        }
                    },
            decreases n - i,
        {
            if i < self.columns.len() {
                self.columns[i].duration = durations[i];
            }
            i = i + 1;
        }
    }
}

/// One column of a pulse: what it holds, how long it lasts, and its underline ends.
#[derive(Debug, Clone, Copy, PartialEq, Eq, Structural)]
pub struct PulseColumn {
    pub duration: usize,
    pub underline: UnderlineMarker,
    pub kind: PulseColumnKind,
}

impl PulseColumn {
    pub fn is_empty(&self) -> (r: bool)
        ensures
            r == (self.kind == PulseColumnKind::EmptyNote),
    {
        matches!(self.kind, PulseColumnKind::EmptyNote)
    }
}

/// What a pulse column holds: a note, the prolongation of a note, or nothing.
#[derive(Debug, Clone, Copy, PartialEq, Eq, Structural)]
pub enum PulseColumnKind {
    Note(Note),
    ProlongedNote(Note),
    EmptyNote,
}

impl PulseColumnKind {
    pub open spec fn spec_text(self) -> Seq<char> {
        match self {
            PulseColumnKind::Note(note) => note.spec_text(),
            PulseColumnKind::ProlongedNote(_) => "-"@,
            PulseColumnKind::EmptyNote => " "@,
        }
    }

    pub fn to_string(&self) -> (r: String)
        ensures
            r@ == self.spec_text(),
    {
        match self {
            PulseColumnKind::Note(note) => note.to_string(),
            PulseColumnKind::ProlongedNote(_) => owned("-"),
            PulseColumnKind::EmptyNote => owned(" "),
        }
    }
}

} // verus!
