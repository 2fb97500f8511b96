use vstd::prelude::*;

use crate::ast::solfa::{Note, Pulse, PulseToken, PulseTokenKind, SolfaLine};
use crate::ast::symbols::{SymbolId, SymbolTree};
use crate::diagnostics::types::{Diagnostic, DiagnosticKind, DiagnosticLevel, ReportStage};
use crate::ir::solfa::{PulseColumnKind, PulseIr};
use crate::ir::utils::{spec_computable, spec_divisor, spec_durations, UnderlineRange};
use crate::range::Range;

verus! {

/// A note is added to the last major beat.
pub open spec fn beats_append_note(beats: Seq<Seq<usize>>) -> Seq<Seq<usize>> {
    beats.update(beats.len() - 1, beats.last().push(1))
}

/// A `,` lengthens the previous note when the current major beat is still empty.
pub open spec fn beats_divide_sub(beats: Seq<Seq<usize>>) -> Seq<Seq<usize>> {
    if beats.len() > 0 && beats.last().len() == 0 {
        beats.update(beats.len() - 1, seq![0usize])
    } else {
        beats
    }
}

/// The state of laying out a pulse, token by token: the columns so far, the
/// beats so far, the underline markers with the column they stand before,
/// the prolongations that had no note to prolong, and whether a closing
/// divider ended the layout.
pub type PulseScan = (
    Seq<PulseColumnKind>,
    Seq<Seq<usize>>,
    Seq<(SymbolId, usize)>,
    Seq<SymbolId>,
    bool,
);

/// A pulse that is empty or opens with a divider starts with an empty column.
pub open spec fn scan_init(tokens: Seq<PulseToken>) -> PulseScan {
    if tokens.len() == 0 || tokens[0].value.spec_is_beat_divider() {
        (
            seq![PulseColumnKind::EmptyNote],
            beats_append_note(seq![Seq::empty()]),
            Seq::empty(),
            Seq::empty(),
            false,
        )
    } else {
        (Seq::empty(), seq![Seq::empty()], Seq::empty(), Seq::empty(), false)
    }
}

/// One token laid out. A divider with no column before it, or at the end of
/// the pulse, adds an empty column and ends the layout. A note adds a column,
/// a prolongation adds a column holding `ctx` (the last note of the earlier
/// pulses), or is an orphan where there is none; `.` opens a major beat,
/// `,` splits one, and an underline marker is recorded before the next column.
pub open spec fn scan_step(s: PulseScan, tokens: Seq<PulseToken>, i: int, ctx: Option<Note>) -> PulseScan {
    let t = tokens[i];
    if s.4 {
        s
    } else if t.value.spec_is_beat_divider() && (s.0.len() == 0 || i == tokens.len() - 1) {
        (s.0.push(PulseColumnKind::EmptyNote), beats_append_note(s.1), s.2, s.3, true)
    } else {
        let beats = if t.value.spec_is_note() {
            beats_append_note(s.1)
        } else {
            s.1
        };
        match t.value {
            PulseTokenKind::ProlongedNote => match ctx {
                Some(n) => (s.0.push(PulseColumnKind::ProlongedNote(n)), beats, s.2, s.3, false),
                None => (s.0, beats, s.2, s.3.push(t.sid), false),
            },
            PulseTokenKind::Note(n) => (s.0.push(PulseColumnKind::Note(n)), beats, s.2, s.3, false),
            PulseTokenKind::HalfDivision => (s.0, beats.push(Seq::empty()), s.2, s.3, false),
            PulseTokenKind::QuarterDivision => (s.0, beats_divide_sub(beats), s.2, s.3, false),
            PulseTokenKind::UnderlineMarker => (
                s.0,
                beats,
                s.2.push((t.sid, s.0.len() as usize)),
                s.3,
                false,
            ),
        }
    }
}

/// The layout after the first `k` tokens.
pub open spec fn scan_tokens(tokens: Seq<PulseToken>, k: int, ctx: Option<Note>) -> PulseScan
    decreases k,
{
    if k <= 0 {
        scan_init(tokens)
    } else {
        scan_step(scan_tokens(tokens, k - 1, ctx), tokens, k - 1, ctx)
    }
}

/// The layout of all the tokens of a pulse.
pub open spec fn scan_pulse(tokens: Seq<PulseToken>, ctx: Option<Note>) -> PulseScan {
    scan_tokens(tokens, tokens.len() as int, ctx)
}

/// Once a closing divider ended the layout, later tokens change nothing.
pub proof fn lemma_scan_done(tokens: Seq<PulseToken>, k: int, j: int, ctx: Option<Note>)
    requires
        0 <= k <= j,
        scan_tokens(tokens, k, ctx).4,
    ensures
        scan_tokens(tokens, j, ctx) == scan_tokens(tokens, k, ctx),
    decreases j - k,
{
    if j > k {
        lemma_scan_done(tokens, k, j - 1, ctx);
    }
}

/// Every layout keeps at least one major beat.
pub proof fn lemma_scan_beats(tokens: Seq<PulseToken>, k: int, ctx: Option<Note>)
    requires
        0 <= k,
    ensures
        scan_tokens(tokens, k, ctx).1.len() >= 1,
        scan_tokens(tokens, k, ctx).0.len() <= k + 1,
    decreases k,
{
    if k > 0 {
        lemma_scan_beats(tokens, k - 1, ctx);
    }
}

/// The note a column stands for, if any.
pub open spec fn column_note(kind: PulseColumnKind) -> Option<Note> {
    match kind {
        PulseColumnKind::Note(n) => Some(n),
        PulseColumnKind::ProlongedNote(n) => Some(n),
        PulseColumnKind::EmptyNote => None,
    }
}

/// The note held by the last column of the last pulse that has columns.
pub open spec fn last_note(pulses: Seq<PulseIr>) -> Option<Note>
    decreases pulses.len(),
{
    if pulses.len() == 0 {
        None
    } else if pulses.last().columns@.len() > 0 {
        column_note(pulses.last().columns@.last().kind)
    } else {
        last_note(pulses.drop_last())
    }
}

/// The note that a prolongation in pulse `p` of a line prolongs.
pub open spec fn line_ctx(pulses: Seq<Pulse>, p: int) -> Option<Note>
    decreases p,
{
    if p <= 0 {
        None
    } else {
        let prev = line_ctx(pulses, p - 1);
        let columns = scan_pulse(pulses[p - 1].tokens@, prev).0;
        if columns.len() > 0 {
            column_note(columns.last())
        } else {
            prev
        }
    }
}

/// The layout of pulse `p` of a line.
pub open spec fn line_scan(pulses: Seq<Pulse>, p: int) -> PulseScan {
    scan_pulse(pulses[p].tokens@, line_ctx(pulses, p))
}

/// An upper bound on the columns of the pulses before pulse `p`: one more
/// than its tokens for each pulse.
pub open spec fn line_size(pulses: Seq<Pulse>, p: int) -> int
    decreases p,
{
    if p <= 0 {
        0
    } else {
        line_size(pulses, p - 1) + pulses[p - 1].tokens@.len() + 1
    }
}

pub proof fn lemma_line_size_push(pulses: Seq<Pulse>, pulse: Pulse, p: int)
    requires
        0 <= p <= pulses.len(),
    ensures
        line_size(pulses.push(pulse), p) == line_size(pulses, p),
    decreases p,
{
    if p > 0 {
        lemma_line_size_push(pulses, pulse, p - 1);
        assert(pulses.push(pulse)[p - 1] == pulses[p - 1]);
    }
}

pub proof fn lemma_line_size_monotone(pulses: Seq<Pulse>, p: int, q: int)
    requires
        0 <= p <= q,
    ensures
        line_size(pulses, p) <= line_size(pulses, q),
    decreases q - p,
{
    if p < q {
        lemma_line_size_monotone(pulses, p, q - 1);
    }
}

/// The number of columns of the pulses before pulse `p`.
pub open spec fn line_offset(pulses: Seq<Pulse>, p: int) -> int
    decreases p,
{
    if p <= 0 {
        0
    } else {
        line_offset(pulses, p - 1) + line_scan(pulses, p - 1).0.len()
    }
}

/// The underline markers of a sequence of marks moved by `offset` columns.
pub open spec fn shift_marks(marks: Seq<(SymbolId, usize)>, offset: int) -> Seq<(SymbolId, usize)> {
    marks.map_values(|m: (SymbolId, usize)| (m.0, (m.1 + offset) as usize))
}

/// The underline markers of the pulses before pulse `p`, by line column.
pub open spec fn line_marks(pulses: Seq<Pulse>, p: int) -> Seq<(SymbolId, usize)>
    decreases p,
{
    if p <= 0 {
        Seq::empty()
    } else {
        line_marks(pulses, p - 1) + shift_marks(line_scan(pulses, p - 1).2, line_offset(pulses, p - 1))
    }
}

/// Underline markers paired in order: each marker opens an underline or
/// closes the open one; a range covering no column is dropped. The result is
/// the marker left open, if any, and the ranges.
pub open spec fn underline_fold(marks: Seq<(SymbolId, usize)>) -> (Option<(SymbolId, usize)>, Seq<UnderlineRange>)
    decreases marks.len(),
{
    if marks.len() == 0 {
        (None, Seq::empty())
    } else {
        let prev = underline_fold(marks.drop_last());
        let m = marks.last();
        match prev.0 {
            Some((_, start)) => (
                None,
                if start < m.1 {
                    prev.1.push(UnderlineRange { start, end: m.1 })
                } else {
                    prev.1
                },
            ),
            None => (Some(m), prev.1),
        }
    }
}

/// Every marker of `marks` is a symbol below `bound`.
pub open spec fn marks_below(marks: Seq<(SymbolId, usize)>, bound: int) -> bool {
    forall|k: int| 0 <= k < marks.len() ==> (#[trigger] marks[k]).0 < bound
}

pub proof fn lemma_scan_marks_below(tokens: Seq<PulseToken>, k: int, ctx: Option<Note>, bound: int)
    requires
        0 <= k <= tokens.len(),
        forall|j: int| 0 <= j < tokens.len() ==> (#[trigger] tokens[j]).sid < bound,
    ensures
        marks_below(scan_tokens(tokens, k, ctx).2, bound),
    decreases k,
{
    if k > 0 {
        lemma_scan_marks_below(tokens, k - 1, ctx, bound);
        let s = scan_tokens(tokens, k - 1, ctx);
        let t = scan_tokens(tokens, k, ctx);
        assert(tokens[k - 1].sid < bound);
        assert forall|j: int| 0 <= j < t.2.len() implies (#[trigger] t.2[j]).0 < bound by {
            if j < s.2.len() {
                assert(t.2[j] == s.2[j]);
            }
        }
    }
}

pub proof fn lemma_line_marks_below(pulses: Seq<Pulse>, p: int, bound: int)
    requires
        0 <= p <= pulses.len(),
        forall|q: int, j: int|
            0 <= q < pulses.len() && 0 <= j < pulses[q].tokens@.len() ==> (
            #[trigger] pulses[q].tokens@[j]).sid < bound,
    ensures
        marks_below(line_marks(pulses, p), bound),
    decreases p,
{
    if p > 0 {
        lemma_line_marks_below(pulses, p - 1, bound);
        let tokens = pulses[p - 1].tokens@;
        assert forall|j: int| 0 <= j < tokens.len() implies (#[trigger] tokens[j]).sid < bound by {
            assert(pulses[p - 1].tokens@[j].sid < bound);
        }
        lemma_scan_marks_below(tokens, tokens.len() as int, line_ctx(pulses, p - 1), bound);
        let a = line_marks(pulses, p - 1);
        let b = shift_marks(line_scan(pulses, p - 1).2, line_offset(pulses, p - 1));
        assert forall|j: int| 0 <= j < (a + b).len() implies (#[trigger] (a + b)[j]).0 < bound by {
            if j >= a.len() {
                assert((a + b)[j] == b[j - a.len()]);
            }
        }
    }
}

/// The marker left open is one of the markers.
pub proof fn lemma_fold_open_below(marks: Seq<(SymbolId, usize)>, bound: int)
    requires
        marks_below(marks, bound),
    ensures
        underline_fold(marks).0 matches Some((sid, _)) ==> sid < bound,
    decreases marks.len(),
{
    if marks.len() > 0 {
        assert forall|k: int| 0 <= k < marks.drop_last().len() implies (#[trigger] marks.drop_last()[k]).0 < bound by {
            assert(marks.drop_last()[k] == marks[k]);
        }
        lemma_fold_open_below(marks.drop_last(), bound);
        assert(marks.last() == marks[marks.len() - 1]);
    }
}

pub open spec fn error_at(range: Range, kind: DiagnosticKind) -> Diagnostic {
    Diagnostic { level: DiagnosticLevel::Error, stage: ReportStage::IRBuild, kind, range }
}

/// Whether the durations of a pulse laid out as `s` are computed: it has at
/// most two major beats and its common denominator fits.
pub open spec fn scan_well_divided(s: PulseScan) -> bool {
    s.1.len() <= 2 && spec_computable(s.1)
}

/// One error per orphan prolongation, at its token.
pub open spec fn orphan_diags(tree: SymbolTree, sids: Seq<SymbolId>) -> Seq<Diagnostic> {
    sids.map_values(
        |sid: SymbolId| error_at(tree.spec_symbols()[sid as int].range, DiagnosticKind::InvalidNoteProlongation),
    )
}

pub proof fn lemma_orphan_diags_push(tree: SymbolTree, sids: Seq<SymbolId>, sid: SymbolId)
    ensures
        orphan_diags(tree, sids.push(sid)) == orphan_diags(tree, sids).push(
            error_at(tree.spec_symbols()[sid as int].range, DiagnosticKind::InvalidNoteProlongation),
        ),
{
    assert(orphan_diags(tree, sids.push(sid)) =~= orphan_diags(tree, sids).push(
        error_at(tree.spec_symbols()[sid as int].range, DiagnosticKind::InvalidNoteProlongation),
    ));
}

/// The diagnostics of a pulse: one per orphan prolongation, then one for a
/// pulse that is split into more than two major beats (or whose common
/// denominator does not fit).
pub open spec fn pulse_diags(tree: SymbolTree, pulse: Pulse, s: PulseScan) -> Seq<Diagnostic> {
    let orphans = orphan_diags(tree, s.3);
    if scan_well_divided(s) {
        orphans
    } else {
        orphans.push(
            error_at(tree.spec_scopes()[pulse.sid as int].range, DiagnosticKind::InvalidNoteDistribution),
        )
    }
}

/// The diagnostics of the pulses before pulse `p` of a line.
pub open spec fn line_pulse_diags(tree: SymbolTree, pulses: Seq<Pulse>, p: int) -> Seq<Diagnostic>
    decreases p,
{
    if p <= 0 {
        Seq::empty()
    } else {
        line_pulse_diags(tree, pulses, p - 1) + pulse_diags(tree, pulses[p - 1], line_scan(pulses, p - 1))
    }
}

/// The error for an underline left open: from its marker to the end of the line.
pub open spec fn trailing_diag(tree: SymbolTree, open: Option<(SymbolId, usize)>, line_sid: usize) -> Seq<Diagnostic> {
    match open {
        Some((sid, _)) => seq![
            error_at(
                tree.spec_symbols()[sid as int].range.spec_merge(tree.spec_scopes()[line_sid as int].range),
                DiagnosticKind::UnmatchedUnderline,
            ),
        ],
        None => Seq::empty(),
    }
}

/// The diagnostics of a solfa line.
pub open spec fn solfa_line_diags(tree: SymbolTree, line: SolfaLine) -> Seq<Diagnostic> {
    let n = line.pulses@.len() as int;
    line_pulse_diags(tree, line.pulses@, n) + trailing_diag(
        tree,
        underline_fold(line_marks(line.pulses@, n)).0,
        line.sid,
    )
}

/// A pulse laid out from `s`: every column holds the scanned kind and, when
/// the durations are computed, its duration; the factor is their common
/// denominator (zero when not computed).
pub open spec fn pulse_layout(ir: PulseIr, pulse: Pulse, s: PulseScan) -> bool {
    let durations = spec_durations(s.1);
    &&& ir.sid == pulse.sid
    &&& ir.accent == pulse.accent.value
    &&& !ir.expanded
    &&& ir.factor == if spec_computable(s.1) {
        spec_divisor(s.1)
    } else {
        0
    }
    &&& ir.columns@.len() == s.0.len()
    &&& forall|k: int|
        0 <= k < s.0.len() ==> {
            &&& (#[trigger] ir.columns@[k]).kind == s.0[k]
            &&& ir.columns@[k].duration == if spec_computable(s.1) && k < durations.len() {
                durations[k]
            } else {
                0
            }
        }
}

} // verus!
