use vstd::prelude::*;

use crate::ast::lyrics::{LyricChunkKind, LyricColumn, LyricLine, LyricOperatorKind, LyricString, LyricStringKind, LyricToken};
use crate::ast::body::{Body, Section, SubSection};
use crate::ast::solfa::{Note, Pulse, PulseTokenKind, SolfaLine};
use crate::ast::symbols::{ScopeId, SymbolId, SymbolTree};
use crate::diagnostics::reporter::DiagnosticReporter;
use crate::diagnostics::types::{Diagnostic, DiagnosticKind, ReportStage};
use crate::ir::lyric_scan::{
    column_result, column_scan, lemma_column_scan_monotone, lemma_line_scan_monotone, lemma_shift_concat,
    lemma_shift_shift, lemma_string_marks_bound, lemma_string_scan_monotone, line_columns, lyric_column_layout,
    lyric_ids_valid, lyric_line_diags, lyric_line_layout, lyric_line_scan, lyric_line_width, string_scan,
};
use crate::ir::lyrics::{LyricColumnIR, LyricLineIR, LyricStringIR};
use crate::ir::{column_durations, matches_view, BodyIR, PulseView, SectionIR, SubSectionIR};
use crate::ir::scan::{
    error_at, last_note, lemma_fold_open_below, lemma_line_marks_below, lemma_line_size_monotone, lemma_orphan_diags_push, lemma_scan_beats,
    line_ctx, line_marks, line_offset, line_pulse_diags, line_scan, line_size, orphan_diags,
    solfa_line_diags, trailing_diag, lemma_scan_done, pulse_diags, pulse_layout, scan_init,
    scan_pulse, scan_step, scan_tokens, shift_marks, underline_fold,
};
use crate::ir::solfa::{
    column_offset, lemma_column_offset_push, same_but_underlines, PulseColumnKind, PulseIr, SolfaLineIr,
};
use crate::ir::utils::{spec_computable, spec_ends_at, spec_starts_at, BeatBuffer, UnderlineBuffer};

verus! {

/// The ids of a pulse point into the tree.
pub open spec fn pulse_ids_valid(tree: SymbolTree, pulse: Pulse) -> bool {
    &&& pulse.sid < tree.spec_scopes().len()
    &&& forall|k: int|
        0 <= k < pulse.tokens@.len() ==> #[trigger] pulse.tokens@[k].sid < tree.spec_symbols().len()
}

/// The ids of a solfa line point into the tree.
pub open spec fn solfa_ids_valid(tree: SymbolTree, line: SolfaLine) -> bool {
    &&& line.sid < tree.spec_scopes().len()
    &&& forall|p: int| 0 <= p < line.pulses@.len() ==> pulse_ids_valid(tree, #[trigger] line.pulses@[p])
}

/// The result of building the layout of a body.
#[derive(Debug)]
pub struct IRBuilderOutput {
    pub body: crate::ir::BodyIR,
    pub reporter: DiagnosticReporter,
}

/// Lays out the body of a parsed document, and reports what cannot be laid out.
#[derive(Debug)]
pub struct IRBuilder<'a> {
    pub tree: &'a SymbolTree,
    pub reporter: DiagnosticReporter,
}

impl<'a> IRBuilder<'a> {
    pub fn new(tree: &'a SymbolTree) -> (r: IRBuilder<'a>)
        ensures
            r.tree == tree,
            r.reporter.spec_stage() == ReportStage::IRBuild,
            r.reporter.spec_diagnostics().len() == 0,
    {
        IRBuilder { tree, reporter: DiagnosticReporter::new(ReportStage::IRBuild) }
    }

    /// The note held by the last column of the last pulse of the line that
    /// has columns.
    fn resolve_last_note(&self, line_ir: &SolfaLineIr) -> (r: Option<Note>)
        ensures
            r == last_note(line_ir.pulses@),
    {
        let mut i = line_ir.pulses.len();
        assert(line_ir.pulses@.subrange(0, i as int) =~= line_ir.pulses@);
        while i > 0
            invariant
                i <= line_ir.pulses@.len(),
                last_note(line_ir.pulses@) == last_note(line_ir.pulses@.subrange(0, i as int)),
            decreases i,
        {
            let ghost prefix = line_ir.pulses@.subrange(0, i as int);
            assert(prefix.drop_last() =~= line_ir.pulses@.subrange(0, i - 1));
            let columns = &line_ir.pulses[i - 1].columns;
            if columns.len() > 0 {
                return match columns[columns.len() - 1].kind {
                    PulseColumnKind::Note(note) => Some(note),
                    PulseColumnKind::ProlongedNote(note) => Some(note),
                    PulseColumnKind::EmptyNote => None,
                };
            }
            i = i - 1;
        }
        assert(line_ir.pulses@.subrange(0, 0) =~= Seq::<PulseIr>::empty());
        None
    }

    /// Lays out one pulse of a line. `marks` are the underline markers of the
    /// earlier pulses, which the underline buffer has already paired.
    fn build_pulse_ir(
        &mut self,
        pulse: &Pulse,
        line_ir: &SolfaLineIr,
        underline_buffer: &mut UnderlineBuffer,
        Ghost(marks): Ghost<Seq<(SymbolId, usize)>>,
    ) -> (r: PulseIr)
        requires
            pulse_ids_valid(*old(self).tree, *pulse),
            old(self).reporter.spec_stage() == ReportStage::IRBuild,
            old(underline_buffer).wf(),
            old(underline_buffer).spec_offset() + pulse.tokens@.len() + 1 <= usize::MAX,
            (old(underline_buffer).spec_open(), old(underline_buffer).spec_ranges()) == underline_fold(
                marks,
            ),
        ensures
            ({
                let s = scan_pulse(pulse.tokens@, last_note(line_ir.pulses@));
                &&& pulse_layout(r, *pulse, s)
                &&& forall|k: int|
                    0 <= k < r.columns@.len() ==> !(#[trigger] r.columns@[k]).underline.left
                        && !r.columns@[k].underline.right
                &&& final(self).tree == old(self).tree
                &&& final(self).reporter.spec_stage() == old(self).reporter.spec_stage()
                &&& final(self).reporter.spec_diagnostics() == old(self).reporter.spec_diagnostics()
                    + pulse_diags(*old(self).tree, *pulse, s)
                &&& final(underline_buffer).wf()
                &&& final(underline_buffer).spec_offset() == old(underline_buffer).spec_offset()
                    + s.0.len()
                &&& (final(underline_buffer).spec_open(), final(underline_buffer).spec_ranges())
                    == underline_fold(
                    marks + shift_marks(s.2, old(underline_buffer).spec_offset() as int),
                )
            }),
    {
        let ghost ctx = last_note(line_ir.pulses@);
        let ghost tokens = pulse.tokens@;
        let ghost offset = underline_buffer.spec_offset() as int;
        let ghost diags0 = self.reporter.spec_diagnostics();
        let n = pulse.tokens.len();
        let mut pulse_ir = PulseIr::new(pulse.sid, pulse.accent.value);
        let mut beat_buffer = BeatBuffer::default();
        assert(beat_buffer.spec_beats()[0] =~= Seq::<usize>::empty());
        assert(beat_buffer.spec_beats() =~= seq![Seq::<usize>::empty()]);
        if n == 0 || pulse.tokens[0].value.is_beat_divider() {
            pulse_ir.add_column(PulseColumnKind::EmptyNote);
            beat_buffer.append_note();
            assert(beat_buffer.spec_beats() =~= scan_init(tokens).1);
        } else {
            assert(beat_buffer.spec_beats() =~= scan_init(tokens).1);
        }
        proof {
            assert(shift_marks(Seq::empty(), offset) =~= Seq::<(SymbolId, usize)>::empty());
            assert(marks + Seq::<(SymbolId, usize)>::empty() =~= marks);
            assert(orphan_diags(*self.tree, scan_init(tokens).3) =~= Seq::<Diagnostic>::empty());
            assert(diags0 + Seq::<Diagnostic>::empty() =~= diags0);
        }
        let mut done = false;
        let mut i: usize = 0;
        while i < n && !done
            invariant
                n == tokens.len(),
                tokens == pulse.tokens@,
                ctx == last_note(line_ir.pulses@),
                i <= n,
                pulse_ids_valid(*self.tree, *pulse),
                self.tree == old(self).tree,
                self.reporter.spec_stage() == ReportStage::IRBuild,
                diags0 == old(self).reporter.spec_diagnostics(),
                offset == old(underline_buffer).spec_offset(),
                offset + n + 1 <= usize::MAX,
                done == scan_tokens(tokens, i as int, ctx).4,
                pulse_ir.sid == pulse.sid,
                pulse_ir.accent == pulse.accent.value,
                !pulse_ir.expanded,
                pulse_ir.factor == 1,
                pulse_ir.columns@.len() == scan_tokens(tokens, i as int, ctx).0.len(),
                forall|k: int|
                    0 <= k < pulse_ir.columns@.len() ==> {
                        &&& (#[trigger] pulse_ir.columns@[k]).kind == scan_tokens(tokens, i as int, ctx).0[k]
                        &&& pulse_ir.columns@[k].duration == 0
                        &&& !pulse_ir.columns@[k].underline.left
                        &&& !pulse_ir.columns@[k].underline.right
                    },
                beat_buffer.beats@.len() >= 1,
                beat_buffer.spec_beats() == scan_tokens(tokens, i as int, ctx).1,
                underline_buffer.wf(),
                underline_buffer.spec_offset() == offset,
                (underline_buffer.spec_open(), underline_buffer.spec_ranges()) == underline_fold(
                    marks + shift_marks(scan_tokens(tokens, i as int, ctx).2, offset),
                ),
                self.reporter.spec_diagnostics() == diags0 + orphan_diags(
                    *self.tree,
                    scan_tokens(tokens, i as int, ctx).3,
                ),
            decreases n - i,
        {
            let ghost s = scan_tokens(tokens, i as int, ctx);
            proof {
                lemma_scan_beats(tokens, i as int, ctx);
            }
            let token = &pulse.tokens[i];
            if token.value.is_beat_divider() && (pulse_ir.columns.len() == 0 || i + 1 == n) {
                pulse_ir.add_column(PulseColumnKind::EmptyNote);
                beat_buffer.append_note();
                done = true;
            } else {
                if token.value.is_note() {
                    beat_buffer.append_note();
                }
                match token.value {
                    PulseTokenKind::ProlongedNote => {
                        if let Some(last_note) = self.resolve_last_note(line_ir) {
                            pulse_ir.add_column(PulseColumnKind::ProlongedNote(last_note));
                        } else {
                            let range = self.tree.get_symbol_range(token.sid);
                            self.reporter.error(range, DiagnosticKind::InvalidNoteProlongation);
                            proof {
                                lemma_orphan_diags_push(*self.tree, s.3, token.sid);
                                let od = orphan_diags(*self.tree, s.3);
                                let e = error_at(range, DiagnosticKind::InvalidNoteProlongation);
                                assert((diags0 + od).push(e) =~= diags0 + od.push(e));
                            }
                        }
                    },
                    PulseTokenKind::Note(note) => {
                        pulse_ir.add_column(PulseColumnKind::Note(note));
                    },
                    PulseTokenKind::HalfDivision => {
                        beat_buffer.divide();
                    },
                    PulseTokenKind::QuarterDivision => {
                        beat_buffer.divide_sub();
                    },
                    PulseTokenKind::UnderlineMarker => {
                        let local = pulse_ir.columns.len();
                        underline_buffer.mark(token.sid, local);
                        proof {
                            let m = (token.sid, (offset + local) as usize);
                            assert(shift_marks(s.2.push((token.sid, local)), offset) =~= shift_marks(s.2, offset).push(m));
                            let all = marks + shift_marks(s.2, offset);
                            assert(marks + shift_marks(s.2, offset).push(m) =~= all.push(m));
                            assert(all.push(m).drop_last() =~= all);
                        }
                    },
                }
            }
            i = i + 1;
            proof {
                let t = scan_tokens(tokens, i as int, ctx);
                assert(t == scan_step(s, tokens, i - 1, ctx));
                assert(beat_buffer.spec_beats() =~= t.1);
                assert(t.0.len() == pulse_ir.columns@.len());
            }
        }
        proof {
            if done {
                lemma_scan_done(tokens, i as int, n as int, ctx);
            }
            lemma_scan_beats(tokens, n as int, ctx);
        }
        let ghost s = scan_pulse(tokens, ctx);
        assert(s == scan_tokens(tokens, i as int, ctx));
        let well_divided = beat_buffer.is_valid();
        let computable = beat_buffer.is_computable();
        if computable {
            let (durations, length) = beat_buffer.get_durations();
            if !well_divided {
                let range = self.tree.get_scope_range(pulse.sid);
                self.reporter.error(range, DiagnosticKind::InvalidNoteDistribution);
            }
            pulse_ir.set_length(length);
            pulse_ir.fit_durations(durations.as_slice());
        } else {
            let range = self.tree.get_scope_range(pulse.sid);
            self.reporter.error(range, DiagnosticKind::InvalidNoteDistribution);
            pulse_ir.set_length(0);
        }
        underline_buffer.add_offset(pulse_ir.columns.len());
        pulse_ir
    }

    /// Lays out a solfa line: its pulses in order, the underlines over its
    /// columns, and an error for an underline left open.
    fn build_solfa_line_ir(&mut self, line: &SolfaLine) -> (r: SolfaLineIr)
        requires
            solfa_ids_valid(*old(self).tree, *line),
            old(self).reporter.spec_stage() == ReportStage::IRBuild,
            line_size(line.pulses@, line.pulses@.len() as int) <= usize::MAX,
        ensures
            final(self).tree == old(self).tree,
            final(self).reporter.spec_stage() == ReportStage::IRBuild,
            final(self).reporter.spec_diagnostics() == old(self).reporter.spec_diagnostics()
                + solfa_line_diags(*old(self).tree, *line),
            solfa_line_layout(r, *line),
    {
        let ghost pulses = line.pulses@;
        let ghost diags0 = self.reporter.spec_diagnostics();
        let n = line.pulses.len();
        let mut line_ir = SolfaLineIr::new(line.sid, line.voice.value);
        let mut underline_buffer = UnderlineBuffer::default();
        proof {
            assert(diags0 + Seq::<Diagnostic>::empty() =~= diags0);
        }
        let mut p: usize = 0;
        while p < n
            invariant
                n == pulses.len(),
                pulses == line.pulses@,
                p <= n,
                solfa_ids_valid(*self.tree, *line),
                line_size(pulses, n as int) <= usize::MAX,
                self.tree == old(self).tree,
                self.reporter.spec_stage() == ReportStage::IRBuild,
                diags0 == old(self).reporter.spec_diagnostics(),
                self.reporter.spec_diagnostics() == diags0 + line_pulse_diags(*self.tree, pulses, p as int),
                line_ir.sid == line.sid,
                line_ir.voice == line.voice.value,
                line_ir.pulses@.len() == p,
                forall|q: int|
                    0 <= q < p ==> pulse_layout(#[trigger] line_ir.pulses@[q], pulses[q], line_scan(pulses, q)),
                forall|q: int, k: int|
                    0 <= q < p && 0 <= k < line_ir.pulses@[q].columns@.len() ==> !(
                    #[trigger] line_ir.pulses@[q].columns@[k]).underline.left
                        && !line_ir.pulses@[q].columns@[k].underline.right,
                last_note(line_ir.pulses@) == line_ctx(pulses, p as int),
                forall|q: int|
                    0 <= q <= p ==> #[trigger] column_offset(line_ir.pulses@, q) == line_offset(pulses, q),
                line_offset(pulses, p as int) <= line_size(pulses, p as int),
                underline_buffer.wf(),
                underline_buffer.spec_offset() == line_offset(pulses, p as int),
                (underline_buffer.spec_open(), underline_buffer.spec_ranges()) == underline_fold(
                    line_marks(pulses, p as int),
                ),
            decreases n - p,
        {
            proof {
                lemma_line_size_monotone(pulses, p as int + 1, n as int);
                assert(pulses[p as int] == line.pulses@[p as int]);
            }
            let pulse_ir = self.build_pulse_ir(
                &line.pulses[p],
                &line_ir,
                &mut underline_buffer,
                Ghost(line_marks(pulses, p as int)),
            );
            let ghost before = line_ir.pulses@;
            line_ir.pulses.push(pulse_ir);
            proof {
                let s = line_scan(pulses, p as int);
                let after = line_ir.pulses@;
                lemma_scan_beats(pulses[p as int].tokens@, pulses[p as int].tokens@.len() as int, line_ctx(pulses, p as int));
                assert(after.drop_last() =~= before);
                assert(after.subrange(0, p as int) =~= before);
                assert forall|q: int| 0 <= q < p + 1 implies pulse_layout(#[trigger] after[q], pulses[q], line_scan(pulses, q)) by {
                    if q < p {
                        assert(after[q] == before[q]);
                    }
                }
                assert forall|q: int| 0 <= q <= p + 1 implies #[trigger] column_offset(after, q) == line_offset(pulses, q) by {
                    if q <= p {
                        lemma_column_offset_push(before, pulse_ir, q);
                    } else {
                        lemma_column_offset_push(before, pulse_ir, p as int);
                    }
                }
                let od = line_pulse_diags(*self.tree, pulses, p as int);
                assert(diags0 + od + pulse_diags(*self.tree, pulses[p as int], s) =~= diags0 + (od
                    + pulse_diags(*self.tree, pulses[p as int], s)));
            }
            p = p + 1;
        }
        proof {
            assert forall|q: int, j: int|
                0 <= q < pulses.len() && 0 <= j < pulses[q].tokens@.len() implies (
                #[trigger] pulses[q].tokens@[j]).sid < self.tree.spec_symbols().len() by {
                assert(pulse_ids_valid(*self.tree, pulses[q]));
            }
            lemma_line_marks_below(pulses, n as int, self.tree.spec_symbols().len() as int);
            lemma_fold_open_below(line_marks(pulses, n as int), self.tree.spec_symbols().len() as int);
        }
        if let Some(sid) = underline_buffer.get_trailing() {
            self.report_trailing_underline(sid, line.sid);
        }
        let ghost pulses_before = line_ir.pulses@;
        line_ir.fit_underlines(underline_buffer.results());
        proof {
            let all = line_pulse_diags(*self.tree, pulses, n as int);
            let tr = trailing_diag(*self.tree, underline_fold(line_marks(pulses, n as int)).0, line.sid);
            assert(diags0 + all + tr =~= diags0 + (all + tr));
            assert forall|q: int| 0 <= q < n implies pulse_layout(#[trigger] line_ir.pulses@[q], pulses[q], line_scan(pulses, q)) by {
                assert(same_but_underlines(line_ir.pulses@[q], pulses_before[q]));
            }
        }
        line_ir
    }

    /// Reports an underline left open, from its marker to the end of the line.
    fn report_trailing_underline(&mut self, underline_sid: SymbolId, line_sid: ScopeId)
        requires
            underline_sid < old(self).tree.spec_symbols().len(),
            line_sid < old(self).tree.spec_scopes().len(),
            old(self).reporter.spec_stage() == ReportStage::IRBuild,
        ensures
            final(self).tree == old(self).tree,
            final(self).reporter.spec_stage() == ReportStage::IRBuild,
            final(self).reporter.spec_diagnostics() == old(self).reporter.spec_diagnostics()
                + trailing_diag(*old(self).tree, Some((underline_sid, 0usize)), line_sid),
    {
        let underline_range = self.tree.get_symbol_range(underline_sid);
        let line_range = self.tree.get_scope_range(line_sid);
        self.reporter.error(underline_range.merge(line_range), DiagnosticKind::UnmatchedUnderline);
        proof {
            let d = trailing_diag(*old(self).tree, Some((underline_sid, 0usize)), line_sid);
            assert(old(self).reporter.spec_diagnostics() + d =~= old(self).reporter.spec_diagnostics().push(d[0]));
        }
    }

    /// Lays out the pieces of one lyric string, pairing its underline markers.
    fn build_lyric_string_ir(
        &self,
        chunks: &[LyricString],
        underline_buffer: &mut UnderlineBuffer,
        Ghost(marks): Ghost<Seq<(SymbolId, usize)>>,
    ) -> (r: Vec<LyricStringIR>)
        requires
            old(underline_buffer).wf(),
            old(underline_buffer).spec_offset() + string_scan(chunks@, chunks@.len() as int).0.len()
                <= usize::MAX,
            (old(underline_buffer).spec_open(), old(underline_buffer).spec_ranges()) == underline_fold(
                marks,
            ),
        ensures
            r@ == string_scan(chunks@, chunks@.len() as int).0,
            final(underline_buffer).wf(),
            final(underline_buffer).spec_offset() == old(underline_buffer).spec_offset() + r@.len(),
            (final(underline_buffer).spec_open(), final(underline_buffer).spec_ranges()) == underline_fold(
                marks + shift_marks(
                    string_scan(chunks@, chunks@.len() as int).1,
                    old(underline_buffer).spec_offset() as int,
                ),
            ),
    {
        let ghost offset = underline_buffer.spec_offset() as int;
        let n = chunks.len();
        let mut partials: Vec<LyricStringIR> = Vec::new();
        proof {
            assert(shift_marks(Seq::empty(), offset) =~= Seq::<(SymbolId, usize)>::empty());
            assert(marks + Seq::<(SymbolId, usize)>::empty() =~= marks);
            assert(partials@ =~= string_scan(chunks@, 0).0);
        }
        let mut i: usize = 0;
        while i < n
            invariant
                n == chunks@.len(),
                i <= n,
                offset == old(underline_buffer).spec_offset(),
                offset + string_scan(chunks@, n as int).0.len() <= usize::MAX,
                partials@ == string_scan(chunks@, i as int).0,
                underline_buffer.wf(),
                underline_buffer.spec_offset() == offset,
                (underline_buffer.spec_open(), underline_buffer.spec_ranges()) == underline_fold(
                    marks + shift_marks(string_scan(chunks@, i as int).1, offset),
                ),
            decreases n - i,
        {
            let ghost s = string_scan(chunks@, i as int);
            proof {
                lemma_string_scan_monotone(chunks@, i as int, n as int);
            }
            let token = &chunks[i];
            match token.value {
                LyricStringKind::UnderlineMarker => {
                    let local = partials.len();
                    underline_buffer.mark(token.sid, local);
                    proof {
                        let m = (token.sid, (offset + local) as usize);
                        assert(shift_marks(s.1.push((token.sid, local)), offset) =~= shift_marks(s.1, offset).push(m));
                        let all = marks + shift_marks(s.1, offset);
                        assert(marks + shift_marks(s.1, offset).push(m) =~= all.push(m));
                        assert(all.push(m).drop_last() =~= all);
                    }
                },
                LyricStringKind::Reference(id) => {
                    partials.push(LyricStringIR::Reference(id));
                },
                LyricStringKind::SpecialChar(c) => {
                    partials.push(LyricStringIR::Special(c));
                },
            }
            i = i + 1;
        }
        underline_buffer.add_offset(partials.len());
        partials
    }

    /// Lays out one lyric column: its operators, its placeholder, and its strings.
    fn build_lyric_column_ir(
        &self,
        column: &LyricColumn,
        underline_buffer: &mut UnderlineBuffer,
        Ghost(marks): Ghost<Seq<(SymbolId, usize)>>,
    ) -> (r: LyricColumnIR)
        requires
            old(underline_buffer).wf(),
            old(underline_buffer).spec_offset() + column_result(column.chunks@).4 <= usize::MAX,
            (old(underline_buffer).spec_open(), old(underline_buffer).spec_ranges()) == underline_fold(
                marks,
            ),
        ensures
            lyric_column_layout(r, *column),
            final(underline_buffer).wf(),
            final(underline_buffer).spec_offset() == old(underline_buffer).spec_offset() + column_result(
                column.chunks@,
            ).4,
            (final(underline_buffer).spec_open(), final(underline_buffer).spec_ranges()) == underline_fold(
                marks + shift_marks(column_result(column.chunks@).3, old(underline_buffer).spec_offset() as int),
            ),
    {
        let ghost offset = underline_buffer.spec_offset() as int;
        let ghost chunks = column.chunks@;
        let n = column.chunks.len();
        let mut column_ir = LyricColumnIR::new(column.sid, column.span);
        proof {
            assert(shift_marks(Seq::empty(), offset) =~= Seq::<(SymbolId, usize)>::empty());
            assert(marks + Seq::<(SymbolId, usize)>::empty() =~= marks);
            assert(column_ir.operators@ =~= column_scan(chunks, 0).0);
        }
        let mut k: usize = 0;
        while k < n
            invariant
                n == chunks.len(),
                chunks == column.chunks@,
                k <= n,
                offset == old(underline_buffer).spec_offset(),
                offset + column_scan(chunks, n as int).4 <= usize::MAX,
                column_ir.sid == column.sid,
                column_ir.span == column.span,
                column_ir.operators@ == column_scan(chunks, k as int).0,
                column_ir.placeholder == column_scan(chunks, k as int).1,
                column_ir.chunks@.len() == column_scan(chunks, k as int).2.len(),
                forall|i: int|
                    0 <= i < column_ir.chunks@.len() ==> (#[trigger] column_ir.chunks@[i]).partials@
                        == column_scan(chunks, k as int).2[i],
                underline_buffer.wf(),
                underline_buffer.spec_offset() == offset + column_scan(chunks, k as int).4,
                (underline_buffer.spec_open(), underline_buffer.spec_ranges()) == underline_fold(
                    marks + shift_marks(column_scan(chunks, k as int).3, offset),
                ),
            decreases n - k,
        {
            let ghost cs = column_scan(chunks, k as int);
            proof {
                lemma_column_scan_monotone(chunks, k as int, k as int + 1);
                lemma_column_scan_monotone(chunks, k as int + 1, n as int);
            }
            let chunk = &column.chunks[k];
            match &chunk.value {
                LyricChunkKind::Space => column_ir.operators.push(LyricOperatorKind::Space),
                LyricChunkKind::Newline => column_ir.operators.push(LyricOperatorKind::Newline),
                LyricChunkKind::Placeholder => column_ir.placeholder = true,
                LyricChunkKind::String(tokens) => {
                    let ghost ss = string_scan(tokens@, tokens@.len() as int);
                    let ghost before = marks + shift_marks(cs.3, offset);
                    let partials = self.build_lyric_string_ir(
                        tokens.as_slice(),
                        underline_buffer,
                        Ghost(before),
                    );
                    let ghost chunks_before = column_ir.chunks@;
                    column_ir.add_chunk(partials);
                    proof {
                        lemma_string_marks_bound(tokens@, tokens@.len() as int);
                        lemma_shift_shift(ss.1, cs.4, offset);
                        lemma_shift_concat(cs.3, shift_marks(ss.1, cs.4), offset);
                        assert(before + shift_marks(ss.1, offset + cs.4) =~= marks + shift_marks(
                            cs.3 + shift_marks(ss.1, cs.4),
                            offset,
                        ));
                    }
                },
            }
            k = k + 1;
        }
        column_ir
    }

    /// Lays out a lyric line: its columns and operators in order, the
    /// underlines over its pieces, and an error for an underline left open.
    fn build_lyric_line_ir(&mut self, line: &LyricLine) -> (r: LyricLineIR)
        requires
            lyric_ids_valid(*old(self).tree, *line),
            lyric_line_width(*line) <= usize::MAX,
            old(self).reporter.spec_stage() == ReportStage::IRBuild,
        ensures
            lyric_line_layout(r, *line),
            final(self).tree == old(self).tree,
            final(self).reporter.spec_stage() == ReportStage::IRBuild,
            final(self).reporter.spec_diagnostics() == old(self).reporter.spec_diagnostics()
                + lyric_line_diags(*old(self).tree, *line),
    {
        let ghost tokens = line.tokens@;
        let n = line.tokens.len();
        let mut line_ir = LyricLineIR::new(line.sid);
        let mut underline_buffer = UnderlineBuffer::default();
        proof {
            assert(line_ir.operators@ =~= lyric_line_scan(tokens, 0).0);
        }
        let mut k: usize = 0;
        while k < n
            invariant
                n == tokens.len(),
                tokens == line.tokens@,
                k <= n,
                lyric_line_scan(tokens, n as int).2 <= usize::MAX,
                line_ir.sid == line.sid,
                line_ir.operators@ == lyric_line_scan(tokens, k as int).0,
                line_ir.columns@.len() == line_columns(tokens, k as int).len(),
                forall|i: int|
                    0 <= i < line_ir.columns@.len() ==> lyric_column_layout(
                        #[trigger] line_ir.columns@[i],
                        line_columns(tokens, k as int)[i],
                    ),
                underline_buffer.wf(),
                underline_buffer.spec_offset() == lyric_line_scan(tokens, k as int).2,
                (underline_buffer.spec_open(), underline_buffer.spec_ranges()) == underline_fold(
                    lyric_line_scan(tokens, k as int).1,
                ),
            decreases n - k,
        {
            let ghost ls = lyric_line_scan(tokens, k as int);
            let ghost cols = line_columns(tokens, k as int);
            proof {
                lemma_line_scan_monotone(tokens, k as int, k as int + 1);
                lemma_line_scan_monotone(tokens, k as int + 1, n as int);
            }
            match &line.tokens[k] {
                LyricToken::Column(column) => {
                    let ghost before = line_ir.columns@;
                    let column_ir = self.build_lyric_column_ir(column, &mut underline_buffer, Ghost(ls.1));
                    line_ir.columns.push(column_ir);
                    proof {
                        let after = line_ir.columns@;
                        let ncols = line_columns(tokens, k as int + 1);
                        assert(ncols == cols.push(*column));
                        assert forall|i: int| 0 <= i < after.len() implies lyric_column_layout(
                            #[trigger] after[i],
                            ncols[i],
                        ) by {
                            if i < before.len() {
                                assert(after[i] == before[i]);
                            }
                        }
                    }
                },
                LyricToken::Operator(operator) => {
                    line_ir.operators.push(operator.value);
                },
            }
            k = k + 1;
        }
        proof {
            lemma_fold_open_below(lyric_line_scan(tokens, n as int).1, self.tree.spec_symbols().len() as int);
        }
        if let Some(sid) = underline_buffer.get_trailing() {
            self.report_trailing_underline(sid, line.sid);
        } else {
            assert(self.reporter.spec_diagnostics() =~= old(self).reporter.spec_diagnostics() + lyric_line_diags(*old(self).tree, *line));
        }
        line_ir.fit_underlines(underline_buffer.results());
        line_ir
    }

    /// Lays out a whole body, section by section.
    pub fn build(self, body: Body) -> (r: IRBuilderOutput)
        requires
            body_ok(*self.tree, body),
            self.reporter.spec_stage() == ReportStage::IRBuild,
        ensures
            r.body.sections@.len() == body.sections@.len(),
            forall|i: int|
                0 <= i < body.sections@.len() ==> section_layout(
                    #[trigger] r.body.sections@[i],
                    body.sections@[i],
                ),
            r.reporter.spec_stage() == ReportStage::IRBuild,
            r.reporter.spec_diagnostics() == self.reporter.spec_diagnostics() + body_diags(
                *self.tree,
                body.sections@,
                body.sections@.len() as int,
            ),
    {
        let mut this = self;
        let ghost tree = *this.tree;
        let ghost diags0 = this.reporter.spec_diagnostics();
        let ghost all = body.sections@;
        let Body { sid: _, sections } = body;
        let mut sections = sections;
        let n = sections.len();
        let mut result: Vec<SectionIR> = Vec::new();
        proof {
            assert(diags0 + Seq::<Diagnostic>::empty() =~= diags0);
            assert(sections@.subrange(0, n as int) =~= all);
        }
        let mut k: usize = 0;
        while k < n
            invariant
                n == all.len(),
                k <= n,
                sections@ == all.subrange(k as int, n as int),
                forall|i: int| 0 <= i < n ==> section_ok(tree, #[trigger] all[i]),
                *this.tree == tree,
                this.reporter.spec_stage() == ReportStage::IRBuild,
                this.reporter.spec_diagnostics() == diags0 + body_diags(tree, all, k as int),
                result@.len() == k,
                forall|i: int| 0 <= i < k ==> section_layout(#[trigger] result@[i], all[i]),
            decreases n - k,
        {
            let section = sections.remove(0);
            assert(section == all[k as int]);
            let ghost before = result@;
            let ghost d = this.reporter.spec_diagnostics();
            let section_ir = this.build_section_ir(section);
            result.push(section_ir);
            proof {
                assert(sections@ =~= all.subrange(k as int + 1, n as int));
                assert forall|i: int| 0 <= i < k + 1 implies section_layout(#[trigger] result@[i], all[i]) by {
                    if i < k {
                        assert(result@[i] == before[i]);
                    }
                }
                let bd = body_diags(tree, all, k as int);
                let sd = section_diags(tree, all[k as int], all[k as int].items@.len() as int);
                assert(diags0 + bd + sd =~= diags0 + (bd + sd));
            }
            k = k + 1;
        }
        IRBuilderOutput { body: BodyIR { sections: result }, reporter: this.reporter }
    }

    /// Lays out a section, sub-section by sub-section.
    fn build_section_ir(&mut self, section: Section) -> (r: SectionIR)
        requires
            section_ok(*old(self).tree, section),
            old(self).reporter.spec_stage() == ReportStage::IRBuild,
        ensures
            section_layout(r, section),
            final(self).tree == old(self).tree,
            final(self).reporter.spec_stage() == ReportStage::IRBuild,
            final(self).reporter.spec_diagnostics() == old(self).reporter.spec_diagnostics()
                + section_diags(*old(self).tree, section, section.items@.len() as int),
    {
        let ghost tree = *self.tree;
        let ghost diags0 = self.reporter.spec_diagnostics();
        let ghost all = section.items@;
        let ghost orig = section;
        let Section { sid, items, metadata, params, merge } = section;
        let mut items = items;
        let n = items.len();
        let mut blocks: Vec<SubSectionIR> = Vec::new();
        proof {
            assert(diags0 + Seq::<Diagnostic>::empty() =~= diags0);
            assert(items@.subrange(0, n as int) =~= all);
        }
        let mut k: usize = 0;
        while k < n
            invariant
                n == all.len(),
                k <= n,
                items@ == all.subrange(k as int, n as int),
                forall|i: int| 0 <= i < n ==> sub_section_ok(tree, #[trigger] all[i]),
                self.tree == old(self).tree,
                *self.tree == tree,
                self.reporter.spec_stage() == ReportStage::IRBuild,
                self.reporter.spec_diagnostics() == diags0 + section_diags(tree, orig, k as int),
                orig.items@ == all,
                blocks@.len() == k,
                forall|i: int| 0 <= i < k ==> sub_section_layout(#[trigger] blocks@[i], all[i]),
            decreases n - k,
        {
            let item = items.remove(0);
            assert(item == all[k as int]);
            let ghost before = blocks@;
            let block = self.build_sub_section_ir(item);
            blocks.push(block);
            proof {
                assert(items@ =~= all.subrange(k as int + 1, n as int));
                assert forall|i: int| 0 <= i < k + 1 implies sub_section_layout(#[trigger] blocks@[i], all[i]) by {
                    if i < k {
                        assert(blocks@[i] == before[i]);
                    }
                }
                let sd = section_diags(tree, orig, k as int);
                let id = sub_section_diags(tree, all[k as int]);
                assert(diags0 + sd + id =~= diags0 + (sd + id));
            }
            k = k + 1;
        }
        SectionIR { sid, merge, metadata, params, items: blocks }
    }

    /// Lays out a sub-section: its solfa lines, its lyric lines, and how the
    /// pulses of its solfa lines line up.
    fn build_sub_section_ir(&mut self, section: SubSection) -> (r: SubSectionIR)
        requires
            sub_section_ok(*old(self).tree, section),
            old(self).reporter.spec_stage() == ReportStage::IRBuild,
        ensures
            sub_section_layout(r, section),
            final(self).tree == old(self).tree,
            final(self).reporter.spec_stage() == ReportStage::IRBuild,
            final(self).reporter.spec_diagnostics() == old(self).reporter.spec_diagnostics()
                + sub_section_diags(*old(self).tree, section),
    {
        let ghost tree = *self.tree;
        let ghost diags0 = self.reporter.spec_diagnostics();
        let ghost orig = section;
        let SubSection { id: _, sid, params, solfa: solfa_lines, lyrics: lyric_lines } = section;
        let ns = solfa_lines.len();
        let mut solfa: Vec<SolfaLineIr> = Vec::new();
        proof {
            assert(diags0 + Seq::<Diagnostic>::empty() =~= diags0);
        }
        let mut k: usize = 0;
        while k < ns
            invariant
                ns == solfa_lines@.len(),
                solfa_lines@ == orig.solfa@,
                k <= ns,
                sub_section_ok(tree, orig),
                self.tree == old(self).tree,
                *self.tree == tree,
                self.reporter.spec_stage() == ReportStage::IRBuild,
                self.reporter.spec_diagnostics() == diags0 + solfa_lines_diags(tree, orig.solfa@, k as int),
                solfa@.len() == k,
                forall|i: int| 0 <= i < k ==> solfa_line_layout(#[trigger] solfa@[i], orig.solfa@[i]),
            decreases ns - k,
        {
            let ghost before = solfa@;
            let line_ir = self.build_solfa_line_ir(&solfa_lines[k]);
            solfa.push(line_ir);
            proof {
                assert forall|i: int| 0 <= i < k + 1 implies solfa_line_layout(#[trigger] solfa@[i], orig.solfa@[i]) by {
                    if i < k {
                        assert(solfa@[i] == before[i]);
                    }
                }
                let a = solfa_lines_diags(tree, orig.solfa@, k as int);
                let b = solfa_line_diags(tree, orig.solfa@[k as int]);
                assert(diags0 + a + b =~= diags0 + (a + b));
            }
            k = k + 1;
        }
        let ghost diags1 = self.reporter.spec_diagnostics();
        let nl = lyric_lines.len();
        let mut lyrics: Vec<LyricLineIR> = Vec::new();
        proof {
            assert(diags1 + Seq::<Diagnostic>::empty() =~= diags1);
        }
        let mut k: usize = 0;
        while k < nl
            invariant
                nl == lyric_lines@.len(),
                lyric_lines@ == orig.lyrics@,
                k <= nl,
                sub_section_ok(tree, orig),
                self.tree == old(self).tree,
                *self.tree == tree,
                self.reporter.spec_stage() == ReportStage::IRBuild,
                diags1 == diags0 + solfa_lines_diags(tree, orig.solfa@, orig.solfa@.len() as int),
                self.reporter.spec_diagnostics() == diags1 + lyric_lines_diags(tree, orig.lyrics@, k as int),
                lyrics@.len() == k,
                forall|i: int| 0 <= i < k ==> lyric_line_layout(#[trigger] lyrics@[i], orig.lyrics@[i]),
            decreases nl - k,
        {
            let ghost before = lyrics@;
            let line_ir = self.build_lyric_line_ir(&lyric_lines[k]);
            lyrics.push(line_ir);
            proof {
                assert forall|i: int| 0 <= i < k + 1 implies lyric_line_layout(#[trigger] lyrics@[i], orig.lyrics@[i]) by {
                    if i < k {
                        assert(lyrics@[i] == before[i]);
                    }
                }
                let a = lyric_lines_diags(tree, orig.lyrics@, k as int);
                let b = lyric_line_diags(tree, orig.lyrics@[k as int]);
                assert(diags1 + a + b =~= diags1 + (a + b));
            }
            k = k + 1;
        }
        proof {
            let a = solfa_lines_diags(tree, orig.solfa@, orig.solfa@.len() as int);
            let b = lyric_lines_diags(tree, orig.lyrics@, orig.lyrics@.len() as int);
            assert(diags0 + a + b =~= diags0 + (a + b));
        }
        let views = self.build_pulse_view(solfa.as_slice());
        SubSectionIR { sid, params, views, solfa, lyrics }
    }

    /// For each pulse index of the first solfa line, a view of how the pulses
    /// at that index line up across the lines.
    fn build_pulse_view(&self, solfa: &[SolfaLineIr]) -> (r: Vec<PulseView>)
        ensures
            pulse_views_layout(r@, solfa@),
    {
        let nlines = solfa.len();
        let mut views: Vec<PulseView> = Vec::new();
        if nlines == 0 {
            return views;
        }
        let first = &solfa[0];
        let m = first.pulses.len();
        let mut i: usize = 0;
        while i < m
            invariant
                nlines == solfa@.len(),
                nlines > 0,
                *first == solfa@[0],
                m == first.pulses@.len(),
                i <= m,
                views@.len() == i,
                forall|q: int| 0 <= q < i ==> pulse_view_layout(#[trigger] views@[q], solfa@, q),
            decreases m - i,
        {
            let ghost p0 = first.pulses@[i as int];
            let mut view = PulseView::new(&first.pulses[i]);
            let mut j: usize = 1;
            while j < nlines && view.aligned
                invariant
                    nlines == solfa@.len(),
                    nlines > 0,
                    *first == solfa@[0],
                    i < m,
                    m == first.pulses@.len(),
                    p0 == solfa@[0].pulses@[i as int],
                    1 <= j <= nlines,
                    view.aligned ==> {
                        &&& view.durations@ == column_durations(p0)
                        &&& view.factor == p0.factor
                        &&& forall|l: int|
                            1 <= l < j && i < (#[trigger] solfa@[l]).pulses@.len() ==> matches_view(
                                column_durations(p0),
                                p0.factor,
                                solfa@[l].pulses@[i as int],
                            )
                    },
                    !view.aligned ==> {
                        &&& view.factor == 1
                        &&& view.durations@ == seq![1usize]
                        &&& !view_aligned(solfa@, i as int)
                    },
                decreases nlines - j,
            {
                let line = &solfa[j];
                if i < line.pulses.len() {
                    view.add(&line.pulses[i]);
                }
                j = j + 1;
            }
            let ghost before = views@;
            views.push(view);
            proof {
                assert forall|q: int| 0 <= q < i + 1 implies pulse_view_layout(#[trigger] views@[q], solfa@, q) by {
                    if q < i {
                        assert(views@[q] == before[q]);
                    }
                }
            }
            i = i + 1;
        }
        views
    }
}

/// A solfa line laid out: each pulse laid out from its scan, and each column
/// marked where an underline of the line starts or ends.
pub open spec fn solfa_line_layout(r: SolfaLineIr, line: SolfaLine) -> bool {
    let pulses = line.pulses@;
    let n = pulses.len() as int;
    let ranges = underline_fold(line_marks(pulses, n)).1;
    &&& r.sid == line.sid
    &&& r.voice == line.voice.value
    &&& r.pulses@.len() == n
    &&& forall|q: int| 0 <= q < n ==> pulse_layout(#[trigger] r.pulses@[q], pulses[q], line_scan(pulses, q))
    &&& forall|q: int, k: int|
        0 <= q < n && 0 <= k < r.pulses@[q].columns@.len() ==> {
            &&& (#[trigger] r.pulses@[q].columns@[k]).underline.left == spec_starts_at(
                ranges,
                line_offset(pulses, q) + k,
            )
            &&& r.pulses@[q].columns@[k].underline.right == spec_ends_at(ranges, line_offset(pulses, q) + k)
        }
}


/// Whether the pulses at index `i` of all the lines agree with the first line's.
pub open spec fn view_aligned(solfa: Seq<SolfaLineIr>, i: int) -> bool {
    forall|l: int|
        1 <= l < solfa.len() && i < (#[trigger] solfa[l]).pulses@.len() ==> matches_view(
            column_durations(solfa[0].pulses@[i]),
            solfa[0].pulses@[i].factor,
            solfa[l].pulses@[i],
        )
}

/// The view at index `i`: the first line's pulse where all lines agree, one
/// column with a factor of one where they do not.
pub open spec fn pulse_view_layout(v: PulseView, solfa: Seq<SolfaLineIr>, i: int) -> bool {
    if view_aligned(solfa, i) {
        &&& v.aligned
        &&& v.durations@ == column_durations(solfa[0].pulses@[i])
        &&& v.factor == solfa[0].pulses@[i].factor
    } else {
        &&& !v.aligned
        &&& v.factor == 1
        &&& v.durations@ == seq![1usize]
    }
}

/// One view per pulse of the first line (none without lines).
pub open spec fn pulse_views_layout(views: Seq<PulseView>, solfa: Seq<SolfaLineIr>) -> bool {
    &&& views.len() == if solfa.len() > 0 {
        solfa[0].pulses@.len() as int
    } else {
        0
    }
    &&& forall|i: int| 0 <= i < views.len() ==> pulse_view_layout(#[trigger] views[i], solfa, i)
}

/// The ids of a sub-section point into the tree, and its lines are small
/// enough to number their columns in a `usize`.
pub open spec fn sub_section_ok(tree: SymbolTree, section: SubSection) -> bool {
    &&& forall|i: int|
        0 <= i < section.solfa@.len() ==> {
            &&& solfa_ids_valid(tree, #[trigger] section.solfa@[i])
            &&& line_size(section.solfa@[i].pulses@, section.solfa@[i].pulses@.len() as int) <= usize::MAX
        }
    &&& forall|i: int|
        0 <= i < section.lyrics@.len() ==> {
            &&& lyric_ids_valid(tree, #[trigger] section.lyrics@[i])
            &&& lyric_line_width(section.lyrics@[i]) <= usize::MAX
        }
}

pub open spec fn section_ok(tree: SymbolTree, section: Section) -> bool {
    forall|i: int| 0 <= i < section.items@.len() ==> sub_section_ok(tree, #[trigger] section.items@[i])
}

pub open spec fn body_ok(tree: SymbolTree, body: Body) -> bool {
    forall|i: int| 0 <= i < body.sections@.len() ==> section_ok(tree, #[trigger] body.sections@[i])
}

pub open spec fn solfa_lines_diags(tree: SymbolTree, lines: Seq<SolfaLine>, k: int) -> Seq<Diagnostic>
    decreases k,
{
    if k <= 0 {
        Seq::empty()
    } else {
        solfa_lines_diags(tree, lines, k - 1) + solfa_line_diags(tree, lines[k - 1])
    }
}

pub open spec fn lyric_lines_diags(tree: SymbolTree, lines: Seq<LyricLine>, k: int) -> Seq<Diagnostic>
    decreases k,
{
    if k <= 0 {
        Seq::empty()
    } else {
        lyric_lines_diags(tree, lines, k - 1) + lyric_line_diags(tree, lines[k - 1])
    }
}

/// The diagnostics of a sub-section: those of its solfa lines, then those of
/// its lyric lines.
pub open spec fn sub_section_diags(tree: SymbolTree, section: SubSection) -> Seq<Diagnostic> {
    solfa_lines_diags(tree, section.solfa@, section.solfa@.len() as int) + lyric_lines_diags(
        tree,
        section.lyrics@,
        section.lyrics@.len() as int,
    )
}

/// The diagnostics of the first `k` sub-sections of a section.
pub open spec fn section_diags(tree: SymbolTree, section: Section, k: int) -> Seq<Diagnostic>
    decreases k,
{
    if k <= 0 {
        Seq::empty()
    } else {
        section_diags(tree, section, k - 1) + sub_section_diags(tree, section.items@[k - 1])
    }
}

/// The diagnostics of the first `k` sections.
pub open spec fn body_diags(tree: SymbolTree, sections: Seq<Section>, k: int) -> Seq<Diagnostic>
    decreases k,
{
    if k <= 0 {
        Seq::empty()
    } else {
        body_diags(tree, sections, k - 1) + section_diags(
            tree,
            sections[k - 1],
            sections[k - 1].items@.len() as int,
        )
    }
}

/// A sub-section laid out: its solfa and lyric lines laid out in order, its
/// parameters kept, and a view per pulse of its first line.
pub open spec fn sub_section_layout(r: SubSectionIR, section: SubSection) -> bool {
    &&& r.sid == section.sid
    &&& r.params == section.params
    &&& r.solfa@.len() == section.solfa@.len()
    &&& forall|i: int| 0 <= i < r.solfa@.len() ==> solfa_line_layout(#[trigger] r.solfa@[i], section.solfa@[i])
    &&& r.lyrics@.len() == section.lyrics@.len()
    &&& forall|i: int| 0 <= i < r.lyrics@.len() ==> lyric_line_layout(#[trigger] r.lyrics@[i], section.lyrics@[i])
    &&& pulse_views_layout(r.views@, r.solfa@)
}

/// A section laid out: its sub-sections laid out in order, the rest kept.
pub open spec fn section_layout(r: SectionIR, section: Section) -> bool {
    &&& r.sid == section.sid
    &&& r.merge == section.merge
    &&& r.metadata == section.metadata
    &&& r.params == section.params
    &&& r.items@.len() == section.items@.len()
    &&& forall|i: int| 0 <= i < r.items@.len() ==> sub_section_layout(#[trigger] r.items@[i], section.items@[i])
}


/// A tree that has only grown: it has at least the symbols and scopes of `a`.
pub open spec fn tree_grows(a: SymbolTree, b: SymbolTree) -> bool {
    a.spec_symbols().len() <= b.spec_symbols().len() && a.spec_scopes().len() <= b.spec_scopes().len()
}

pub proof fn lemma_solfa_ok_grows(a: SymbolTree, b: SymbolTree, line: SolfaLine)
    requires
        solfa_ids_valid(a, line),
        tree_grows(a, b),
    ensures
        solfa_ids_valid(b, line),
{
    assert forall|p: int| 0 <= p < line.pulses@.len() implies pulse_ids_valid(b, #[trigger] line.pulses@[p]) by {
        assert(pulse_ids_valid(a, line.pulses@[p]));
    }
}

pub proof fn lemma_sub_section_ok_grows(a: SymbolTree, b: SymbolTree, section: SubSection)
    requires
        sub_section_ok(a, section),
        tree_grows(a, b),
    ensures
        sub_section_ok(b, section),
{
    assert forall|i: int| 0 <= i < section.solfa@.len() implies solfa_ids_valid(b, #[trigger] section.solfa@[i]) by {
        lemma_solfa_ok_grows(a, b, section.solfa@[i]);
    }
}

pub proof fn lemma_section_ok_grows(a: SymbolTree, b: SymbolTree, section: Section)
    requires
        section_ok(a, section),
        tree_grows(a, b),
    ensures
        section_ok(b, section),
{
    assert forall|i: int| 0 <= i < section.items@.len() implies sub_section_ok(b, #[trigger] section.items@[i]) by {
        lemma_sub_section_ok_grows(a, b, section.items@[i]);
    }
}

pub proof fn lemma_body_ok_grows(a: SymbolTree, b: SymbolTree, body: Body)
    requires
        body_ok(a, body),
        tree_grows(a, b),
    ensures
        body_ok(b, body),
{
    assert forall|i: int| 0 <= i < body.sections@.len() implies section_ok(b, #[trigger] body.sections@[i]) by {
        lemma_section_ok_grows(a, b, body.sections@[i]);
    }
}

/// Every diagnostic of `diags` is of stage `stage`.
pub open spec fn all_at_stage(diags: Seq<Diagnostic>, stage: ReportStage) -> bool {
    forall|i: int| 0 <= i < diags.len() ==> (#[trigger] diags[i]).stage == stage
}

proof fn lemma_stage_concat(a: Seq<Diagnostic>, b: Seq<Diagnostic>, stage: ReportStage)
    requires
        all_at_stage(a, stage),
        all_at_stage(b, stage),
    ensures
        all_at_stage(a + b, stage),
{
    assert forall|i: int| 0 <= i < (a + b).len() implies (#[trigger] (a + b)[i]).stage == stage by {
        if i >= a.len() {
            assert((a + b)[i] == b[i - a.len()]);
        }
    }
}

proof fn lemma_line_pulse_diags_stage(tree: SymbolTree, pulses: Seq<Pulse>, p: int)
    ensures
        all_at_stage(line_pulse_diags(tree, pulses, p), ReportStage::IRBuild),
    decreases p,
{
    if p > 0 {
        lemma_line_pulse_diags_stage(tree, pulses, p - 1);
        let s = crate::ir::scan::line_scan(pulses, p - 1);
        let d = pulse_diags(tree, pulses[p - 1], s);
        assert(all_at_stage(orphan_diags(tree, s.3), ReportStage::IRBuild));
        assert(all_at_stage(d, ReportStage::IRBuild));
        lemma_stage_concat(line_pulse_diags(tree, pulses, p - 1), d, ReportStage::IRBuild);
    }
}

proof fn lemma_solfa_lines_diags_stage(tree: SymbolTree, lines: Seq<SolfaLine>, k: int)
    ensures
        all_at_stage(solfa_lines_diags(tree, lines, k), ReportStage::IRBuild),
    decreases k,
{
    if k > 0 {
        lemma_solfa_lines_diags_stage(tree, lines, k - 1);
        let line = lines[k - 1];
        let n = line.pulses@.len() as int;
        lemma_line_pulse_diags_stage(tree, line.pulses@, n);
        let t = trailing_diag(tree, underline_fold(crate::ir::scan::line_marks(line.pulses@, n)).0, line.sid);
        assert(all_at_stage(t, ReportStage::IRBuild));
        lemma_stage_concat(line_pulse_diags(tree, line.pulses@, n), t, ReportStage::IRBuild);
        lemma_stage_concat(solfa_lines_diags(tree, lines, k - 1), solfa_line_diags(tree, line), ReportStage::IRBuild);
    }
}

proof fn lemma_lyric_lines_diags_stage(tree: SymbolTree, lines: Seq<LyricLine>, k: int)
    ensures
        all_at_stage(lyric_lines_diags(tree, lines, k), ReportStage::IRBuild),
    decreases k,
{
    if k > 0 {
        lemma_lyric_lines_diags_stage(tree, lines, k - 1);
        assert(all_at_stage(lyric_line_diags(tree, lines[k - 1]), ReportStage::IRBuild));
        lemma_stage_concat(lyric_lines_diags(tree, lines, k - 1), lyric_line_diags(tree, lines[k - 1]), ReportStage::IRBuild);
    }
}

proof fn lemma_section_diags_stage(tree: SymbolTree, section: Section, k: int)
    ensures
        all_at_stage(section_diags(tree, section, k), ReportStage::IRBuild),
    decreases k,
{
    if k > 0 {
        lemma_section_diags_stage(tree, section, k - 1);
        let item = section.items@[k - 1];
        lemma_solfa_lines_diags_stage(tree, item.solfa@, item.solfa@.len() as int);
        lemma_lyric_lines_diags_stage(tree, item.lyrics@, item.lyrics@.len() as int);
        lemma_stage_concat(
            solfa_lines_diags(tree, item.solfa@, item.solfa@.len() as int),
            lyric_lines_diags(tree, item.lyrics@, item.lyrics@.len() as int),
            ReportStage::IRBuild,
        );
        lemma_stage_concat(section_diags(tree, section, k - 1), sub_section_diags(tree, item), ReportStage::IRBuild);
    }
}

/// Every diagnostic of the layout of a body is of the layout stage.
pub proof fn lemma_body_diags_stage(tree: SymbolTree, sections: Seq<Section>, k: int)
    ensures
        all_at_stage(body_diags(tree, sections, k), ReportStage::IRBuild),
    decreases k,
{
    if k > 0 {
        lemma_body_diags_stage(tree, sections, k - 1);
        let section = sections[k - 1];
        lemma_section_diags_stage(tree, section, section.items@.len() as int);
        lemma_stage_concat(
            body_diags(tree, sections, k - 1),
            section_diags(tree, section, section.items@.len() as int),
            ReportStage::IRBuild,
        );
    }
}

} // verus!
