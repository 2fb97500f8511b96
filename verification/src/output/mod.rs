pub mod dynamics;
pub mod evaluator;
pub mod event;
pub mod notation;
pub mod render;
pub mod systems;
pub mod tempo;
pub mod voice;

use vstd::prelude::*;

use crate::ast::header::Header;
use crate::ast::symbols::{Delimiter, SymbolTree};
use crate::diagnostics::types::{Diagnostic, DiagnosticLevel};
use crate::ir::solfa::SolfaLineIr;
use crate::assoc::{lemma_first_index_absent, lemma_first_index_char};
use crate::data_types::Voice;
use crate::ir::solfa::PulseIr;
use crate::ir::{BodyIR, SectionIR, SubSectionIR};
use crate::output::event::{events_at, Event, TimelineMap, Timestamp};
use crate::output::voice::{
    all_items, deref_entries, events_at_tick, line_notes, note_start, notes_measurable, pulse_notes, voice_events,
    voice_line_index, voice_notes, NoteContext, VoiceLine,
};

verus! {

/// What the analysis of a document gives: its symbols, its header, the
/// layout of its body, its diagnostics, the events of its sub-sections and
/// its delimiter lines.
#[derive(Debug)]
pub struct FinalOutput {
    pub tree: SymbolTree,
    pub header: Header,
    pub ir: BodyIR,
    pub diagnostics: Vec<Diagnostic>,
    pub timelines: TimelineMap,
    pub delimiters: Vec<Delimiter>,
}

impl FinalOutput {
    /// Whether some diagnostic is an error.
    pub fn has_error(&self) -> (r: bool)
        ensures
            r == exists|i: int|
                0 <= i < self.diagnostics@.len() && (#[trigger] self.diagnostics@[i]).level
                    == DiagnosticLevel::Error,
    {
        let n = self.diagnostics.len();
        let mut i: usize = 0;
        while i < n
            invariant
                n == self.diagnostics@.len(),
                i <= n,
                forall|j: int| 0 <= j < i ==> (#[trigger] self.diagnostics@[j]).level != DiagnosticLevel::Error,
            decreases n - i,
        {
            if self.diagnostics[i].is_error() {
                return true;
            }
            i = i + 1;
        }
        false
    }
}

/// Whether the body has pulse `p` of solfa line `l` of sub-section `i` of
/// section `s`.
pub open spec fn has_pulse_at(sections: Seq<SectionIR>, s: int, i: int, l: int, p: int) -> bool {
    &&& 0 <= s < sections.len()
    &&& 0 <= i < sections[s].items@.len()
    &&& 0 <= l < sections[s].items@[i].solfa@.len()
    &&& 0 <= p < sections[s].items@[i].solfa@[l].pulses@.len()
}

/// The factor of that pulse.
pub open spec fn factor_at(sections: Seq<SectionIR>, s: int, i: int, l: int, p: int) -> usize {
    sections[s].items@[i].solfa@[l].pulses@[p].factor
}

/// The factor of the columns of a score: the largest factor of its pulses,
/// or one where it has none.
pub open spec fn is_column_factor(sections: Seq<SectionIR>, r: usize) -> bool {
    if exists|s: int, i: int, l: int, p: int| #[trigger] has_pulse_at(sections, s, i, l, p) {
        &&& exists|s: int, i: int, l: int, p: int|
            #[trigger] has_pulse_at(sections, s, i, l, p) && factor_at(sections, s, i, l, p) == r
        &&& forall|s: int, i: int, l: int, p: int|
            #[trigger] has_pulse_at(sections, s, i, l, p) ==> factor_at(sections, s, i, l, p) <= r
    } else {
        r == 1
    }
}

/// The largest factor of the pulses of a solfa line, if it has any.
fn line_max_factor(line: &SolfaLineIr) -> (r: Option<usize>)
    ensures
        r is None <==> line.pulses@.len() == 0,
        r matches Some(m) ==> (exists|p: int| 0 <= p < line.pulses@.len() && (#[trigger] line.pulses@[p]).factor == m)
            && forall|p: int| 0 <= p < line.pulses@.len() ==> (#[trigger] line.pulses@[p]).factor <= m,
{
    let n = line.pulses.len();
    let mut best: Option<usize> = None;
    let mut p: usize = 0;
    while p < n
        invariant
            n == line.pulses@.len(),
            p <= n,
            best is None <==> p == 0,
            best matches Some(m) ==> (exists|q: int| 0 <= q < p && (#[trigger] line.pulses@[q]).factor == m)
                && forall|q: int| 0 <= q < p ==> (#[trigger] line.pulses@[q]).factor <= m,
        decreases n - p,
    {
        let f = line.pulses[p].factor;
        best = match best {
            Some(m) => if f > m { Some(f) } else { Some(m) },
            None => Some(f),
        };
        p = p + 1;
    }
    best
}

/// The largest factor of the pulses of a sub-section, if it has any.
fn item_max_factor(item: &SubSectionIR) -> (r: Option<usize>)
    ensures
        r is None <==> forall|l: int| 0 <= l < item.solfa@.len() ==> (#[trigger] item.solfa@[l]).pulses@.len() == 0,
        r matches Some(m) ==> (exists|l: int, p: int|
            0 <= l < item.solfa@.len() && 0 <= p < item.solfa@[l].pulses@.len()
                && (#[trigger] item.solfa@[l].pulses@[p]).factor == m)
            && forall|l: int, p: int|
            0 <= l < item.solfa@.len() && 0 <= p < item.solfa@[l].pulses@.len()
                ==> (#[trigger] item.solfa@[l].pulses@[p]).factor <= m,
{
    let n = item.solfa.len();
    let mut best: Option<usize> = None;
    let mut l: usize = 0;
    while l < n
        invariant
            n == item.solfa@.len(),
            l <= n,
            best is None <==> forall|k: int| 0 <= k < l ==> (#[trigger] item.solfa@[k]).pulses@.len() == 0,
            best matches Some(m) ==> (exists|k: int, p: int|
                0 <= k < l && 0 <= p < item.solfa@[k].pulses@.len()
                    && (#[trigger] item.solfa@[k].pulses@[p]).factor == m)
                && forall|k: int, p: int|
                0 <= k < l && 0 <= p < item.solfa@[k].pulses@.len()
                    ==> (#[trigger] item.solfa@[k].pulses@[p]).factor <= m,
        decreases n - l,
    {
        let line_best = line_max_factor(&item.solfa[l]);
        let ghost old_best = best;
        best = match (best, line_best) {
            (Some(m), Some(f)) => if f > m { Some(f) } else { Some(m) },
            (None, x) => x,
            (x, None) => x,
        };
        proof {
            let line = item.solfa@[l as int];
            if let Some(f) = line_best {
                let q = choose|q: int| 0 <= q < line.pulses@.len() && (#[trigger] line.pulses@[q]).factor == f;
                assert(item.solfa@[l as int].pulses@[q].factor == f);
            }
            if line_best is None {
                assert(line.pulses@.len() == 0);
            }
        }
        l = l + 1;
    }
    best
}

/// The largest factor of the pulses of a section, if it has any.
fn section_max_factor(section: &SectionIR) -> (r: Option<usize>)
    ensures
        r is None <==> forall|i: int, l: int|
            0 <= i < section.items@.len() && 0 <= l < section.items@[i].solfa@.len()
                ==> (#[trigger] section.items@[i].solfa@[l]).pulses@.len() == 0,
        r matches Some(m) ==> (exists|i: int, l: int, p: int|
            0 <= i < section.items@.len() && 0 <= l < section.items@[i].solfa@.len() && 0 <= p
                < section.items@[i].solfa@[l].pulses@.len()
                && (#[trigger] section.items@[i].solfa@[l].pulses@[p]).factor == m)
            && forall|i: int, l: int, p: int|
            0 <= i < section.items@.len() && 0 <= l < section.items@[i].solfa@.len() && 0 <= p
                < section.items@[i].solfa@[l].pulses@.len()
                ==> (#[trigger] section.items@[i].solfa@[l].pulses@[p]).factor <= m,
{
    let n = section.items.len();
    let mut best: Option<usize> = None;
    let mut i: usize = 0;
    while i < n
        invariant
            n == section.items@.len(),
            i <= n,
            best is None <==> forall|k: int, l: int|
                0 <= k < i && 0 <= l < section.items@[k].solfa@.len()
                    ==> (#[trigger] section.items@[k].solfa@[l]).pulses@.len() == 0,
            best matches Some(m) ==> (exists|k: int, l: int, p: int|
                0 <= k < i && 0 <= l < section.items@[k].solfa@.len() && 0 <= p
                    < section.items@[k].solfa@[l].pulses@.len()
                    && (#[trigger] section.items@[k].solfa@[l].pulses@[p]).factor == m)
                && forall|k: int, l: int, p: int|
                0 <= k < i && 0 <= l < section.items@[k].solfa@.len() && 0 <= p
                    < section.items@[k].solfa@[l].pulses@.len()
                    ==> (#[trigger] section.items@[k].solfa@[l].pulses@[p]).factor <= m,
        decreases n - i,
    {
        let item_best = item_max_factor(&section.items[i]);
        best = match (best, item_best) {
            (Some(m), Some(f)) => if f > m { Some(f) } else { Some(m) },
            (None, x) => x,
            (x, None) => x,
        };
        proof {
            let item = section.items@[i as int];
            if let Some(f) = item_best {
                let (l, q) = choose|l: int, q: int|
                    0 <= l < item.solfa@.len() && 0 <= q < item.solfa@[l].pulses@.len()
                        && (#[trigger] item.solfa@[l].pulses@[q]).factor == f;
                assert(section.items@[i as int].solfa@[l].pulses@[q].factor == f);
            }
        }
        i = i + 1;
    }
    best
}

impl FinalOutput {
    /// The factor of the columns of the score: the largest factor of its
    /// pulses, or one where it has none.
    pub fn resolve_column_factor(&self) -> (r: usize)
        ensures
            is_column_factor(self.ir.sections@, r),
    {
        let sections = &self.ir.sections;
        let n = sections.len();
        let mut best: Option<usize> = None;
        let mut s: usize = 0;
        while s < n
            invariant
                n == sections@.len(),
                s <= n,
                best is None <==> forall|k: int, i: int, l: int, p: int|
                    k < s ==> !#[trigger] has_pulse_at(sections@, k, i, l, p),
                best matches Some(m) ==> (exists|k: int, i: int, l: int, p: int|
                    k < s && #[trigger] has_pulse_at(sections@, k, i, l, p) && factor_at(sections@, k, i, l, p) == m)
                    && forall|k: int, i: int, l: int, p: int|
                    k < s && #[trigger] has_pulse_at(sections@, k, i, l, p) ==> factor_at(sections@, k, i, l, p) <= m,
            decreases n - s,
        {
            let section_best = section_max_factor(&sections[s]);
            best = match (best, section_best) {
                (Some(m), Some(f)) => if f > m { Some(f) } else { Some(m) },
                (None, x) => x,
                (x, None) => x,
            };
            proof {
                let section = sections@[s as int];
                if let Some(f) = section_best {
                    let (i, l, q) = choose|i: int, l: int, q: int|
                        0 <= i < section.items@.len() && 0 <= l < section.items@[i].solfa@.len() && 0 <= q
                            < section.items@[i].solfa@[l].pulses@.len()
                            && (#[trigger] section.items@[i].solfa@[l].pulses@[q]).factor == f;
                    assert(has_pulse_at(sections@, s as int, i, l, q));
                }
                if best is None {
                    assert forall|k: int, i: int, l: int, p: int| k < s + 1 implies !#[trigger] has_pulse_at(sections@, k, i, l, p) by {
                        if k == s && has_pulse_at(sections@, k, i, l, p) {
                            assert(section.items@[i].solfa@[l].pulses@.len() == 0);
                        }
                    }
                }
            }
            s = s + 1;
        }
        match best {
            Some(m) => m,
            None => 1,
        }
    }
}

/// The first solfa line of a sub-section for `voice`, if any.
fn find_voice_line(item: &SubSectionIR, voice: Voice) -> (r: Option<usize>)
    ensures
        r is None <==> voice_line_index(*item, voice) is None,
        r matches Some(l) ==> voice_line_index(*item, voice) == Some(l as int) && l < item.solfa@.len(),
{
    let ghost keys = item.solfa@.map_values(|l: SolfaLineIr| l.voice);
    let n = item.solfa.len();
    let mut l: usize = 0;
    while l < n
        invariant
            n == item.solfa@.len(),
            keys == item.solfa@.map_values(|l: SolfaLineIr| l.voice),
            l <= n,
            forall|j: int| 0 <= j < l ==> keys[j] != voice,
        decreases n - l,
    {
        if item.solfa[l].voice == voice {
            proof {
                lemma_first_index_char(keys, voice, l as int);
            }
            return Some(l);
        }
        l = l + 1;
    }
    proof {
        lemma_first_index_absent(keys, voice);
    }
    None
}

impl FinalOutput {
    /// The notes of `voice` over the whole body, with the events of the
    /// sub-sections it sings in attached to the notes they fall on.
    pub fn build_voice_line(&self, voice: Voice) -> (r: VoiceLine<'_>)
        requires
            notes_measurable(voice_notes(all_items(self.ir.sections@), voice)),
            voice_notes(all_items(self.ir.sections@), voice).len() < usize::MAX,
        ensures
            r.voice == voice,
            r.notes@ == voice_notes(all_items(self.ir.sections@), voice),
            forall|i: usize|
                i <= r.notes@.len() ==> #[trigger] events_at(r.timeline.spec_events(), i) == events_at_tick(
                    voice_events(all_items(self.ir.sections@), voice, self.timelines.view()),
                    note_start(r.notes@, i as int),
                ),
    {
        let ghost view = self.timelines.view();
        let mut notes: Vec<NoteContext> = Vec::new();
        let mut timeline: Vec<&(Timestamp, Event)> = Vec::new();
        let sections = &self.ir.sections;
        let ns = sections.len();
        let mut s: usize = 0;
        assert(all_items(sections@.subrange(0, 0)) =~= Seq::<SubSectionIR>::empty());
        assert(deref_entries(timeline@) =~= Seq::<(Timestamp, Event)>::empty());
        while s < ns
            invariant
                ns == sections@.len(),
                *sections == self.ir.sections,
                view == self.timelines.view(),
                s <= ns,
                notes@ == voice_notes(all_items(sections@.subrange(0, s as int)), voice),
                deref_entries(timeline@) == voice_events(all_items(sections@.subrange(0, s as int)), voice, view),
            decreases ns - s,
        {
            let items = &sections[s].items;
            let ghost done = all_items(sections@.subrange(0, s as int));
            let ni = items.len();
            let mut i: usize = 0;
            assert(done + items@.subrange(0, 0) =~= done);
            while i < ni
                invariant
                    ns == sections@.len(),
                    *sections == self.ir.sections,
                    view == self.timelines.view(),
                    s < ns,
                    *items == sections@[s as int].items,
                    done == all_items(sections@.subrange(0, s as int)),
                    ni == items@.len(),
                    i <= ni,
                    notes@ == voice_notes(done + items@.subrange(0, i as int), voice),
                    deref_entries(timeline@) == voice_events(done + items@.subrange(0, i as int), voice, view),
                decreases ni - i,
            {
                let sub = &items[i];
                let ghost before = done + items@.subrange(0, i as int);
                let ghost after = done + items@.subrange(0, i as int + 1);
                assert(after.drop_last() =~= before);
                assert(after.last() == *sub);
                match find_voice_line(sub, voice) {
                    None => {},
                    Some(l) => {
                        if let Some(partial) = self.timelines.get(sub.sid) {
                            let ghost base = deref_entries(timeline@);
                            let m = partial.len();
                            let mut k: usize = 0;
                            assert(base + partial@.subrange(0, 0) =~= base);
                            while k < m
                                invariant
                                    m == partial@.len(),
                                    k <= m,
                                    deref_entries(timeline@) == base + partial@.subrange(0, k as int),
                                decreases m - k,
                            {
                                let ghost prev = timeline@;
                                let entry = &partial[k];
                                timeline.push(entry);
                                proof {
                                    assert(timeline@ == prev.push(entry));
                                    assert(deref_entries(prev.push(entry)) =~= deref_entries(prev).push(*entry));
                                    assert(base + partial@.subrange(0, k as int + 1) =~= (base + partial@.subrange(
                                        0,
                                        k as int,
                                    )).push(partial@[k as int]));
                                }
                                k = k + 1;
                            }
                            assert(partial@.subrange(0, m as int) =~= partial@);
                        }
                        let solfa = &sub.solfa[l];
                        let ghost base = notes@;
                        let np = solfa.pulses.len();
                        let mut p: usize = 0;
                        assert(solfa.pulses@.subrange(0, 0) =~= Seq::<PulseIr>::empty());
                        assert(base + line_notes(solfa.pulses@.subrange(0, 0)) =~= base);
                        while p < np
                            invariant
                                np == solfa.pulses@.len(),
                                p <= np,
                                notes@ == base + line_notes(solfa.pulses@.subrange(0, p as int)),
                            decreases np - p,
                        {
                            let pulse = &solfa.pulses[p];
                            let ghost mid = notes@;
                            let nc = pulse.columns.len();
                            let mut c: usize = 0;
                            assert(mid + pulse_notes(*pulse).subrange(0, 0) =~= mid);
                            while c < nc
                                invariant
                                    nc == pulse.columns@.len(),
                                    c <= nc,
                                    notes@ == mid + pulse_notes(*pulse).subrange(0, c as int),
                                decreases nc - c,
                            {
                                notes.push(NoteContext { note: &pulse.columns[c], factor: pulse.factor });
                                assert(notes@ =~= mid + pulse_notes(*pulse).subrange(0, c as int + 1));
                                c = c + 1;
                            }
                            let ghost upto = solfa.pulses@.subrange(0, p as int + 1);
                            assert(upto.drop_last() =~= solfa.pulses@.subrange(0, p as int));
                            assert(pulse_notes(*pulse).subrange(0, nc as int) =~= pulse_notes(*pulse));
                            assert(notes@ =~= base + line_notes(upto));
                            p = p + 1;
                        }
                        assert(solfa.pulses@.subrange(0, np as int) =~= solfa.pulses@);
                    },
                }
                i = i + 1;
            }
            proof {
                let upto = sections@.subrange(0, s as int + 1);
                assert(upto.drop_last() =~= sections@.subrange(0, s as int));
                assert(items@.subrange(0, ni as int) =~= items@);
                assert(all_items(upto) =~= done + items@);
            }
            s = s + 1;
        }
        assert(sections@.subrange(0, ns as int) =~= sections@);
        VoiceLine::new(voice, notes, timeline)
    }
}

} // verus!
