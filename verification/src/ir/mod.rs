
pub mod builder;
pub mod lyric_scan;
pub mod lyrics;
pub mod scan;
pub mod solfa;
pub mod utils;

use vstd::prelude::*;

use crate::ast::body::SectionMetadata;
use crate::ast::params::{SectionParams, SubSectionParams};
use crate::ast::symbols::ScopeId;
use crate::data_types::{ExtendedTempo, Mark, Voice};
use crate::ir::lyrics::LyricLineIR;
use crate::ir::solfa::{PulseIr, SolfaLineIr};
use crate::output::event::{get_note_ticks, spec_note_ticks, Event, EventKind, JumpEvent};

verus! {

/// The laid-out body of a document.
#[derive(Debug)]
pub struct BodyIR {
    pub sections: Vec<SectionIR>,
}

/// A laid-out section.
#[derive(Debug)]
pub struct SectionIR {
    pub sid: ScopeId,
    pub items: Vec<SubSectionIR>,
    pub metadata: SectionMetadata,
    pub params: SectionParams,
    pub merge: bool,
}

/// Whether some solfa line of the sub-section is for `voice`.
pub open spec fn has_voice(item: SubSectionIR, voice: Voice) -> bool {
    exists|k: int| 0 <= k < item.solfa@.len() && (#[trigger] item.solfa@[k]).voice == voice
}

/// The index of the first sub-section with a solfa line for `voice`, if any.
pub open spec fn first_item_with_voice(items: Seq<SubSectionIR>, voice: Voice) -> Option<int> {
    if exists|i: int| 0 <= i < items.len() && has_voice(#[trigger] items[i], voice) {
        Some(
            choose|i: int|
                0 <= i < items.len() && has_voice(#[trigger] items[i], voice) && forall|j: int|
                    0 <= j < i ==> !has_voice(#[trigger] items[j], voice),
        )
    } else {
        None
    }
}

/// The events a section starts with: its time signature, its tempo (or the
/// start of a tempo change), a segno or coda mark, its key, and the start of
/// its ending, in that order, each where the section sets it.
pub open spec fn spec_start_events(params: SectionParams) -> Seq<Event> {
    let s1 = match params.time {
        Some(t) => seq![Event { kind: EventKind::Time(t.value) }],
        None => Seq::empty(),
    };
    let s2 = match params.tempo {
        Some(t) => s1.push(
            match t.value {
                ExtendedTempo::Progressive(kind) => Event { kind: EventKind::TempoStart(kind) },
                ExtendedTempo::Static(tempo) => Event { kind: EventKind::Tempo(tempo) },
            },
        ),
        None => s1,
    };
    let s3 = match params.mark {
        Some(m) => if m.value == Mark::Coda || m.value == Mark::Segno {
            s2.push(Event { kind: EventKind::Mark(m.value) })
        } else {
            s2
        },
        None => s2,
    };
    let s4 = match params.key {
        Some(k) => s3.push(Event { kind: EventKind::Key(k.value) }),
        None => s3,
    };
    match params.ending {
        Some(e) => s4.push(Event { kind: EventKind::EndingStart(e.value as u8) }),
        None => s4,
    }
}

/// The events a section ends with: a to-coda or fine mark, the end of a tempo
/// change, the end of its ending, and its jump (taken `repeat` times, once
/// by default), in that order, each where the section sets it.
pub open spec fn spec_end_events(params: SectionParams) -> Seq<Event> {
    let s1 = match params.mark {
        Some(m) => if m.value == Mark::ToCoda || m.value == Mark::Fine {
            seq![Event { kind: EventKind::Mark(m.value) }]
        } else {
            Seq::empty()
        },
        None => Seq::empty(),
    };
    let s2 = match params.tempo {
        Some(t) => match t.value {
            ExtendedTempo::Progressive(kind) => s1.push(Event { kind: EventKind::TempoEnd(kind) }),
            ExtendedTempo::Static(_) => s1,
        },
        None => s1,
    };
    let s3 = match params.ending {
        Some(e) => s2.push(Event { kind: EventKind::EndingEnd(e.value as u8) }),
        None => s2,
    };
    match params.jump {
        Some(j) => s3.push(
            Event {
                kind: EventKind::Jump(
                    JumpEvent {
                        kind: j.value,
                        repeat: match params.repeat {
                            Some(r) => r.value as u8,
                            None => 1,
                        },
                    },
                ),
            },
        ),
        None => s3,
    }
}

/// Whether the mark `m` is played among `events`.
pub open spec fn has_mark(events: Seq<Event>, m: Mark) -> bool {
    exists|i: int| 0 <= i < events.len() && (#[trigger] events[i]).kind == EventKind::Mark(m)
}

/// A section starts with its time signature where it sets one, and with
/// the start of its ending last where it sets one; a coda or segno mark is
/// played where the section starts, a to-coda or fine mark where it ends,
/// and no mark anywhere else.
pub proof fn lemma_section_event_places(params: SectionParams)
    ensures
        ({
            let st = spec_start_events(params);
            let en = spec_end_events(params);
            &&& params.time matches Some(t) ==> st.len() > 0 && st[0].kind == EventKind::Time(t.value)
            &&& params.ending matches Some(e) ==> st.len() > 0 && st.last().kind == EventKind::EndingStart(
                e.value as u8,
            )
            &&& params.ending matches Some(e) ==> exists|i: int|
                0 <= i < en.len() && (#[trigger] en[i]).kind == EventKind::EndingEnd(e.value as u8)
            &&& forall|m: Mark|
                #[trigger] has_mark(st, m) <==> (params.mark matches Some(pm) && pm.value == m && (m == Mark::Coda
                    || m == Mark::Segno))
            &&& forall|m: Mark|
                #[trigger] has_mark(en, m) <==> (params.mark matches Some(pm) && pm.value == m && (m == Mark::ToCoda
                    || m == Mark::Fine))
        }),
{
    let st = spec_start_events(params);
    let en = spec_end_events(params);
    if let Some(e) = params.ending {
        assert(en.len() > 0);
        let k = if params.jump is Some { en.len() - 2 } else { en.len() - 1 };
        assert(en[k].kind == EventKind::EndingEnd(e.value as u8));
    }
    assert forall|m: Mark|
        #[trigger] has_mark(st, m) <==> (params.mark matches Some(pm) && pm.value == m && (m == Mark::Coda
            || m == Mark::Segno)) by {
        if params.mark matches Some(pm) && pm.value == m && (m == Mark::Coda || m == Mark::Segno) {
            let i = if params.time is Some { 1int } else { 0int } + if params.tempo is Some { 1int } else { 0int };
            assert(st[i].kind == EventKind::Mark(m));
        }
    }
    assert forall|m: Mark|
        #[trigger] has_mark(en, m) <==> (params.mark matches Some(pm) && pm.value == m && (m == Mark::ToCoda
            || m == Mark::Fine)) by {
        if params.mark matches Some(pm) && pm.value == m && (m == Mark::ToCoda || m == Mark::Fine) {
            assert(en[0].kind == EventKind::Mark(m));
        }
    }
}

/// A section that sets a jump ends with that jump and with no other: taken
/// as many times as its repeat parameter says, and exactly once where it
/// sets no repeat. A section that sets no jump ends with none.
pub proof fn lemma_end_events_jump(params: SectionParams)
    ensures
        ({
            let ev = spec_end_events(params);
            &&& params.jump matches Some(j) ==> {
                &&& ev.len() > 0
                &&& ev.last().kind == EventKind::Jump(
                    (JumpEvent {
                        kind: j.value,
                        repeat: match params.repeat {
                            Some(r) => r.value as u8,
                            None => 1u8,
                        },
                    }),
                )
                &&& forall|i: int| 0 <= i < ev.len() - 1 ==> !((#[trigger] ev[i]).kind is Jump)
            }
            &&& (params.jump is Some && params.repeat is None) ==> ev.last().kind == EventKind::Jump(
                (JumpEvent { kind: params.jump.unwrap().value, repeat: 1u8 }),
            )
            &&& params.jump is None ==> forall|i: int| 0 <= i < ev.len() ==> !((#[trigger] ev[i]).kind is Jump)
        }),
{
}

impl SectionIR {
    /// The lyric lines of the first sub-section that has a solfa line for `voice`.
    pub fn get_verses(&self, voice: &Voice) -> (r: Option<&[LyricLineIR]>)
        ensures
            match first_item_with_voice(self.items@, *voice) {
                Some(i) => r matches Some(lines) && lines@ == self.items@[i].lyrics@,
                None => r is None,
            },
    {
        let n = self.items.len();
        let mut i: usize = 0;
        while i < n
            invariant
                n == self.items@.len(),
                i <= n,
                forall|j: int| 0 <= j < i ==> !has_voice(#[trigger] self.items@[j], *voice),
            decreases n - i,
        {
            let item = &self.items[i];
            let m = item.solfa.len();
            let mut k: usize = 0;
            while k < m
                invariant
                    n == self.items@.len(),
                    i < n,
                    *item == self.items@[i as int],
                    forall|j: int| 0 <= j < i ==> !has_voice(#[trigger] self.items@[j], *voice),
                    m == item.solfa@.len(),
                    k <= m,
                    forall|q: int| 0 <= q < k ==> (#[trigger] item.solfa@[q]).voice != *voice,
                decreases m - k,
            {
                if item.solfa[k].voice == *voice {
                    assert(has_voice(self.items@[i as int], *voice));
                    assert(forall|j: int| 0 <= j < i ==> !has_voice(#[trigger] self.items@[j], *voice));
                    let ghost c = choose|c: int|
                        0 <= c < self.items@.len() && has_voice(#[trigger] self.items@[c], *voice)
                            && forall|j: int| 0 <= j < c ==> !has_voice(#[trigger] self.items@[j], *voice);
                    proof {
                        if c < i {
                        } else if c > i {
                            assert(!has_voice(self.items@[i as int], *voice));
                        }
                    }
                    return Some(item.lyrics.as_slice());
                }
                k = k + 1;
            }
            i = i + 1;
        }
        None
    }

    /// The events played when the section starts.
    pub fn start_events(&self) -> (r: Vec<Event>)
        ensures
            r@ == spec_start_events(self.params),
    {
        let mut result: Vec<Event> = Vec::new();
        let params = &self.params;
        if let Some(time) = &params.time {
            result.push(Event::new(EventKind::Time(time.value)));
        }
        if let Some(tempo) = &params.tempo {
            let event = match tempo.value {
                ExtendedTempo::Progressive(kind) => Event::new(EventKind::TempoStart(kind)),
                ExtendedTempo::Static(t) => Event::new(EventKind::Tempo(t)),
            };
            result.push(event);
        }
        if let Some(mark) = &params.mark {
            if matches!(mark.value, Mark::Coda | Mark::Segno) {
                result.push(Event::new(EventKind::Mark(mark.value)));
            }
        }
        if let Some(key) = &params.key {
            result.push(Event::new(EventKind::Key(key.value)));
        }
        if let Some(ending) = &params.ending {
            result.push(Event::new(EventKind::EndingStart(ending.value as u8)));
        }
        assert(result@ =~= spec_start_events(self.params));
        result
    }

    /// The events played when the section ends.
    pub fn end_events(&self) -> (r: Vec<Event>)
        ensures
            r@ == spec_end_events(self.params),
    {
        let mut result: Vec<Event> = Vec::new();
        let params = &self.params;
        if let Some(mark) = &params.mark {
            if matches!(mark.value, Mark::ToCoda | Mark::Fine) {
                result.push(Event::new(EventKind::Mark(mark.value)));
            }
        }
        if let Some(tempo) = &params.tempo {
            if let ExtendedTempo::Progressive(kind) = tempo.value {
                result.push(Event::new(EventKind::TempoEnd(kind)));
            }
        }
        if let Some(ending) = &params.ending {
            result.push(Event::new(EventKind::EndingEnd(ending.value as u8)));
        }
        if let Some(jump) = &params.jump {
            let repeat: u8 = match &params.repeat {
                Some(r) => r.value as u8,
                None => 1,
            };
            result.push(Event::new(EventKind::Jump(JumpEvent { kind: jump.value, repeat })));
        }
        assert(result@ =~= spec_end_events(self.params));
        result
    }
}

/// A laid-out sub-section.
#[derive(Debug)]
pub struct SubSectionIR {
    pub sid: ScopeId,
    pub params: SubSectionParams,
    pub views: Vec<PulseView>,
    pub solfa: Vec<SolfaLineIr>,
    pub lyrics: Vec<LyricLineIR>,
}

/// The total number of durations over the views.
pub open spec fn views_width(views: Seq<PulseView>) -> int
    decreases views.len(),
{
    if views.len() == 0 {
        0
    } else {
        views_width(views.drop_last()) + views.last().durations@.len()
    }
}

impl SubSectionIR {
    /// The number of columns over all the pulse views.
    pub fn width(&self) -> (r: usize)
        requires
            views_width(self.views@) <= usize::MAX,
        ensures
            r == views_width(self.views@),
    {
        let n = self.views.len();
        let mut total: usize = 0;
        let mut i: usize = 0;
        while i < n
            invariant
                n == self.views@.len(),
                i <= n,
                total == views_width(self.views@.subrange(0, i as int)),
                views_width(self.views@) <= usize::MAX,
            decreases n - i,
        {
            proof {
                lemma_views_width_prefix(self.views@, i as int + 1);
                assert(self.views@.subrange(0, i as int + 1).drop_last() =~= self.views@.subrange(0, i as int));
            }
            total = total + self.views[i].durations.len();
            i = i + 1;
        }
        assert(self.views@.subrange(0, n as int) =~= self.views@);
        total
    }

    /// The length of the sub-section in ticks, one whole note per pulse.
    pub fn get_ticks(&self) -> (r: usize)
        requires
            TICK_PER_WHOLE_NOTE_INT * self.views@.len() <= usize::MAX,
        ensures
            r == spec_note_ticks(self.views@.len() as usize, 1),
    {
        get_note_ticks(self.views.len(), 1)
    }
}

pub const TICK_PER_WHOLE_NOTE_INT: usize = 960;

proof fn lemma_views_width_prefix(views: Seq<PulseView>, k: int)
    requires
        0 <= k <= views.len(),
    ensures
        views_width(views.subrange(0, k)) <= views_width(views),
    decreases views.len() - k,
{
    if k < views.len() {
        lemma_views_width_prefix(views, k + 1);
        assert(views.subrange(0, k + 1).drop_last() =~= views.subrange(0, k));
    } else {
        assert(views.subrange(0, k) =~= views);
    }
}

/// How the pulses at one index of the solfa lines of a sub-section line up:
/// the durations and factor they share, or, where they differ, a single
/// column and a factor of one.
#[derive(Debug)]
pub struct PulseView {
    pub durations: Vec<usize>,
    pub factor: usize,
    pub aligned: bool,
}

pub open spec fn column_durations(pulse: PulseIr) -> Seq<usize> {
    pulse.columns@.map_values(|c: crate::ir::solfa::PulseColumn| c.duration)
}

/// Whether `pulse` has the factor `factor` and agrees with `durations` on
/// every index both have.
pub open spec fn matches_view(durations: Seq<usize>, factor: usize, pulse: PulseIr) -> bool {
    &&& pulse.factor == factor
    &&& forall|k: int|
        0 <= k < durations.len() && k < pulse.columns@.len() ==> #[trigger] pulse.columns@[k].duration
            == durations[k]
}

impl PulseView {
    pub fn new(pulse: &PulseIr) -> (r: PulseView)
        ensures
            r.durations@ == column_durations(*pulse),
            r.factor == pulse.factor,
            r.aligned,
    {
        let n = pulse.columns.len();
        let mut durations: Vec<usize> = Vec::new();
        let mut i: usize = 0;
        while i < n
            invariant
                n == pulse.columns@.len(),
                i <= n,
                durations@ == column_durations(*pulse).subrange(0, i as int),
            decreases n - i,
        {
            durations.push(pulse.columns[i].duration);
            i = i + 1;
            assert(durations@ =~= column_durations(*pulse).subrange(0, i as int));
        }
        assert(column_durations(*pulse).subrange(0, n as int) =~= column_durations(*pulse));
        PulseView { durations, factor: pulse.factor, aligned: true }
    }

    /// Adds the pulse of another line: where it does not match, the view
    /// stops being aligned and falls back to one column and a factor of one.
    pub fn add(&mut self, pulse: &PulseIr)
        ensures
            if matches_view(old(self).durations@, old(self).factor, *pulse) {
                *final(self) == *old(self)
            } else {
                &&& !final(self).aligned
                &&& final(self).factor == 1
                &&& final(self).durations@ == seq![1usize]
            },
    {
        let n = if pulse.columns.len() < self.durations.len() {
            pulse.columns.len()
        } else {
            self.durations.len()
        };
        let mut duration_match = true;
        let mut i: usize = 0;
        while i < n
            invariant
                n <= pulse.columns@.len(),
                n <= self.durations@.len(),
                n == pulse.columns@.len() || n == self.durations@.len(),
                i <= n,
                duration_match == forall|k: int|
                    0 <= k < i ==> #[trigger] pulse.columns@[k].duration == self.durations@[k],
            decreases n - i,
        {
            if pulse.columns[i].duration != self.durations[i] {
                duration_match = false;
            }
            i = i + 1;
        }
        if pulse.factor != self.factor || !duration_match {
            self.aligned = false;
            self.factor = 1;
            self.durations = vec![1];
        }
    }

    /// The width of each column of the view, for columns `col_width` wide
    /// and `col_factor` to a pulse: `col_width * duration * col_factor / factor`.
    pub fn resolve_widths(&self, col_width: usize, col_factor: usize) -> (r: Vec<usize>)
        requires
            self.factor > 0,
            forall|k: int|
                0 <= k < self.durations@.len() ==> col_width * #[trigger] self.durations@[k]
                    <= usize::MAX && col_width * self.durations@[k] * col_factor <= usize::MAX,
        ensures
            r@.len() == self.durations@.len(),
            forall|k: int|
                0 <= k < r@.len() ==> #[trigger] r@[k] == (col_width * self.durations@[k] * col_factor)
                    / (self.factor as int),
    {
        let n = self.durations.len();
        let mut result: Vec<usize> = Vec::new();
        let mut i: usize = 0;
        while i < n
            invariant
                n == self.durations@.len(),
                i <= n,
                self.factor > 0,
                forall|k: int|
                    0 <= k < self.durations@.len() ==> col_width * #[trigger] self.durations@[k]
                        <= usize::MAX && col_width * self.durations@[k] * col_factor <= usize::MAX,
                result@.len() == i,
                forall|k: int|
                    0 <= k < i ==> #[trigger] result@[k] == (col_width * self.durations@[k]
                        * col_factor) / (self.factor as int),
            decreases n - i,
        {
            let d = self.durations[i];
            assert(col_width * self.durations@[i as int] <= usize::MAX);
            assert(col_width * self.durations@[i as int] * col_factor <= usize::MAX);
            let w = (col_width * d * col_factor) / self.factor;
            result.push(w);
            i = i + 1;
        }
        result
    }
}

} // verus!
