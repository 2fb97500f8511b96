use vstd::prelude::*;

use crate::data_types::Voice;
use crate::assoc::first_index;
use crate::ir::solfa::{PulseColumn, PulseIr, SolfaLineIr};
use crate::ir::{SectionIR, SubSectionIR};
use crate::output::event::{events_at, get_note_ticks, spec_note_ticks, Event, NoteTimeline, SubSectonId, Timestamp};

verus! {

/// A note of a voice, with the factor of the pulse it belongs to.
#[derive(Debug)]
pub struct NoteContext<'a> {
    pub note: &'a PulseColumn,
    pub factor: usize,
}

/// The tick at which note `i` starts: the lengths of the notes before it.
pub open spec fn note_start(notes: Seq<NoteContext>, i: int) -> int
    decreases i,
{
    if i <= 0 {
        0
    } else {
        note_start(notes, i - 1) + spec_note_ticks(notes[i - 1].note.duration, notes[i - 1].factor)
    }
}

/// The events of `timeline` that fall at tick `ticks`, in order.
pub open spec fn events_at_tick(timeline: Seq<(Timestamp, Event)>, ticks: int) -> Seq<Event>
    decreases timeline.len(),
{
    if timeline.len() == 0 {
        Seq::empty()
    } else if timeline.last().0 == ticks {
        events_at_tick(timeline.drop_last(), ticks).push(timeline.last().1)
    } else {
        events_at_tick(timeline.drop_last(), ticks)
    }
}

/// The entries behind a sequence of references.
pub open spec fn deref_entries(timeline: Seq<&(Timestamp, Event)>) -> Seq<(Timestamp, Event)> {
    timeline.map_values(|e: &(Timestamp, Event)| *e)
}

/// Every note can be measured in ticks: its pulse has a factor, and the
/// voice fits in a `usize` of ticks.
pub open spec fn notes_measurable(notes: Seq<NoteContext>) -> bool {
    &&& forall|i: int| 0 <= i < notes.len() ==> (#[trigger] notes[i]).factor > 0
    &&& forall|i: int| 0 <= i < notes.len() ==> 960 * (#[trigger] notes[i]).note.duration <= usize::MAX
    &&& note_start(notes, notes.len() as int) <= usize::MAX
}

/// The notes of a pulse, each with the factor of the pulse.
pub open spec fn pulse_notes<'a>(pulse: PulseIr) -> Seq<NoteContext<'a>> {
    pulse.columns@.map_values(|c: PulseColumn| NoteContext { note: &c, factor: pulse.factor })
}

/// The notes of a solfa line, pulse after pulse.
pub open spec fn line_notes<'a>(pulses: Seq<PulseIr>) -> Seq<NoteContext<'a>>
    decreases pulses.len(),
{
    if pulses.len() == 0 {
        Seq::empty()
    } else {
        line_notes(pulses.drop_last()) + pulse_notes(pulses.last())
    }
}

/// The index of the first solfa line of a sub-section for `voice`, if any.
pub open spec fn voice_line_index(item: SubSectionIR, voice: Voice) -> Option<int> {
    first_index(item.solfa@.map_values(|l: SolfaLineIr| l.voice), voice)
}

/// The sub-sections of a body, section after section.
pub open spec fn all_items(sections: Seq<SectionIR>) -> Seq<SubSectionIR>
    decreases sections.len(),
{
    if sections.len() == 0 {
        Seq::empty()
    } else {
        all_items(sections.drop_last()) + sections.last().items@
    }
}

/// The notes of `voice` over a run of sub-sections: in each that has a solfa
/// line for it, the notes of the first such line.
pub open spec fn voice_notes<'a>(items: Seq<SubSectionIR>, voice: Voice) -> Seq<NoteContext<'a>>
    decreases items.len(),
{
    if items.len() == 0 {
        Seq::empty()
    } else {
        let before = voice_notes(items.drop_last(), voice);
        match voice_line_index(items.last(), voice) {
            Some(l) => before + line_notes(items.last().solfa@[l].pulses@),
            None => before,
        }
    }
}

/// The timeline of `voice` over a run of sub-sections: the events of each
/// sub-section that has a solfa line for it, in order.
pub open spec fn voice_events(
    items: Seq<SubSectionIR>,
    voice: Voice,
    timelines: Map<SubSectonId, Seq<(Timestamp, Event)>>,
) -> Seq<(Timestamp, Event)>
    decreases items.len(),
{
    if items.len() == 0 {
        Seq::empty()
    } else {
        let before = voice_events(items.drop_last(), voice, timelines);
        match voice_line_index(items.last(), voice) {
            Some(_) => if timelines.dom().contains(items.last().sid) {
                before + timelines[items.last().sid]
            } else {
                before
            },
            None => before,
        }
    }
}

/// The notes of one voice, with the events that sound with each.
#[derive(Debug)]
pub struct VoiceLine<'a> {
    pub voice: Voice,
    pub timeline: NoteTimeline,
    pub notes: Vec<NoteContext<'a>>,
}

proof fn lemma_note_start_monotone(notes: Seq<NoteContext>, i: int, j: int)
    requires
        0 <= i <= j <= notes.len(),
        forall|k: int| 0 <= k < notes.len() ==> (#[trigger] notes[k]).factor > 0,
    ensures
        0 <= note_start(notes, i) <= note_start(notes, j),
    decreases j,
{
    if j > 0 {
        if i < j {
            lemma_note_start_monotone(notes, i, j - 1);
        } else {
            lemma_note_start_monotone(notes, i - 1, j - 1);
        }
        let c = notes[j - 1];
        assert(c.factor > 0);
        let num = 960 * c.note.duration;
        assert(num / (c.factor as int) >= 0) by (nonlinear_arith)
            requires
                c.factor > 0,
                num >= 0,
        {
        }
    }
}

impl<'a> VoiceLine<'a> {
    /// Attaches the events of `flat_timeline` to the notes they fall on: the
    /// events at the start tick of note `i` go to note `i`, and those at the
    /// end of the last note go to the index after it.
    pub fn new(voice: Voice, notes: Vec<NoteContext<'a>>, flat_timeline: Vec<&(Timestamp, Event)>) -> (r: VoiceLine<'a>)
        requires
            notes_measurable(notes@),
            notes@.len() < usize::MAX,
        ensures
            r.voice == voice,
            r.notes@ == notes@,
            forall|i: usize|
                i <= notes@.len() ==> #[trigger] events_at(r.timeline.spec_events(), i) == events_at_tick(
                    deref_entries(flat_timeline@),
                    note_start(notes@, i as int),
                ),
    {
        let ghost flat = deref_entries(flat_timeline@);
        let n = notes.len();
        let mut ticks: usize = 0;
        let mut timeline = NoteTimeline::new();
        let mut index: usize = 0;
        while index <= n
            invariant
                n == notes@.len(),
                n < usize::MAX,
                notes_measurable(notes@),
                flat == deref_entries(flat_timeline@),
                index <= n + 1,
                index <= n ==> ticks == note_start(notes@, index as int),
                forall|i: usize|
                    i < index ==> #[trigger] events_at(timeline.spec_events(), i) == events_at_tick(
                        flat,
                        note_start(notes@, i as int),
                    ),
                forall|i: usize| index <= i ==> #[trigger] events_at(timeline.spec_events(), i) =~= Seq::<Event>::empty(),
            decreases n + 1 - index,
        {
            let m = flat_timeline.len();
            let mut k: usize = 0;
            assert(flat.subrange(0, 0) =~= Seq::<(Timestamp, Event)>::empty());
            assert(events_at(timeline.spec_events(), index) =~= Seq::<Event>::empty());
            while k < m
                invariant
                    m == flat_timeline@.len(),
                    flat == deref_entries(flat_timeline@),
                    k <= m,
                    index <= n,
                    ticks == note_start(notes@, index as int),
                    forall|i: usize|
                        i < index ==> #[trigger] events_at(timeline.spec_events(), i) == events_at_tick(
                            flat,
                            note_start(notes@, i as int),
                        ),
                    events_at(timeline.spec_events(), index) == events_at_tick(flat.subrange(0, k as int), ticks as int),
                    forall|i: usize| index < i ==> #[trigger] events_at(timeline.spec_events(), i) =~= Seq::<Event>::empty(),
                decreases m - k,
            {
                let ghost before = timeline.spec_events();
                assert(flat.subrange(0, k as int + 1).drop_last() =~= flat.subrange(0, k as int));
                let entry = flat_timeline[k];
                assert(flat[k as int] == *entry);
                if entry.0 == ticks {
                    timeline.add_event(index, entry.1);
                }
                proof {
                    let after = timeline.spec_events();
                    if after.len() > before.len() {
                        assert(after.drop_last() =~= before);
                    } else {
                        assert(after == before);
                    }
                    assert forall|i: usize| i < index implies #[trigger] events_at(after, i) == events_at_tick(
                        flat,
                        note_start(notes@, i as int),
                    ) by {
                        assert(events_at(before, i) == events_at_tick(flat, note_start(notes@, i as int)));
                    }
                    assert forall|i: usize| index < i implies #[trigger] events_at(after, i) =~= Seq::<Event>::empty() by {
                        assert(events_at(before, i) =~= Seq::<Event>::empty());
                    }
                }
                k = k + 1;
            }
            assert(flat.subrange(0, m as int) =~= flat);
            if index < n {
                proof {
                    assert forall|j: int| 0 <= j < notes@.len() implies (#[trigger] notes@[j]).factor > 0 by {}
                    lemma_note_start_monotone(notes@, index as int + 1, n as int);
                    assert(notes@[index as int].factor > 0);
                    assert(960 * notes@[index as int].note.duration <= usize::MAX);
                }
                let ctx = &notes[index];
                ticks = ticks + get_note_ticks(ctx.note.duration, ctx.factor);
            }
            index = index + 1;
        }
        VoiceLine { voice, timeline, notes }
    }
}

} // verus!
