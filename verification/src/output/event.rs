use vstd::prelude::*;

use std::collections::HashMap;

use crate::data_types::{Dynamic, Jump, Key, Mark, ProgressiveTempo, StaticTempo, TimeSignature, Touch};

verus! {

pub type SubSectonId = usize;

pub type Timestamp = usize;

pub type NoteId = usize;

/// Ticks in a whole note.
pub const TICK_PER_WHOLE_NOTE: usize = 960;

/// The number of ticks in `numerator / denominator` of a whole note, rounded down.
pub open spec fn spec_note_ticks(numerator: usize, denominator: usize) -> int {
    (TICK_PER_WHOLE_NOTE * numerator) / (denominator as int)
}

pub fn get_note_ticks(numerator: usize, denominator: usize) -> (r: Timestamp)
    requires
        denominator > 0,
        TICK_PER_WHOLE_NOTE * numerator <= usize::MAX,
    ensures
        r == spec_note_ticks(numerator, denominator),
{
    (TICK_PER_WHOLE_NOTE * numerator) / denominator
}

/// A jump, with the number of times it is taken.
#[derive(Debug, Clone, Copy, PartialEq, Eq, Structural)]
pub struct JumpEvent {
    pub kind: Jump,
    pub repeat: u8,
}

/// Something that happens at a point of the playback.
#[derive(Debug, Clone, Copy, PartialEq, Eq, Structural)]
pub struct Event {
    pub kind: EventKind,
}

impl Event {
    pub fn new(kind: EventKind) -> (r: Event)
        ensures
            r.kind == kind,
    {
        Event { kind }
    }

    pub fn with<T: ToEventKind>(value: T) -> (r: Event)
        ensures
            r.kind == value.spec_event_kind(),
    {
        Event { kind: value.to_event_kind() }
    }
}

/// The kinds of playback events.
#[derive(Debug, Clone, Copy, PartialEq, Eq, Structural)]
pub enum EventKind {
    Dynamic(Dynamic),
    Key(Key),
    Jump(JumpEvent),
    Mark(Mark),
    Touch(Touch),
    Time(TimeSignature),
    Tempo(StaticTempo),
    TempoStart(ProgressiveTempo),
    TempoEnd(ProgressiveTempo),
    EndingStart(u8),
    EndingEnd(u8),
}

/// Whether an event opens or closes a stretch.
#[derive(Debug, Clone, Copy, PartialEq, Eq, Structural)]
pub enum EventDispatch {
    Start,
    End,
}

/// A value that stands for an event.
pub trait ToEventKind {
    spec fn spec_event_kind(&self) -> EventKind;

    spec fn spec_is_range(&self) -> bool;

    fn to_event_kind(&self) -> (r: EventKind)
        ensures
            r == self.spec_event_kind(),
    ;

    /// Whether the event lasts over a stretch rather than happening at a point.
    fn is_range(&self) -> (r: bool)
        ensures
            r == self.spec_is_range(),
    ;
}

impl ToEventKind for Dynamic {
    open spec fn spec_event_kind(&self) -> EventKind {
        EventKind::Dynamic(*self)
    }

    open spec fn spec_is_range(&self) -> bool {
        *self == Dynamic::Cre || *self == Dynamic::Dec
    }

    fn to_event_kind(&self) -> (r: EventKind) {
        EventKind::Dynamic(*self)
    }

    fn is_range(&self) -> (r: bool) {
        matches!(self, Dynamic::Cre | Dynamic::Dec)
    }
}

impl ToEventKind for Key {
    open spec fn spec_event_kind(&self) -> EventKind {
        EventKind::Key(*self)
    }

    open spec fn spec_is_range(&self) -> bool {
        false
    }

    fn to_event_kind(&self) -> (r: EventKind) {
        EventKind::Key(*self)
    }

    fn is_range(&self) -> (r: bool) {
        false
    }
}

impl ToEventKind for Mark {
    open spec fn spec_event_kind(&self) -> EventKind {
        EventKind::Mark(*self)
    }

    open spec fn spec_is_range(&self) -> bool {
        false
    }

    fn to_event_kind(&self) -> (r: EventKind) {
        EventKind::Mark(*self)
    }

    fn is_range(&self) -> (r: bool) {
        false
    }
}

impl ToEventKind for Touch {
    open spec fn spec_event_kind(&self) -> EventKind {
        EventKind::Touch(*self)
    }

    open spec fn spec_is_range(&self) -> bool {
        false
    }

    fn to_event_kind(&self) -> (r: EventKind) {
        EventKind::Touch(*self)
    }

    fn is_range(&self) -> (r: bool) {
        false
    }
}

impl ToEventKind for TimeSignature {
    open spec fn spec_event_kind(&self) -> EventKind {
        EventKind::Time(*self)
    }

    open spec fn spec_is_range(&self) -> bool {
        false
    }

    fn to_event_kind(&self) -> (r: EventKind) {
        EventKind::Time(*self)
    }

    fn is_range(&self) -> (r: bool) {
        false
    }
}

impl ToEventKind for StaticTempo {
    open spec fn spec_event_kind(&self) -> EventKind {
        EventKind::Tempo(*self)
    }

    open spec fn spec_is_range(&self) -> bool {
        false
    }

    fn to_event_kind(&self) -> (r: EventKind) {
        EventKind::Tempo(*self)
    }

    fn is_range(&self) -> (r: bool) {
        false
    }
}

/// The events attached to note `id`, in the order they were added.
pub open spec fn events_at(events: Seq<(NoteId, Event)>, id: NoteId) -> Seq<Event>
    decreases events.len(),
{
    if events.len() == 0 {
        Seq::empty()
    } else if events.last().0 == id {
        events_at(events.drop_last(), id).push(events.last().1)
    } else {
        events_at(events.drop_last(), id)
    }
}

/// The events of a voice, attached to the index of the note they sound with.
#[derive(Debug)]
pub struct NoteTimeline {
    events: Vec<(NoteId, Event)>,
}

impl NoteTimeline {
    pub closed spec fn spec_events(&self) -> Seq<(NoteId, Event)> {
        self.events@
    }

    pub fn new() -> (r: NoteTimeline)
        ensures
            r.spec_events().len() == 0,
    {
        NoteTimeline { events: Vec::new() }
    }

    pub fn add_event(&mut self, note_id: NoteId, event: Event)
        ensures
            final(self).spec_events() == old(self).spec_events().push((note_id, event)),
    {
        self.events.push((note_id, event));
    }

    /// The events of note `note_id`, in order.
    pub fn get_events(&self, note_id: NoteId) -> (r: Vec<Event>)
        ensures
            r@ == events_at(self.spec_events(), note_id),
    {
        let n = self.events.len();
        let mut result: Vec<Event> = Vec::new();
        let mut i: usize = 0;
        while i < n
            invariant
                n == self.events@.len(),
                i <= n,
                result@ == events_at(self.events@.subrange(0, i as int), note_id),
            decreases n - i,
        {
            let ghost prefix = self.events@.subrange(0, i as int + 1);
            assert(prefix.drop_last() =~= self.events@.subrange(0, i as int));
            if self.events[i].0 == note_id {
                result.push(self.events[i].1);
            }
            i = i + 1;
        }
        assert(self.events@.subrange(0, n as int) =~= self.events@);
        result
    }
}

/// The events of one sub-section, at the tick they fall on.
pub type PartialTimeline = Vec<(Timestamp, Event)>;

broadcast use vstd::std_specs::hash::group_hash_axioms;

/// The events of each sub-section, by its id.
#[derive(Debug)]
pub struct TimelineMap {
    timelines: HashMap<SubSectonId, PartialTimeline>,
}

impl TimelineMap {
    /// For each sub-section with a timeline, its events.
    pub closed spec fn view(&self) -> Map<SubSectonId, Seq<(Timestamp, Event)>> {
        Map::new(|k: SubSectonId| self.timelines@.dom().contains(k), |k: SubSectonId| self.timelines@[k]@)
    }

    /// The timeline of `sub_id`, if it has one.
    pub fn get(&self, sub_id: SubSectonId) -> (r: Option<&PartialTimeline>)
        ensures
            match r {
                Some(events) => self.view().dom().contains(sub_id) && events@ == self.view()[sub_id],
                None => !self.view().dom().contains(sub_id),
            },
    {
        self.timelines.get(&sub_id)
    }

    /// The timeline of `sub_id`, created empty if it has none yet.
    pub fn get_mut(&mut self, sub_id: SubSectonId) -> (r: &mut PartialTimeline)
        ensures
            r@ == (if old(self).view().dom().contains(sub_id) {
                old(self).view()[sub_id]
            } else {
                Seq::<(Timestamp, Event)>::empty()
            }),
            final(self).view() == old(self).view().insert(sub_id, final(r)@),
    {
        self.timelines.entry(sub_id).or_insert(Vec::new())
    }
}

impl Default for TimelineMap {
    fn default() -> (r: TimelineMap)
        ensures
            r.view() == Map::<SubSectonId, Seq<(Timestamp, Event)>>::empty(),
    {
        let r = TimelineMap { timelines: HashMap::new() };
        assert(r.view() =~= Map::<SubSectonId, Seq<(Timestamp, Event)>>::empty());
        r
    }
}

} // verus!
