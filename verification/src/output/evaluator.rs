use vstd::prelude::*;

use std::collections::HashMap;

use crate::data_types::{Dynamic, Jump, Key, Mark, Touch};
use crate::output::dynamics::{DynamicState, DynamicTransition, DynamicTransitionKind};
use crate::output::event::{events_at, Event, EventKind, JumpEvent, NoteTimeline};

verus! {

broadcast use vstd::std_specs::hash::group_hash_axioms;

/// A small map from indices to counts or addresses.
#[derive(Debug)]
pub struct IndexMap {
    entries: HashMap<usize, usize>,
}

impl IndexMap {
    pub closed spec fn view(&self) -> Map<usize, usize> {
        self.entries@
    }

    pub fn new() -> (r: IndexMap)
        ensures
            r.view() == Map::<usize, usize>::empty(),
    {
        IndexMap { entries: HashMap::new() }
    }

    /// The value for `key`, if any.
    pub fn get(&self, key: usize) -> (r: Option<usize>)
        ensures
            r == if self.view().dom().contains(key) {
                Some(self.view()[key])
            } else {
                None
            },
    {
        match self.entries.get(&key) {
            Some(v) => Some(*v),
            None => None,
        }
    }

    /// Sets the value for `key`.
    pub fn insert(&mut self, key: usize, value: usize)
        ensures
            final(self).view() == old(self).view().insert(key, value),
    {
        self.entries.insert(key, value);
    }
}

/// Where playback stops after a jump: at the to-coda mark for a jump to the
/// coda, at the fine mark for a jump to the end, nowhere in particular else.
pub open spec fn spec_jump_target(kind: Jump) -> Option<Mark> {
    match kind {
        Jump::DSC | Jump::DCC => Some(Mark::ToCoda),
        Jump::DSF | Jump::DCF => Some(Mark::Fine),
        _ => None,
    }
}

pub fn jump_target(kind: Jump) -> (r: Option<Mark>)
    ensures
        r == spec_jump_target(kind),
{
    match kind {
        Jump::DSC | Jump::DCC => Some(Mark::ToCoda),
        Jump::DSF | Jump::DCF => Some(Mark::Fine),
        _ => None,
    }
}

/// Where a jump goes back to: the segno for a dal segno, the start otherwise.
pub open spec fn spec_jump_address(kind: Jump, segno: usize) -> usize {
    match kind {
        Jump::DS | Jump::DSC | Jump::DSF => segno,
        _ => 0,
    }
}

/// The dynamic state after a dynamic marking: a crescendo or decrescendo
/// during a transition marks its end, otherwise it starts a transition from
/// the current level; any other marking sets the level.
pub open spec fn spec_dynamic_step(current: Dynamic, transition: Option<DynamicTransition>, update: bool, d: Dynamic)
    -> (Dynamic, Option<DynamicTransition>, bool) {
    if (d == Dynamic::Cre || d == Dynamic::Dec) && transition is Some {
        (current, transition, true)
    } else if d == Dynamic::Cre {
        (current, Some(DynamicTransition { level: current, kind: DynamicTransitionKind::Cre }), update)
    } else if d == Dynamic::Dec {
        (current, Some(DynamicTransition { level: current, kind: DynamicTransitionKind::Dec }), update)
    } else {
        (d, transition, update)
    }
}

/// The settings of a playback: its key and the length of a quarter note.
#[derive(Debug, Clone)]
pub struct PlaybackParams {
    pub key: Key,
    pub quarter_unit: u32,
}

impl PlaybackParams {
    pub fn new(key: Key, quarter_unit: usize) -> (r: PlaybackParams)
        ensures
            r.key == key,
            r.quarter_unit == quarter_unit as u32,
    {
        PlaybackParams { key, quarter_unit: quarter_unit as u32 }
    }
}

/// Walks the notes of a voice in playing order, following jumps, repeats,
/// endings and marks, and tracking the key, touches and dynamics.
#[derive(Debug)]
pub struct TimelineEvaluator {
    index: usize,
    jump: Option<usize>,
    segno: usize,
    endings_jump: IndexMap,
    jump_table: IndexMap,
    target_mark: Option<Mark>,
    waited_event: Option<EventKind>,
    pending_touch: Option<Touch>,
    abort: bool,
    params: PlaybackParams,
    dynamic: DynamicState,
}

/// What handling `event` does: the state `f` after it, from the state `o`
/// before it. A wait for the event ends; a key changes the key; a touch is
/// kept for the next note; a segno records the index; a fine being looked
/// for stops the playback; a to-coda being looked for waits for the coda; an
/// ending's start goes to the index after its end when that is known, and an
/// ending's end records that index; a jump with turns left is taken; a
/// dynamic marking steps the dynamics.
pub open spec fn event_step(o: TimelineEvaluator, f: TimelineEvaluator, event: Event) -> bool {
    let taken = if o.spec_waited() == Some(event.kind) {
        None
    } else {
        o.spec_waited()
    };
    &&& f.spec_waited() == if event.kind == EventKind::Mark(Mark::ToCoda)
        && o.spec_target() == Some(Mark::ToCoda) {
        Some(EventKind::Mark(Mark::Coda))
    } else {
        taken
    }
    &&& f.spec_params().key == match event.kind {
        EventKind::Key(key) => key,
        _ => o.spec_params().key,
    }
    &&& f.spec_params().quarter_unit == o.spec_params().quarter_unit
    &&& f.spec_pending_touch() == match event.kind {
        EventKind::Touch(touch) => Some(touch),
        _ => o.spec_pending_touch(),
    }
    &&& f.spec_segno() == if event.kind == EventKind::Mark(Mark::Segno) {
        o.spec_index()
    } else {
        o.spec_segno()
    }
    &&& f.spec_abort() == (o.spec_abort() || (event.kind == EventKind::Mark(Mark::Fine)
        && o.spec_target() == Some(Mark::Fine)))
    &&& f.spec_index() == match event.kind {
        EventKind::EndingStart(id) => if o.spec_endings().dom().contains(id as usize) {
            o.spec_endings()[id as usize]
        } else {
            o.spec_index()
        },
        _ => o.spec_index(),
    }
    &&& f.spec_endings() == match event.kind {
        EventKind::EndingEnd(id) => o.spec_endings().insert(id as usize, (o.spec_index() + 1) as usize),
        _ => o.spec_endings(),
    }
    &&& match event.kind {
        EventKind::Jump(jump) => {
            let entry = if o.spec_jump_table().dom().contains(o.spec_index()) {
                o.spec_jump_table()[o.spec_index()]
            } else {
                jump.repeat as usize
            };
            if entry > 0 {
                &&& f.spec_jump() == Some(spec_jump_address(jump.kind, o.spec_segno()))
                &&& f.spec_target() == spec_jump_target(jump.kind)
                &&& f.spec_jump_table() == o.spec_jump_table().insert(o.spec_index(), (entry - 1) as usize)
            } else {
                &&& f.spec_jump() == o.spec_jump()
                &&& f.spec_target() == o.spec_target()
                &&& f.spec_jump_table() == o.spec_jump_table().insert(o.spec_index(), entry)
            }
        },
        _ => {
            &&& f.spec_jump() == o.spec_jump()
            &&& f.spec_target() == o.spec_target()
            &&& f.spec_jump_table() == o.spec_jump_table()
        },
    }
    &&& (f.spec_dynamic().current, f.spec_dynamic().transition, f.spec_dynamic().update) == match event.kind {
        EventKind::Dynamic(d) => spec_dynamic_step(
            o.spec_dynamic().current,
            o.spec_dynamic().transition,
            o.spec_dynamic().update,
            d,
        ),
        _ => (o.spec_dynamic().current, o.spec_dynamic().transition, o.spec_dynamic().update),
    }
}

/// The states `states` go from `o` to `f`, each the step of one of
/// `events`, in order, from the one before; they take every event unless the
/// last state has moved the index to the largest `usize`.
pub open spec fn handled_in_order(
    o: TimelineEvaluator,
    f: TimelineEvaluator,
    events: Seq<Event>,
    states: Seq<TimelineEvaluator>,
) -> bool {
    &&& 1 <= states.len() <= events.len() + 1
    &&& states[0] == o
    &&& states.last() == f
    &&& forall|k: int| 0 <= k < states.len() - 1 ==> event_step(#[trigger] states[k], states[k + 1], events[k])
    &&& states.len() < events.len() + 1 ==> f.spec_index() == usize::MAX
}

impl TimelineEvaluator {
    pub closed spec fn spec_index(&self) -> usize {
        self.index
    }

    /// The address of a jump taken and not yet followed.
    pub closed spec fn spec_jump(&self) -> Option<usize> {
        self.jump
    }

    pub closed spec fn spec_segno(&self) -> usize {
        self.segno
    }

    /// For each ending, the index right after its end.
    pub closed spec fn spec_endings(&self) -> Map<usize, usize> {
        self.endings_jump.view()
    }

    /// For each index holding a jump, how many more times it is taken.
    pub closed spec fn spec_jump_table(&self) -> Map<usize, usize> {
        self.jump_table.view()
    }

    pub closed spec fn spec_target(&self) -> Option<Mark> {
        self.target_mark
    }

    pub closed spec fn spec_waited(&self) -> Option<EventKind> {
        self.waited_event
    }

    pub closed spec fn spec_pending_touch(&self) -> Option<Touch> {
        self.pending_touch
    }

    pub closed spec fn spec_abort(&self) -> bool {
        self.abort
    }

    pub closed spec fn spec_params(&self) -> PlaybackParams {
        self.params
    }

    pub closed spec fn spec_dynamic(&self) -> DynamicState {
        self.dynamic
    }

    /// The settings of the playback, as events have changed them.
    pub fn params(&self) -> (r: &PlaybackParams)
        ensures
            *r == self.spec_params(),
    {
        &self.params
    }

    /// The dynamic state of the playback.
    pub fn dynamic(&self) -> (r: &DynamicState)
        ensures
            *r == self.spec_dynamic(),
    {
        &self.dynamic
    }

    pub fn new(params: PlaybackParams) -> (r: TimelineEvaluator)
        ensures
            r.spec_index() == 0,
            r.spec_jump() is None,
            r.spec_segno() == 0,
            r.spec_endings() == Map::<usize, usize>::empty(),
            r.spec_jump_table() == Map::<usize, usize>::empty(),
            r.spec_target() is None,
            r.spec_waited() is None,
            r.spec_pending_touch() is None,
            !r.spec_abort(),
            r.spec_params() == params,
            r.spec_dynamic().current == Dynamic::MF,
            r.spec_dynamic().transition is None,
            !r.spec_dynamic().update,
    {
        TimelineEvaluator {
            params,
            index: 0,
            endings_jump: IndexMap::new(),
            jump_table: IndexMap::new(),
            segno: 0,
            jump: None,
            target_mark: None,
            waited_event: None,
            abort: false,
            pending_touch: None,
            dynamic: DynamicState::default(),
        }
    }

    pub fn index(&self) -> (r: usize)
        ensures
            r == self.spec_index(),
    {
        self.index
    }

    /// Follows the jump taken, if any.
    pub fn jump(&mut self) -> (r: bool)
        ensures
            r == old(self).spec_jump() is Some,
            final(self).spec_index() == match old(self).spec_jump() {
                Some(address) => address,
                None => old(self).spec_index(),
            },
            final(self).spec_jump() is None,
            final(self).spec_segno() == old(self).spec_segno(),
            final(self).spec_endings() == old(self).spec_endings(),
            final(self).spec_jump_table() == old(self).spec_jump_table(),
            final(self).spec_target() == old(self).spec_target(),
            final(self).spec_waited() == old(self).spec_waited(),
            final(self).spec_pending_touch() == old(self).spec_pending_touch(),
            final(self).spec_abort() == old(self).spec_abort(),
            final(self).spec_params() == old(self).spec_params(),
            final(self).spec_dynamic() == old(self).spec_dynamic(),
    {
        match self.jump.take() {
            Some(pointer) => {
                self.index = pointer;
                true
            },
            None => false,
        }
    }

    /// Whether playback waits for an event (the coda after a to-coda mark).
    pub fn is_waiting(&self) -> (r: bool)
        ensures
            r == self.spec_waited() is Some,
    {
        self.waited_event.is_some()
    }

    /// Whether playback has reached its end.
    pub fn done(&self) -> (r: bool)
        ensures
            r == self.spec_abort(),
    {
        self.abort
    }

    /// Moves to the next note.
    pub fn step(&mut self)
        requires
            old(self).spec_index() < usize::MAX,
        ensures
            final(self).spec_index() == old(self).spec_index() + 1,
            final(self).spec_jump() == old(self).spec_jump(),
            final(self).spec_segno() == old(self).spec_segno(),
            final(self).spec_endings() == old(self).spec_endings(),
            final(self).spec_jump_table() == old(self).spec_jump_table(),
            final(self).spec_target() == old(self).spec_target(),
            final(self).spec_waited() == old(self).spec_waited(),
            final(self).spec_pending_touch() == old(self).spec_pending_touch(),
            final(self).spec_abort() == old(self).spec_abort(),
            final(self).spec_params() == old(self).spec_params(),
            final(self).spec_dynamic() == old(self).spec_dynamic(),
    {
        self.index = self.index + 1;
    }

    /// The touch to play with the next note, taken once.
    pub fn take_pedning_touch(&mut self) -> (r: Option<Touch>)
        ensures
            r == old(self).spec_pending_touch(),
            final(self).spec_pending_touch() is None,
            final(self).spec_params() == old(self).spec_params(),
            final(self).spec_dynamic() == old(self).spec_dynamic(),
            final(self).spec_index() == old(self).spec_index(),
            final(self).spec_jump() == old(self).spec_jump(),
            final(self).spec_segno() == old(self).spec_segno(),
            final(self).spec_endings() == old(self).spec_endings(),
            final(self).spec_jump_table() == old(self).spec_jump_table(),
            final(self).spec_target() == old(self).spec_target(),
            final(self).spec_waited() == old(self).spec_waited(),
            final(self).spec_abort() == old(self).spec_abort(),
    {
        self.pending_touch.take()
    }

    /// The transition that has reached its end, taken once it has.
    pub fn poll_dynamic_update(&mut self) -> (r: Option<DynamicTransition>)
        ensures
            r == if old(self).spec_dynamic().update {
                old(self).spec_dynamic().transition
            } else {
                None
            },
            final(self).spec_dynamic().transition == if old(self).spec_dynamic().update {
                None
            } else {
                old(self).spec_dynamic().transition
            },
            final(self).spec_dynamic().current == old(self).spec_dynamic().current,
            final(self).spec_dynamic().update == old(self).spec_dynamic().update,
            final(self).spec_params() == old(self).spec_params(),
            final(self).spec_index() == old(self).spec_index(),
            final(self).spec_jump() == old(self).spec_jump(),
            final(self).spec_segno() == old(self).spec_segno(),
            final(self).spec_endings() == old(self).spec_endings(),
            final(self).spec_jump_table() == old(self).spec_jump_table(),
            final(self).spec_target() == old(self).spec_target(),
            final(self).spec_waited() == old(self).spec_waited(),
            final(self).spec_pending_touch() == old(self).spec_pending_touch(),
            final(self).spec_abort() == old(self).spec_abort(),
    {
        if self.dynamic.update {
            self.dynamic.transition.take()
        } else {
            None
        }
    }

    /// Handles the events of the current note, in order: the states it goes
    /// through are each the step of an event from the one before. It stops
    /// early only where an event has moved the index to the largest `usize`.
    pub fn handle_events(&mut self, timeline: &NoteTimeline)
        requires
            old(self).spec_index() < usize::MAX,
        ensures
            exists|states: Seq<TimelineEvaluator>|
                #[trigger] handled_in_order(
                    *old(self),
                    *final(self),
                    events_at(timeline.spec_events(), old(self).spec_index()),
                    states,
                ),
    {
        let events = timeline.get_events(self.index);
        let ghost mut states: Seq<TimelineEvaluator> = seq![*self];
        let n = events.len();
        let mut k: usize = 0;
        while k < n
            invariant
                n == events@.len(),
                events@ == events_at(timeline.spec_events(), old(self).spec_index()),
                k <= n,
                states.len() == k + 1,
                states[0] == *old(self),
                states.last() == *self,
                forall|j: int| 0 <= j < states.len() - 1 ==> event_step(#[trigger] states[j], states[j + 1], events@[j]),
            decreases n - k,
        {
            if self.index == usize::MAX {
                assert(handled_in_order(*old(self), *self, events@, states));
                return;
            }
            self.handle_event(&events[k]);
            proof {
                let prev = states;
                states = states.push(*self);
                assert forall|j: int| 0 <= j < states.len() - 1 implies event_step(
                    #[trigger] states[j],
                    states[j + 1],
                    events@[j],
                ) by {
                    if j < prev.len() - 1 {
                        assert(states[j] == prev[j] && states[j + 1] == prev[j + 1]);
                    }
                }
            }
            k = k + 1;
        }
        assert(handled_in_order(*old(self), *self, events@, states));
    }

    /// Handles one event: it ends a wait for it, then a key changes the
    /// key, a touch is kept for the next note, a mark, a jump or a dynamic
    /// marking is handled as such, an ending's start goes to the index after
    /// its end when that is known, and an ending's end records that index.
    pub fn handle_event(&mut self, event: &Event)
        requires
            old(self).spec_index() < usize::MAX,
        ensures
            event_step(*old(self), *final(self), *event),
    {
        if let Some(waited) = self.waited_event {
            if waited == event.kind {
                self.waited_event = None;
            }
        }
        match event.kind {
            EventKind::Key(key) => self.params.key = key,
            EventKind::Touch(touch) => self.pending_touch = Some(touch),
            EventKind::Mark(mark) => self.handle_mark_event(mark),
            EventKind::Jump(jump) => self.handle_jump_event(jump),
            EventKind::Dynamic(dynamic) => self.handle_dynamic_event(dynamic),
            EventKind::EndingStart(id) => {
                if let Some(address) = self.endings_jump.get(id as usize) {
                    self.index = address;
                }
            },
            EventKind::EndingEnd(id) => {
                self.endings_jump.insert(id as usize, self.index + 1);
            },
            _ => {},
        }
    }

    fn handle_mark_event(&mut self, mark: Mark)
        ensures
            final(self).spec_segno() == if mark == Mark::Segno {
                old(self).spec_index()
            } else {
                old(self).spec_segno()
            },
            final(self).spec_abort() == (old(self).spec_abort() || (mark == Mark::Fine
                && old(self).spec_target() == Some(Mark::Fine))),
            final(self).spec_waited() == if mark == Mark::ToCoda && old(self).spec_target() == Some(
                Mark::ToCoda,
            ) {
                Some(EventKind::Mark(Mark::Coda))
            } else {
                old(self).spec_waited()
            },
            final(self).spec_index() == old(self).spec_index(),
            final(self).spec_jump() == old(self).spec_jump(),
            final(self).spec_endings() == old(self).spec_endings(),
            final(self).spec_jump_table() == old(self).spec_jump_table(),
            final(self).spec_target() == old(self).spec_target(),
            final(self).spec_pending_touch() == old(self).spec_pending_touch(),
            final(self).spec_params() == old(self).spec_params(),
            final(self).spec_dynamic() == old(self).spec_dynamic(),
    {
        match mark {
            Mark::Segno => self.segno = self.index,
            Mark::Fine => {
                if self.target_mark == Some(Mark::Fine) {
                    self.abort = true;
                }
            },
            Mark::ToCoda => {
                if self.target_mark == Some(Mark::ToCoda) {
                    self.waited_event = Some(EventKind::Mark(Mark::Coda));
                }
            },
            _ => {},
        }
    }

    fn handle_jump_event(&mut self, jump: JumpEvent)
        ensures
            ({
                let o = *old(self);
                let f = *final(self);
                let entry = if o.spec_jump_table().dom().contains(o.spec_index()) {
                    o.spec_jump_table()[o.spec_index()]
                } else {
                    jump.repeat as usize
                };
                &&& if entry > 0 {
                    &&& f.spec_jump() == Some(spec_jump_address(jump.kind, o.spec_segno()))
                    &&& f.spec_target() == spec_jump_target(jump.kind)
                    &&& f.spec_jump_table() == o.spec_jump_table().insert(o.spec_index(), (entry - 1) as usize)
                } else {
                    &&& f.spec_jump() == o.spec_jump()
                    &&& f.spec_target() == o.spec_target()
                    &&& f.spec_jump_table() == o.spec_jump_table().insert(o.spec_index(), entry)
                }
                &&& f.spec_index() == o.spec_index()
                &&& f.spec_segno() == o.spec_segno()
                &&& f.spec_endings() == o.spec_endings()
                &&& f.spec_waited() == o.spec_waited()
                &&& f.spec_pending_touch() == o.spec_pending_touch()
                &&& f.spec_abort() == o.spec_abort()
                &&& f.spec_params() == o.spec_params()
                &&& f.spec_dynamic() == o.spec_dynamic()
            }),
    {
        let entry = match self.jump_table.get(self.index) {
            Some(count) => count,
            None => jump.repeat as usize,
        };
        if entry > 0 {
            let address = match jump.kind {
                Jump::DS | Jump::DSC | Jump::DSF => self.segno,
                _ => 0,
            };
            self.jump = Some(address);
            self.target_mark = jump_target(jump.kind);
            self.jump_table.insert(self.index, entry - 1);
        } else {
            self.jump_table.insert(self.index, entry);
        }
    }

    fn handle_dynamic_event(&mut self, dynamic: Dynamic)
        ensures
            (final(self).spec_dynamic().current, final(self).spec_dynamic().transition, final(self).spec_dynamic().update)
                == spec_dynamic_step(
                old(self).spec_dynamic().current,
                old(self).spec_dynamic().transition,
                old(self).spec_dynamic().update,
                dynamic,
            ),
            final(self).spec_index() == old(self).spec_index(),
            final(self).spec_jump() == old(self).spec_jump(),
            final(self).spec_segno() == old(self).spec_segno(),
            final(self).spec_endings() == old(self).spec_endings(),
            final(self).spec_jump_table() == old(self).spec_jump_table(),
            final(self).spec_target() == old(self).spec_target(),
            final(self).spec_waited() == old(self).spec_waited(),
            final(self).spec_pending_touch() == old(self).spec_pending_touch(),
            final(self).spec_abort() == old(self).spec_abort(),
            final(self).spec_params() == old(self).spec_params(),
    {
        if (dynamic == Dynamic::Cre || dynamic == Dynamic::Dec) && self.dynamic.transition.is_some() {
            self.dynamic.update = true;
        } else if dynamic == Dynamic::Cre {
            self.dynamic.transition = Some(
                DynamicTransition { level: self.dynamic.current, kind: DynamicTransitionKind::Cre },
            );
        } else if dynamic == Dynamic::Dec {
            self.dynamic.transition = Some(
                DynamicTransition { level: self.dynamic.current, kind: DynamicTransitionKind::Dec },
            );
        } else {
            self.dynamic.current = dynamic;
        }
    }
}

/// The mark a jump looks for after it is taken: the to-coda mark for the
/// "al Coda" jumps (D.S. and D.C. al Coda), the fine mark for the "al Fine"
/// jumps, none for a plain D.S. or D.C.
pub proof fn lemma_jump_target_by_kind(kind: Jump)
    ensures
        (kind == Jump::DSC || kind == Jump::DCC) ==> spec_jump_target(kind) == Some(Mark::ToCoda),
        (kind == Jump::DSF || kind == Jump::DCF) ==> spec_jump_target(kind) == Some(Mark::Fine),
        (kind == Jump::DS || kind == Jump::DC) ==> spec_jump_target(kind) == None::<Mark>,
{
}

/// Where a jump goes back to: the segno for the dal segno jumps (D.S., D.S.
/// al Coda, D.S. al Fine), the first note for the da capo ones.
pub proof fn lemma_jump_address_by_kind(kind: Jump, segno: usize)
    ensures
        (kind == Jump::DS || kind == Jump::DSC || kind == Jump::DSF) ==> spec_jump_address(kind, segno) == segno,
        (kind == Jump::DC || kind == Jump::DCC || kind == Jump::DCF) ==> spec_jump_address(kind, segno) == 0,
{
}

/// A crescendo or decrescendo marking starts a transition from the current
/// level, or, during one, marks its end; any other marking sets the level
/// and leaves the transition as it was.
pub proof fn lemma_dynamic_step_cases(
    current: Dynamic,
    transition: Option<DynamicTransition>,
    update: bool,
    d: Dynamic,
)
    ensures
        ({
            let (c2, t2, u2) = spec_dynamic_step(current, transition, update, d);
            &&& (d == Dynamic::Cre || d == Dynamic::Dec) ==> c2 == current
            &&& (d == Dynamic::Cre || d == Dynamic::Dec) && transition is Some ==> t2 == transition && u2
            &&& d == Dynamic::Cre && transition is None ==> t2 == Some(
                (DynamicTransition { level: current, kind: DynamicTransitionKind::Cre }),
            ) && u2 == update
            &&& d == Dynamic::Dec && transition is None ==> t2 == Some(
                (DynamicTransition { level: current, kind: DynamicTransitionKind::Dec }),
            ) && u2 == update
            &&& !(d == Dynamic::Cre || d == Dynamic::Dec) ==> c2 == d && t2 == transition && u2 == update
        }),
{
}

/// The end of an ending records where it was left: when playback comes back
/// to the start of that ending (with the endings unchanged in between), it
/// skips to the note after the ending's end.
pub proof fn lemma_ending_skipped_on_return(
    o: TimelineEvaluator,
    m: TimelineEvaluator,
    p: TimelineEvaluator,
    f: TimelineEvaluator,
    id: u8,
)
    requires
        o.spec_index() < usize::MAX,
        event_step(o, m, Event { kind: EventKind::EndingEnd(id) }),
        p.spec_endings() == m.spec_endings(),
        event_step(p, f, Event { kind: EventKind::EndingStart(id) }),
    ensures
        f.spec_index() == o.spec_index() + 1,
{
}

/// A dal segno jump taken after a segno mark goes back to the note where
/// the mark was (the segno unchanged in between); a da capo jump goes back
/// to the first note.
pub proof fn lemma_segno_jump_returns(
    o: TimelineEvaluator,
    m: TimelineEvaluator,
    p: TimelineEvaluator,
    f: TimelineEvaluator,
    jump: JumpEvent,
)
    requires
        event_step(o, m, Event { kind: EventKind::Mark(Mark::Segno) }),
        p.spec_segno() == m.spec_segno(),
        event_step(p, f, Event { kind: EventKind::Jump(jump) }),
        (if p.spec_jump_table().dom().contains(p.spec_index()) {
            p.spec_jump_table()[p.spec_index()]
        } else {
            jump.repeat as usize
        }) > 0,
    ensures
        (jump.kind == Jump::DS || jump.kind == Jump::DSC || jump.kind == Jump::DSF) ==> f.spec_jump() == Some(
            o.spec_index(),
        ),
        (jump.kind == Jump::DC || jump.kind == Jump::DCC || jump.kind == Jump::DCF) ==> f.spec_jump() == Some(0usize),
{
}

/// A jump with `repeat` set is taken the first time it is reached at an
/// index, and the times left there go down by one; a jump with no times
/// left is not taken.
pub proof fn lemma_jump_count(o: TimelineEvaluator, f: TimelineEvaluator, jump: JumpEvent)
    requires
        event_step(o, f, Event { kind: EventKind::Jump(jump) }),
    ensures
        !o.spec_jump_table().dom().contains(o.spec_index()) && jump.repeat > 0 ==> {
            &&& f.spec_jump() is Some
            &&& f.spec_jump_table()[o.spec_index()] == jump.repeat - 1
        },
        o.spec_jump_table().dom().contains(o.spec_index()) && o.spec_jump_table()[o.spec_index()] == 0 ==> {
            &&& f.spec_jump() == o.spec_jump()
            &&& f.spec_target() == o.spec_target()
        },
{
}

/// After a jump is taken, the mark it names decides what playback does
/// there: for a D.S. or D.C. al Coda, a to-coda mark makes playback wait for
/// the coda, and a fine mark does not end it; for a D.S. or D.C. al Fine, a
/// fine mark ends playback; a plain D.S. or D.C. looks for neither.
pub proof fn lemma_taken_jump_then_mark(
    o: TimelineEvaluator,
    m: TimelineEvaluator,
    f: TimelineEvaluator,
    jump: JumpEvent,
    mark: Mark,
)
    requires
        event_step(o, m, Event { kind: EventKind::Jump(jump) }),
        (if o.spec_jump_table().dom().contains(o.spec_index()) {
            o.spec_jump_table()[o.spec_index()]
        } else {
            jump.repeat as usize
        }) > 0,
        event_step(m, f, Event { kind: EventKind::Mark(mark) }),
    ensures
        (jump.kind == Jump::DSC || jump.kind == Jump::DCC) && mark == Mark::ToCoda ==> f.spec_waited() == Some(
            EventKind::Mark(Mark::Coda),
        ),
        (jump.kind == Jump::DSC || jump.kind == Jump::DCC) && mark == Mark::Fine ==> f.spec_abort() == o.spec_abort(),
        (jump.kind == Jump::DSF || jump.kind == Jump::DCF) && mark == Mark::Fine ==> f.spec_abort(),
        (jump.kind == Jump::DS || jump.kind == Jump::DC) && mark == Mark::Fine ==> f.spec_abort() == o.spec_abort(),
{
}

/// A jump recorded as taken no more times at an index is not taken again
/// there: the evaluator stays where it is.
pub proof fn lemma_exhausted_jump_not_taken(
    table: Map<usize, usize>,
    index: usize,
    repeat: u8,
)
    requires
        table.dom().contains(index),
        table[index] == 0,
    ensures
        !((if table.dom().contains(index) {
            table[index]
        } else {
            repeat as usize
        }) > 0),
{
}

} // verus!
