use voxalfa_validator::data_types::{Dynamic, Jump, Key, Mark, Touch};
use voxalfa_validator::ir::solfa::{PulseColumn, PulseColumnKind};
use voxalfa_validator::ir::utils::UnderlineMarker;
use voxalfa_validator::output::dynamics::DynamicTransitionKind;
use voxalfa_validator::output::evaluator::{PlaybackParams, TimelineEvaluator};
use voxalfa_validator::output::event::{get_note_ticks, Event, EventKind, JumpEvent, NoteTimeline, TimelineMap};
use voxalfa_validator::output::voice::{NoteContext, VoiceLine};
use voxalfa_validator::data_types::Voice;

fn evaluator() -> TimelineEvaluator {
    TimelineEvaluator::new(PlaybackParams::new(Key::try_from("C").unwrap(), 480))
}

fn jump(kind: Jump, repeat: u8) -> Event {
    Event::new(EventKind::Jump(JumpEvent { kind, repeat }))
}

#[test]
fn a_jump_is_taken_as_many_times_as_it_repeats() {
    let mut eval = evaluator();
    eval.step();
    eval.step();
    let mut taken = 0;
    for _ in 0..4 {
        eval.handle_event(&jump(Jump::DC, 2));
        if eval.jump() {
            taken += 1;
            assert_eq!(eval.index(), 0);
            eval.step();
            eval.step();
        }
    }
    assert_eq!(taken, 2);
    assert_eq!(eval.index(), 2);
}

#[test]
fn a_dal_segno_jumps_to_the_segno() {
    let mut eval = evaluator();
    eval.step();
    eval.handle_event(&Event::new(EventKind::Mark(Mark::Segno)));
    eval.step();
    eval.step();
    eval.handle_event(&jump(Jump::DS, 1));
    assert!(eval.jump());
    assert_eq!(eval.index(), 1);
}

#[test]
fn fine_ends_playback_only_after_a_jump_to_it() {
    let mut eval = evaluator();
    eval.handle_event(&Event::new(EventKind::Mark(Mark::Fine)));
    assert!(!eval.done());
    eval.handle_event(&jump(Jump::DCF, 1));
    assert!(eval.jump());
    eval.handle_event(&Event::new(EventKind::Mark(Mark::Fine)));
    assert!(eval.done());
}

#[test]
fn to_coda_waits_for_the_coda_after_a_jump_to_the_coda() {
    let mut eval = evaluator();
    eval.handle_event(&jump(Jump::DCC, 1));
    assert!(eval.jump());
    eval.handle_event(&Event::new(EventKind::Mark(Mark::ToCoda)));
    assert!(eval.is_waiting());
    eval.handle_event(&Event::new(EventKind::Mark(Mark::Coda)));
    assert!(!eval.is_waiting());
}

#[test]
fn a_second_ending_skips_the_first() {
    let mut eval = evaluator();
    eval.handle_event(&Event::new(EventKind::EndingStart(1)));
    assert_eq!(eval.index(), 0);
    for _ in 0..3 {
        eval.step();
    }
    eval.handle_event(&Event::new(EventKind::EndingEnd(1)));
    let mut second = evaluator();
    second.handle_event(&Event::new(EventKind::EndingEnd(1)));
    second.handle_event(&Event::new(EventKind::EndingStart(1)));
    assert_eq!(second.index(), 1);
}

#[test]
fn keys_touches_and_dynamics_are_tracked() {
    let mut eval = evaluator();
    eval.handle_event(&Event::new(EventKind::Key(Key::try_from("G").unwrap())));
    assert_eq!(eval.params().key, Key::try_from("G").unwrap());
    eval.handle_event(&Event::new(EventKind::Touch(Touch::Fermata)));
    assert_eq!(eval.take_pedning_touch(), Some(Touch::Fermata));
    assert_eq!(eval.take_pedning_touch(), None);
    eval.handle_event(&Event::new(EventKind::Dynamic(Dynamic::F)));
    assert_eq!(eval.dynamic().current, Dynamic::F);
    eval.handle_event(&Event::new(EventKind::Dynamic(Dynamic::Cre)));
    assert!(eval.poll_dynamic_update().is_none());
    eval.handle_event(&Event::new(EventKind::Dynamic(Dynamic::Cre)));
    let transition = eval.poll_dynamic_update().unwrap();
    assert_eq!(transition.level, Dynamic::F);
    assert_eq!(transition.kind, DynamicTransitionKind::Cre);
}

#[test]
fn events_of_a_note_are_handled_together() {
    let mut timeline = NoteTimeline::new();
    timeline.add_event(0, Event::new(EventKind::Touch(Touch::Accent)));
    timeline.add_event(1, Event::new(EventKind::Touch(Touch::Staccato)));
    assert_eq!(timeline.get_events(1).len(), 1);
    let mut eval = evaluator();
    eval.handle_events(&timeline);
    assert_eq!(eval.take_pedning_touch(), Some(Touch::Accent));
}

#[test]
fn note_ticks_divide_a_whole_note() {
    assert_eq!(get_note_ticks(1, 1), 960);
    assert_eq!(get_note_ticks(1, 4), 240);
    assert_eq!(get_note_ticks(3, 2), 1440);
}

fn column(duration: usize) -> PulseColumn {
    PulseColumn {
        duration,
        underline: UnderlineMarker { left: false, right: false },
        kind: PulseColumnKind::EmptyNote,
    }
}

#[test]
fn a_voice_line_attaches_events_at_note_starts() {
    let a = column(1);
    let b = column(1);
    let notes = vec![NoteContext { note: &a, factor: 2 }, NoteContext { note: &b, factor: 2 }];
    let entries = vec![
        (0usize, Event::new(EventKind::Touch(Touch::Accent))),
        (480usize, Event::new(EventKind::Touch(Touch::Fermata))),
        (960usize, Event::new(EventKind::Mark(Mark::Fine))),
        (100usize, Event::new(EventKind::Touch(Touch::Staccato))),
    ];
    let flat: Vec<&(usize, Event)> = entries.iter().collect();
    let line = VoiceLine::new(Voice::S, notes, flat);
    assert_eq!(line.timeline.get_events(0), vec![Event::new(EventKind::Touch(Touch::Accent))]);
    assert_eq!(line.timeline.get_events(1), vec![Event::new(EventKind::Touch(Touch::Fermata))]);
    assert_eq!(line.timeline.get_events(2), vec![Event::new(EventKind::Mark(Mark::Fine))]);
}

#[test]
fn a_timeline_map_gives_back_the_events_written_to_it() {
    let mut map = TimelineMap::default();
    assert!(map.get(3).is_none());
    map.get_mut(3).push((0, Event::new(EventKind::Touch(Touch::Staccato))));
    map.get_mut(3).push((960, Event::new(EventKind::Mark(Mark::Fine))));
    map.get_mut(5);
    let events = map.get(3).unwrap();
    assert_eq!(events.len(), 2);
    assert_eq!(events[1].0, 960);
    assert!(map.get(5).unwrap().is_empty());
    assert!(map.get(4).is_none());
}
