use voxalfa_validator::data_types::TimeSignature;
use voxalfa_validator::output::systems::collect_systems;

fn ts(top: usize, bottom: usize) -> TimeSignature {
    TimeSignature { top, bottom }
}

#[test]
fn systems_break_where_time_or_voices_change() {
    let times = vec![None, None, Some(ts(3, 4)), None];
    let voices = vec![0, 0, 0, 1];
    let systems = collect_systems(&times, &voices, ts(4, 4));
    assert_eq!(systems, vec![(ts(4, 4), 0, 2), (ts(3, 4), 2, 3), (ts(3, 4), 3, 4)]);
}

#[test]
fn first_section_never_breaks() {
    let times = vec![Some(ts(3, 4)), None];
    let voices = vec![0, 0];
    let systems = collect_systems(&times, &voices, ts(4, 4));
    assert_eq!(systems, vec![(ts(4, 4), 0, 2)]);
}

#[test]
fn same_time_again_does_not_break() {
    let times = vec![None, Some(ts(4, 4))];
    let voices = vec![2, 2];
    assert_eq!(collect_systems(&times, &voices, ts(4, 4)), vec![(ts(4, 4), 0, 2)]);
    assert!(collect_systems(&[], &[], ts(4, 4)).is_empty());
}
