use voxalfa_validator::ast::solfa::BaseNote;
use voxalfa_validator::data_types::{Jump, Mark, Voice};
use voxalfa_validator::ir::solfa::PulseColumnKind;
use voxalfa_validator::output::event::{EventKind, JumpEvent};
use voxalfa_validator::ast::symbols::DelimiterKind;
use voxalfa_validator::output::FinalOutput;
use voxalfa_validator::MultiStepValidator;

fn analyze(source: &str) -> FinalOutput {
    let mut validator = MultiStepValidator::init();
    validator.analyze(source)
}

#[test]
fn durations_follow_the_divisions_of_a_pulse() {
    let output = analyze("---\n[S] |d.r :m, f ||\n");
    let line = &output.ir.sections[0].items[0].solfa[0];
    let first: Vec<usize> = line.pulses[0].columns.iter().map(|c| c.duration).collect();
    assert_eq!(first, vec![1, 1]);
    assert_eq!(line.pulses[0].factor, 2);
    let second: Vec<usize> = line.pulses[1].columns.iter().map(|c| c.duration).collect();
    assert_eq!(second, vec![1, 1]);
    assert_eq!(line.pulses[1].factor, 2);
    assert!(output.diagnostics.is_empty());
}

#[test]
fn a_prolongation_holds_the_last_note_of_an_earlier_pulse() {
    let output = analyze("---\n[S] |s :- ||\n");
    let line = &output.ir.sections[0].items[0].solfa[0];
    match line.pulses[1].columns[0].kind {
        PulseColumnKind::ProlongedNote(note) => assert_eq!(note.base, BaseNote::S),
        _ => panic!("expected a prolonged note"),
    }
}

#[test]
fn a_prolongation_looks_only_at_earlier_pulses() {
    let output = analyze("---\n[S] |d - :r ||\n");
    let codes: Vec<&str> = output.diagnostics.iter().map(|d| d.kind.get_code()).collect();
    assert_eq!(codes, vec!["E021"]);
}

#[test]
fn an_empty_pulse_holds_an_empty_column() {
    let output = analyze("---\n[S] |d : ||\n");
    let line = &output.ir.sections[0].items[0].solfa[0];
    assert!(line.pulses[1].columns[0].is_empty());
    assert_eq!(line.pulses[1].factor, 1);
}

#[test]
fn underlines_are_marked_across_pulses() {
    let output = analyze("---\n[S] |`d :r` !m ||\n");
    let line = &output.ir.sections[0].items[0].solfa[0];
    let marks: Vec<(bool, bool)> = line
        .pulses
        .iter()
        .flat_map(|p| p.columns.iter().map(|c| (c.underline.left, c.underline.right)))
        .collect();
    assert_eq!(marks, vec![(true, false), (false, true), (false, false)]);
}

#[test]
fn lyric_underlines_are_ranges_of_pieces() {
    let output = analyze("---\n[S] |d :r !m ||\n[1] `do re` mi\n");
    let line = &output.ir.sections[0].items[0].lyrics[0];
    let ranges: Vec<(usize, usize)> = line.underlines.iter().map(|u| (u.start, u.end)).collect();
    assert_eq!(ranges, vec![(0, 2)]);
    assert_eq!(line.columns.len(), 3);
}

#[test]
fn views_line_up_pulses_that_agree() {
    let output = analyze("---\n[S] |d.r :m ||\n[A] |s.l :t ||\n");
    let views = &output.ir.sections[0].items[0].views;
    assert_eq!(views.len(), 2);
    assert!(views[0].aligned);
    assert_eq!(views[0].durations, vec![1, 1]);
    assert_eq!(views[0].factor, 2);
}

#[test]
fn views_fall_back_where_pulses_differ() {
    let output = analyze("---\n[S] |d.r :m ||\n[A] |s :t ||\n");
    let views = &output.ir.sections[0].items[0].views;
    assert!(!views[0].aligned);
    assert_eq!(views[0].durations, vec![1]);
    assert_eq!(views[0].factor, 1);
    assert!(views[1].aligned);
    assert_eq!(views[0].resolve_widths(3, 2), vec![6]);
}

#[test]
fn sections_start_and_end_with_their_events() {
    let output = analyze("---\n[$] mark={S} | ending={1} | jump={DS} | repeat={2}\n[S] |d ||\n");
    let section = &output.ir.sections[0];
    let start: Vec<EventKind> = section.start_events().iter().map(|e| e.kind).collect();
    assert_eq!(start, vec![EventKind::Mark(Mark::Segno), EventKind::EndingStart(1)]);
    let end: Vec<EventKind> = section.end_events().iter().map(|e| e.kind).collect();
    assert_eq!(
        end,
        vec![EventKind::EndingEnd(1), EventKind::Jump(JumpEvent { kind: Jump::DS, repeat: 2 })]
    );
}

#[test]
fn verses_are_found_by_voice() {
    let output = analyze("---\n[S] |d ||\n[1] do\n++\n[A] |r ||\n[1] re\n");
    let section = &output.ir.sections[0];
    assert_eq!(section.get_verses(&voxalfa_validator::data_types::Voice::A).map(|v| v.len()), Some(1));
    assert!(section.get_verses(&voxalfa_validator::data_types::Voice::B).is_none());
    assert_eq!(section.items[0].width(), 1);
    assert_eq!(section.items[0].get_ticks(), 960);
}

#[test]
fn errors_of_the_layout_come_before_those_of_the_parsing() {
    let output = analyze("---\n[S] |- ||\n[1] do\\\n");
    let codes: Vec<&str> = output.diagnostics.iter().map(|d| d.kind.get_code()).collect();
    assert_eq!(codes, vec!["E021", "E020"]);
    assert!(output.has_error());
}

#[test]
fn the_column_factor_is_the_largest_pulse_factor() {
    let output = analyze("---\n[S] |d.r :m ||\n[A] |d r m :f ||\n");
    assert_eq!(output.resolve_column_factor(), 3);
}

#[test]
fn the_column_factor_of_a_score_without_pulses_is_one() {
    let output = analyze("");
    assert_eq!(output.resolve_column_factor(), 1);
}

#[test]
fn a_voice_line_gathers_the_notes_of_its_voice() {
    let output = analyze("---\n[S] |d.r :m ||\n[A] |s :l ||\n");
    let soprano = output.build_voice_line(Voice::try_from("S").unwrap());
    let durations: Vec<(usize, usize)> = soprano.notes.iter().map(|n| (n.note.duration, n.factor)).collect();
    assert_eq!(durations, vec![(1, 2), (1, 2), (1, 1)]);
    let alto = output.build_voice_line(Voice::try_from("A").unwrap());
    assert_eq!(alto.notes.len(), 2);
    let tenor = output.build_voice_line(Voice::try_from("T").unwrap());
    assert!(tenor.notes.is_empty());
}

#[test]
fn the_delimiters_are_the_separator_lines_in_order() {
    let output = analyze("---\n[S] |d ||\n++\n[S] |r ||\n--\n[S] |m ||\n<<\n[S] |f ||\n");
    let kinds: Vec<DelimiterKind> = output.delimiters.iter().map(|d| d.kind).collect();
    assert_eq!(
        kinds,
        vec![DelimiterKind::Header, DelimiterKind::SubSection, DelimiterKind::SectionSplit, DelimiterKind::SectionMerge]
    );
    assert_eq!(output.ir.sections.len(), 3);
    assert_eq!(output.ir.sections[0].items.len(), 2);
    assert!(output.ir.sections[2].merge);
}

#[test]
fn a_document_without_a_header_line_has_no_body() {
    let output = analyze("[S] |d ||\n--\n");
    assert!(output.delimiters.is_empty());
    assert!(output.ir.sections.is_empty());
}
