use voxalfa_validator::ast::lyrics::{LyricChunkKind, LyricOperatorKind, LyricStringKind, LyricToken};
use voxalfa_validator::ast::parser::{Parser, ParserOutput};
use voxalfa_validator::ast::solfa::{BaseNote, NoteVariation, PulseAccent, PulseTokenKind};
use voxalfa_validator::ast::symbols::DelimiterKind;
use voxalfa_validator::data_types::{TimeSignature, Voice};

fn parse(source: &str) -> ParserOutput {
    Parser::new(source).parse()
}

fn codes(output: ParserOutput) -> Vec<&'static str> {
    output
        .reporter
        .into_diagnostics_vec()
        .iter()
        .map(|d| d.kind.get_code())
        .collect()
}

#[test]
fn header_fields_are_read() {
    let output = parse("[#] title=\"Hymn\" | verses={2}\n[$] time={3,4} | voices={S,T}\n---\n");
    let header = &output.header;
    assert_eq!(header.metadata.title.as_ref().map(|f| f.value.clone()), Some("Hymn".to_string()));
    assert_eq!(header.metadata.verses.as_ref().map(|f| f.value), Some(2));
    assert_eq!(header.params.time.as_ref().map(|f| f.value), Some(TimeSignature { top: 3, bottom: 4 }));
    let voices: Vec<Voice> = header.params.voices.as_ref().unwrap().value.iter().map(|v| v.value).collect();
    assert_eq!(voices, vec![Voice::S, Voice::T]);
    assert!(codes(output).is_empty());
}

#[test]
fn notes_read_with_variation_and_octave() {
    let output = parse("---\n[S] |fi :ta !d+1 :s-1 ||\n");
    let line = &output.body.sections[0].items[0].solfa[0];
    assert_eq!(line.voice.value, Voice::S);
    let accents: Vec<PulseAccent> = line.pulses.iter().map(|p| p.accent.value).collect();
    assert_eq!(accents, vec![PulseAccent::Strong, PulseAccent::Weak, PulseAccent::Medium, PulseAccent::Weak]);
    let notes: Vec<(BaseNote, NoteVariation, i8)> = line
        .pulses
        .iter()
        .map(|p| match p.tokens[0].value {
            PulseTokenKind::Note(n) => (n.base, n.variation, n.octave),
            _ => panic!("expected a note"),
        })
        .collect();
    assert_eq!(
        notes,
        vec![
            (BaseNote::F, NoteVariation::Raised, 0),
            (BaseNote::T, NoteVariation::Lowered, 0),
            (BaseNote::D, NoteVariation::Base, 1),
            (BaseNote::S, NoteVariation::Base, -1),
        ]
    );
}

#[test]
fn pulse_tokens_are_read_in_order() {
    let output = parse("---\n[A] |`d.r, - ||\n");
    let pulse = &output.body.sections[0].items[0].solfa[0].pulses[0];
    let kinds: Vec<&str> = pulse
        .tokens
        .iter()
        .map(|t| match t.value {
            PulseTokenKind::UnderlineMarker => "underline",
            PulseTokenKind::Note(_) => "note",
            PulseTokenKind::HalfDivision => "half",
            PulseTokenKind::QuarterDivision => "quarter",
            PulseTokenKind::ProlongedNote => "prolonged",
        })
        .collect();
    assert_eq!(kinds, vec!["underline", "note", "half", "note", "quarter", "prolonged"]);
}

#[test]
fn unknown_characters_in_a_pulse_are_syntax_errors() {
    let output = parse("---\n[S] |d x :r ||\n");
    assert_eq!(codes(output), vec!["E001"]);
}

#[test]
fn a_line_of_unknown_shape_is_a_syntax_error() {
    let output = parse("hello\n---\n");
    assert_eq!(codes(output), vec!["E001"]);
}

#[test]
fn lyric_lines_read_columns_operators_and_anchor() {
    let output = parse("---\n[S] |d :r ||\n[1] do-re\\ @@\n");
    let line = &output.body.sections[0].items[0].lyrics[0];
    assert_eq!(line.verse, 1);
    assert!(line.anchor.is_some());
    let shape: Vec<String> = line
        .tokens
        .iter()
        .map(|t| match t {
            LyricToken::Column(c) => format!("column:{}", c.chunks.len()),
            LyricToken::Operator(op) => match op.value {
                LyricOperatorKind::Space => "space".to_string(),
                LyricOperatorKind::Concat => "concat".to_string(),
                LyricOperatorKind::Newline => "newline".to_string(),
            },
        })
        .collect();
    assert_eq!(shape, vec!["column:1", "concat", "column:1", "newline"]);
    assert!(codes(output).is_empty());
}

#[test]
fn an_anchor_after_a_column_is_a_syntax_error() {
    let output = parse("---\n[S] |d :r ||\n[1] do re @@\n");
    assert_eq!(codes(output), vec!["E001"]);
}

#[test]
fn lyric_strings_split_into_text_elisions_and_markers() {
    let output = parse("---\n[S] |d :r ||\n[1] `do_re`\n");
    let line = &output.body.sections[0].items[0].lyrics[0];
    let column = match &line.tokens[0] {
        LyricToken::Column(c) => c,
        LyricToken::Operator(_) => panic!("expected a column"),
    };
    let pieces: Vec<String> = match &column.chunks[0].value {
        LyricChunkKind::String(strings) => strings
            .iter()
            .map(|s| match s.value {
                LyricStringKind::UnderlineMarker => "`".to_string(),
                LyricStringKind::SpecialChar(_) => "_".to_string(),
                LyricStringKind::Reference(id) => output.tree.get_lyric_chunk(id).to_string(),
            })
            .collect(),
        _ => panic!("expected a string"),
    };
    assert_eq!(pieces, vec!["`", "do", "_", "re", "`"]);
}

#[test]
fn lyric_groups_hold_spaces_and_placeholders() {
    let output = parse("---\n[S] |d :r ||\n[1] (do re) ~\n");
    let line = &output.body.sections[0].items[0].lyrics[0];
    let chunk_kinds: Vec<Vec<&str>> = line
        .tokens
        .iter()
        .filter_map(|t| match t {
            LyricToken::Column(c) => Some(
                c.chunks
                    .iter()
                    .map(|ch| match ch.value {
                        LyricChunkKind::Space => "space",
                        LyricChunkKind::Newline => "newline",
                        LyricChunkKind::Placeholder => "placeholder",
                        LyricChunkKind::String(_) => "string",
                    })
                    .collect(),
            ),
            LyricToken::Operator(_) => None,
        })
        .collect();
    assert_eq!(chunk_kinds, vec![vec!["string", "space", "string"], vec!["placeholder"]]);
}

#[test]
fn delimiters_split_sections_and_sub_sections() {
    let output = parse("---\n[S] |d ||\n++\n[S] |r ||\n--\n[S] |m ||\n<<\n[S] |f ||\n");
    let sections = &output.body.sections;
    assert_eq!(sections.len(), 3);
    assert_eq!(sections[0].items.len(), 2);
    assert!(!sections[1].merge);
    assert!(sections[2].merge);
    let kinds: Vec<DelimiterKind> = output.delimiters.iter().map(|d| d.kind).collect();
    assert_eq!(
        kinds,
        vec![DelimiterKind::Header, DelimiterKind::SubSection, DelimiterKind::SectionSplit, DelimiterKind::SectionMerge]
    );
}

#[test]
fn comments_are_recorded() {
    let output = parse(";; a comment\n---\n;; another\n[S] |d ||\n");
    let comments: Vec<String> = output.tree.get_comments().iter().map(|c| c.value.clone()).collect();
    assert_eq!(comments, vec![";; a comment".to_string(), ";; another".to_string()]);
}

#[test]
fn a_version_directive_is_read() {
    let output = parse(";; @version \"0.1.0\"\n---\n");
    let version = output.header.directives.version.as_ref().map(|v| v.value.clone());
    assert_eq!(version, Some("0.1.0".to_string()));
}

#[test]
fn an_unclosed_list_is_reported_missing() {
    let output = parse("[$] time={4,4\n---\n");
    assert_eq!(codes(output), vec!["E002"]);
}

#[test]
fn a_time_signature_needs_two_positive_numbers() {
    assert_eq!(codes(parse("[$] time={4}\n---\n")), vec!["E009"]);
    assert_eq!(codes(parse("[$] time={0,4}\n---\n")), vec!["E009"]);
}

#[test]
fn section_parameters_are_read_from_the_first_sub_section() {
    let output = parse("---\n[$] key={D} | ending={2} | jump={DS} | repeat={3}\n[S] |d ||\n");
    let params = &output.body.sections[0].params;
    assert!(params.key.is_some());
    assert_eq!(params.ending.as_ref().map(|e| e.value), Some(2));
    assert_eq!(params.repeat.as_ref().map(|e| e.value), Some(3));
    assert!(params.has_events());
}
