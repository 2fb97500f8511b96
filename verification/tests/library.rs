use voxalfa_validator::ast::parser::Parser;
use voxalfa_validator::ast::symbols::{ScopeKind, SymbolKind, SymbolTree};
use voxalfa_validator::data_types::{Key, Tempo};
use voxalfa_validator::diagnostics::reporter::DiagnosticReporter;
use voxalfa_validator::diagnostics::types::{DiagnosticKind, ReportStage};
use voxalfa_validator::math::{gcd, lcm};
use voxalfa_validator::range::{Point, Position, Range};
use voxalfa_validator::text::{decimal_string, parse_usize};

#[test]
fn gcd_and_lcm_of_small_numbers() {
    assert_eq!(gcd(12, 18), 6);
    assert_eq!(gcd(7, 0), 7);
    assert_eq!(lcm(4, 6), 12);
    assert_eq!(lcm(0, 5), 0);
}

#[test]
fn decimal_numbers_read_and_print() {
    assert_eq!(parse_usize("120"), Some(120));
    assert_eq!(parse_usize("+7"), Some(7));
    assert_eq!(parse_usize("1a"), None);
    assert_eq!(parse_usize(""), None);
    assert_eq!(decimal_string(4096), "4096");
}

#[test]
fn keys_and_tempos_read_back_what_they_print() {
    let key = Key::try_from("F#").unwrap();
    assert_eq!(key.to_string(), "F#");
    let tempo = Tempo::try_from("120").unwrap();
    assert_eq!(tempo.to_string(), "120");
    assert!(Key::try_from("H").is_err());
}

#[test]
fn codes_name_each_kind() {
    assert_eq!(DiagnosticKind::SyntaxError.get_code(), "E001");
    assert_eq!(DiagnosticKind::UnmatchedTimestamp.get_code(), "E033");
    assert!(DiagnosticKind::InvalidNoteDistribution.message().len() > 0);
}

#[test]
fn merged_reporters_keep_every_diagnostic_in_order() {
    let mut first = DiagnosticReporter::new(ReportStage::IRBuild);
    let mut second = DiagnosticReporter::new(ReportStage::Parsing);
    let range = Parser::new("x").parse().tree.get_scope_range(0);
    first.error(range, DiagnosticKind::SyntaxError);
    second.warning(range, DiagnosticKind::InvalidTimeSignature);
    second.error(range, DiagnosticKind::UnmatchedUnderline);
    let all = first.merge(second).into_diagnostics_vec();
    let codes: Vec<&str> = all.iter().map(|d| d.kind.get_code()).collect();
    assert_eq!(codes, vec!["E001", "E009", "E018"]);
    assert_eq!(all[0].stage, ReportStage::IRBuild);
    assert_eq!(all[2].stage, ReportStage::Parsing);
}

#[test]
fn the_scope_at_a_position_is_the_innermost() {
    let output = Parser::new("---\n[S] |d :r ||\n").parse();
    let tree = &output.tree;
    let position = Position::new(1, 5);
    let scope = tree.query_scope(&position);
    assert_eq!(tree.get_scope(scope).kind, ScopeKind::Pulse);
    let symbol = tree.query_symbol(&position).unwrap();
    assert!(matches!(symbol.kind, SymbolKind::Token));
    assert!(tree.get_symbol_refs(&position).is_none());
}

#[test]
fn a_solfa_line_gets_the_index_of_its_voice() {
    let output = Parser::new("---\n[S] |d ||\n[A] |r ||\n").parse();
    let tree = &output.tree;
    let lines: Vec<usize> = (0..tree.scope_count())
        .filter(|&id| tree.get_scope(id).kind == ScopeKind::SolfaLine)
        .collect();
    assert_eq!(lines.len(), 2);
    assert_eq!(tree.create_voice_id(lines[1]), 1);
}


#[test]
fn first_key_reference_stays_the_definition() {
    let at = |b: usize| Range {
        start_byte: b,
        end_byte: b + 1,
        start_point: Point { row: 0, column: b },
        end_point: Point { row: 0, column: b + 1 },
    };
    let mut t = SymbolTree::new();
    t.init_root(Range { start_byte: 0, end_byte: 10, start_point: Point { row: 0, column: 0 }, end_point: Point { row: 0, column: 10 } });
    assert_eq!(t.get_key_definition("C"), None);
    let s1 = t.add_symbol(SymbolKind::Token, at(2), 0);
    let s2 = t.add_symbol(SymbolKind::Token, at(5), 0);
    t.store_key_ref("C".to_string(), s1);
    t.store_key_ref("C".to_string(), s2);
    t.store_key_ref("C".to_string(), s2);
    assert_eq!(t.get_key_definition("C"), Some(at(2)));
    assert_eq!(t.get_key_definition("D"), None);
}
