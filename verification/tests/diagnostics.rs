use voxalfa_validator::diagnostics::types::{Diagnostic, DiagnosticKind, DiagnosticLevel};
use voxalfa_validator::MultiStepValidator;

fn diagnostics_of(source: &str) -> Vec<Diagnostic> {
    let mut validator = MultiStepValidator::init();
    validator.process(source).diagnostics
}

fn codes_of(source: &str) -> Vec<&'static str> {
    diagnostics_of(source).iter().map(|d| d.kind.get_code()).collect()
}

fn level_of(source: &str, code: &str) -> Option<DiagnosticLevel> {
    diagnostics_of(source)
        .iter()
        .find(|d| d.kind.get_code() == code)
        .map(|d| d.level)
}

#[test]
fn test_syntax_error() {
    let source = r#"
[#] title="foo"
[#] author "bar"

---
"#;

    assert_eq!(codes_of(source), vec!["E001"]);
}

#[test]
fn test_missing_error() {
    let source = r#"
[#] title="foo 

---
"#;

    assert_eq!(codes_of(source), vec!["E002"]);
}

#[test]
fn test_key_reassignment_error() {
    let source = r#"
[#] title="foo"
[#] title="bar"

---
"#;

    assert_eq!(codes_of(source), vec!["E004"]);
    assert_eq!(level_of(source, "E004"), Some(DiagnosticLevel::Warning));
}

#[test]
fn test_unknown_metadata_error() {
    let source = r#"
[#] invalid="foo"

---
"#;

    assert_eq!(codes_of(source), vec!["E005"]);
}

#[test]
fn test_unknown_parameter_error() {
    let source = r#"
[$] invalid="foo"

---
"#;

    assert_eq!(codes_of(source), vec!["E006"]);
}

#[test]
fn test_type_exception_error() {
    let source = r#"
[#] title={1}

---
"#;

    assert_eq!(codes_of(source), vec!["E007"]);
}

#[test]
fn test_invalid_type_error() {
    let source = r#"
[$] key={Z}

---
"#;

    assert_eq!(codes_of(source), vec!["E008"]);
}

#[test]
fn test_invalid_time_singature_error() {
    let source = r#"
[$] time={3,3,3}

---
"#;

    assert_eq!(codes_of(source), vec!["E009"]);
}

#[test]
fn test_invalid_voice_error() {
    let source = r#"
[$] time={4,4} | voices={A}
---

[E] |d :r !m :f ||

"#;

    assert_eq!(codes_of(source), vec!["E012"]);
}

#[test]
fn test_invalid_note_distribution_error() {
    let source = r#"
[$] time={4,4} | voices={S}
---

[S] |d.d.r :r !m :f ||

"#;

    assert_eq!(codes_of(source), vec!["E015"]);
}

#[test]
fn test_unmatched_underline_error() {
    let source = r#"
[$] time={4,4} | voices={S}
---

[S] |`d :r !m :f |s :l !t :d+1 ||

"#;

    assert_eq!(codes_of(source), vec!["E018"]);
}

#[test]
fn test_mismatched_verse_warning() {
    let source = r#"
[#] verses={1}

[$] time={4,4} | voices={S}
---

[S] |d :r !m :f ||
[2] do re mi fa

"#;

    assert_eq!(codes_of(source), vec!["E019"]);
    assert_eq!(level_of(source, "E019"), Some(DiagnosticLevel::Warning));
}

#[test]
fn test_missing_lyrics_anchor_error() {
    let source = r#"
[#] verses={1}

[$] time={4,4} | voices={S}
---

[S] |d :r !m :f ||
[1] do re mi fa\

--

[S] |d :r !m :f ||
[1] do re mi fa

"#;

    assert_eq!(codes_of(source), vec!["E020"]);
}

#[test]
fn test_invalid_prolongation_error() {
    let source = r#"
[$] time={4,4} | voices={S}
---

[S] |- :r !m :f ||
"#;

    assert_eq!(codes_of(source), vec!["E021"]);
}

#[test]
fn test_non_top_level_override_error() {
    let source = r#"
[$] time={4,4} | voices={S,T}
---

[S] |d :r !m :f ||

++

[$] key={C}

[T] |d :r !m :f ||
"#;

    assert_eq!(codes_of(source), vec!["E029"]);
}

#[test]
fn test_timestamp_range_exception_error() {
    let source = r#"
[$] time={4,4} | voices={A}
---

[$] dynamics={cre:1}

[A] |d :r !m :f ||

"#;

    assert_eq!(codes_of(source), vec!["E010"]);
}

#[test]
fn test_range_not_allowed_error() {
    let source = r#"
[$] time={4,4} | voices={A}
---

[$] dynamics={f:0..3}

[A] |d :r !m :f ||

"#;

    assert_eq!(codes_of(source), vec!["E011"]);
}

#[test]
fn a_well_formed_document_reads_without_diagnostics() {
    let source = r#"
[#] title="Hymn" | verses={1}
[$] time={4,4} | voices={S,A} | key={G}
---

[$] dynamics={cre:0..2, f:3}

[S] |d :r !m :f |s :l !t :d+1 ||
[A] |d :r !m :f |s :l !t :d+1 ||
[1] do re mi fa so la ti do
"#;

    assert!(codes_of(source).is_empty());
}

#[test]
fn test_unknown_directive_error() {
    let source = r#"
;; @invalid foo 
[$] time={4,4} | voices={S}
---
[S] |d :r !m :f ||
"#;

    let mut validator = MultiStepValidator::init();
    let output = validator.process(source);
    assert!(output.header.directives.version.is_none());
    assert_eq!(codes_of(source), Vec::<&str>::new());
}

#[test]
fn test_mismatched_verse_names_both_numbers() {
    let source = "[#] verses={1}\n[$] time={4,4} | voices={S}\n---\n[S] |d :r !m :f ||\n[2] do re mi fa\n";
    let diags = diagnostics_of(source);
    assert_eq!(diags.len(), 1);
    match &diags[0].kind {
        DiagnosticKind::MismatchedVerseIndex(expected, written) => {
            assert_eq!(*expected, 1);
            assert_eq!(*written, 2);
        }
        _ => panic!("expected a mismatched verse warning"),
    }
    assert_eq!(diags[0].level, DiagnosticLevel::Warning);
    let verse_at = source.find("[2]").unwrap() + 1;
    assert_eq!(diags[0].range.start_byte, verse_at);
    assert_eq!(diags[0].range.end_byte, verse_at + 1);
}
