use vstd::prelude::*;

use crate::ast::body::{Body, Section, SectionMetadata, SubSection};
use crate::ast::solfa::{BaseNote, Note, NoteVariation, Pulse, PulseAccent, PulseToken, PulseTokenKind, SolfaLine};
use crate::ir::builder::{pulse_ids_valid, solfa_ids_valid};
use crate::ir::scan::{lemma_line_size_push, line_size};
use crate::ast::lyrics::{
    LyricChunk, LyricChunkKind, LyricColumn, LyricLine, LyricOperator, LyricOperatorKind,
    LyricSpecialChar, LyricString, LyricStringKind, LyricToken,
};
use crate::ir::lyric_scan::{
    chunk_strings_below, column_scan, column_strings_below, lemma_column_scan_push,
    lemma_line_marks_below_strings, lemma_line_scan_push, lemma_string_scan_len, line_strings_below,
    lyric_ids_valid, lyric_line_scan, lyric_line_width, string_scan, token_strings_below,
};
use crate::ast::directives::DirectiveMap;
use crate::ast::header::{Header, HeaderMetadata};
use crate::ast::lines::{
    delimiters_from, has_content_from, header_line_from, lemma_delimiters_cut, lemma_delimiters_split,
    lemma_line_at_bounds, lemma_no_content_no_delimiters, lemma_reaches_step, lemma_reaches_trans, line_at,
    line_delimiter, reaches, section_shapes, sub_section_count,
};
use crate::ast::lexing::{find_spec, is_blank, is_digit_char, skip_blanks_spec, trim_end_spec, word_end_spec};
use crate::ast::params::{InitialParams, SectionParams, SubSectionParams};
use crate::ast::source::{span, SourceText};
use crate::ast::symbols::{
    Delimiter, DelimiterKind, Field, Primitive, Scope, ScopeId, Symbol, ScopeKind, SymbolKind, SymbolRef, SymbolTree, tree_extends, lemma_tree_extends_trans,
    Value,
};
use crate::ast::values::{
    item_node, item_shape, node_kind_name, node_ok, node_scalar, shape, shape_scalar, spec_item, spec_lex_number,
    spec_list_from, prepend_items, spec_decimal, decimal_places, decimal_digits, pow10, lemma_pow10_monotone, spec_node_scalar, spec_node_text, spec_scalar, spec_value_shape, unclosed_string, Item,
    NodeShape, Scalar, ScalarKind, ValueNode, shape_kind_str,
};
use crate::data_types::{
    Decimal, Dynamic, ExtendedTempo, Jump, Key, List, Mark, Tempo, TimeSignature, TimedList, TimedValue, Voice,
};
use crate::diagnostics::reporter::DiagnosticReporter;
use crate::diagnostics::types::{Diagnostic, DiagnosticKind, DiagnosticLevel, ReportStage};
use crate::ir::builder::{
    body_ok, lemma_section_ok_grows, lemma_sub_section_ok_grows, section_ok, sub_section_ok, tree_grows,
};
use crate::range::Range;
use crate::text::{parse_usize, spec_parse_usize, str_eq};

verus! {

/// What a line of a document is, from its first characters.
#[derive(Debug, Clone, Copy, PartialEq, Eq, Structural)]
pub enum LineKind {
    Blank,
    Comment,
    HeaderDelimiter,
    SectionSplit,
    SectionMerge,
    SubSectionDelimiter,
    /// `[#]`, with the index where its assignments start.
    Metadata(usize),
    /// `[$]`, with the index where its assignments start.
    Parameters(usize),
    /// `[voice]`, with the label's start and end.
    Solfa(usize, usize),
    /// `[verse]`, with the label's start and end.
    Lyric(usize, usize),
    Unknown,
}

/// The kind of the line whose text, trimmed, is `a..b`.
pub open spec fn line_kind(s: Seq<char>, a: int, b: int) -> LineKind {
    let t = s.subrange(a, b);
    if a >= b {
        LineKind::Blank
    } else if t.len() >= 2 && t[0] == ';' && t[1] == ';' {
        LineKind::Comment
    } else if t == "---"@ {
        LineKind::HeaderDelimiter
    } else if t == "--"@ {
        LineKind::SectionSplit
    } else if t == "<<"@ {
        LineKind::SectionMerge
    } else if t == "++"@ {
        LineKind::SubSectionDelimiter
    } else if s[a] == '[' && find_spec(s, a + 1, b, ']') < b && find_spec(s, a + 1, b, ']') > a + 1 {
        let c = find_spec(s, a + 1, b, ']');
        if c == a + 2 && s[a + 1] == '#' {
            LineKind::Metadata((c + 1) as usize)
        } else if c == a + 2 && s[a + 1] == '$' {
            LineKind::Parameters((c + 1) as usize)
        } else if forall|j: int| a + 1 <= j < c ==> is_digit_char(#[trigger] s[j]) {
            LineKind::Lyric((a + 1) as usize, c as usize)
        } else {
            LineKind::Solfa((a + 1) as usize, c as usize)
        }
    } else {
        LineKind::Unknown
    }
}

/// The data of one assignment of a parameter or metadata line.
#[derive(Debug)]
pub struct AssignmentData {
    pub scope_id: ScopeId,
    pub key_name: String,
    pub key_range: Range,
    pub value: ValueNode,
    pub value_range: Range,
    pub full_range: Range,
}

/// A range is the span of some text `a..b` of `s`.
pub open spec fn is_span(s: Seq<char>, r: Range) -> bool {
    exists|a: int, b: int| 0 <= a <= b <= s.len() && #[trigger] span(s, a, b) == r
}

/// The key and the value of an assignment span text of `s`.
pub open spec fn data_spans(s: Seq<char>, data: AssignmentData) -> bool {
    is_span(s, data.key_range) && is_span(s, data.value_range)
}

/// What parsing a document gives: its header and body, its symbols, and
/// the diagnostics of the parsing.
#[derive(Debug)]
pub struct ParserOutput {
    pub header: Header,
    pub body: Body,
    pub tree: SymbolTree,
    pub reporter: DiagnosticReporter,
    pub delimiters: Vec<Delimiter>,
}

/// Reads a document into its header and body, recording its symbols and
/// reporting what does not read.
#[derive(Debug)]
pub struct Parser<'a> {
    source: SourceText<'a>,
    tree: SymbolTree,
    reporter: DiagnosticReporter,
}

/// For each section, whether it merges with the one before and how many
/// sub-sections it has.
pub open spec fn section_shapes_of(sections: Seq<Section>) -> Seq<(bool, nat)> {
    sections.map_values(|x: Section| (x.merge, x.items@.len()))
}

/// `after` is `before` with, where the value at `a` is a string whose
/// closing quote is missing before `b`, one error reporting the missing
/// quote at `b`.
pub open spec fn reports_missing_quote(before: Seq<Diagnostic>, after: Seq<Diagnostic>, s: Seq<char>, a: int, b: int) -> bool {
    if unclosed_string(s, a, b) {
        &&& after.len() == before.len() + 1
        &&& after.subrange(0, before.len() as int) == before
        &&& after.last().level == DiagnosticLevel::Error
        &&& after.last().stage == ReportStage::Parsing
        &&& after.last().kind matches DiagnosticKind::Missing(t) && t@ == "\""@
        &&& after.last().range == span(s, b, b)
    } else {
        after == before
    }
}

/// Whether `d` is the error of a missing `text` at `at`.
pub open spec fn missing_at(d: Diagnostic, s: Seq<char>, at: int, text: Seq<char>) -> bool {
    &&& d.level == DiagnosticLevel::Error
    &&& d.stage == ReportStage::Parsing
    &&& d.range == span(s, at, at)
    &&& d.kind matches DiagnosticKind::Missing(t) && t@ == text
}

/// The reports of reading a single value at `a`: a missing closing quote,
/// if the value is an unclosed string.
pub open spec fn quote_reports(s: Seq<char>, a: int, b: int, ds: Seq<Diagnostic>) -> bool {
    if unclosed_string(s, a, b) {
        ds.len() == 1 && missing_at(ds[0], s, b, "\""@)
    } else {
        ds.len() == 0
    }
}

pub proof fn lemma_quote_reports(before: Seq<Diagnostic>, after: Seq<Diagnostic>, s: Seq<char>, a: int, b: int)
    requires
        reports_missing_quote(before, after, s, a, b),
    ensures
        after.len() >= before.len(),
        after.take(before.len() as int) == before,
        after == before + after.skip(before.len() as int),
        quote_reports(s, a, b, after.skip(before.len() as int)),
{
    assert(after.take(before.len() as int) =~= after.subrange(0, before.len() as int));
    assert(after =~= before + after.skip(before.len() as int));
    if unclosed_string(s, a, b) {
        assert(after.skip(before.len() as int)[0] == after.last());
    }
}

/// The reports of reading the items of a list from `pos`: each item's
/// missing quote, and a missing `}` where the list runs to `b`.
pub open spec fn list_value_reports(s: Seq<char>, pos: int, b: int, ds: Seq<Diagnostic>) -> bool
    decreases b - pos,
{
    if pos >= b {
        ds.len() == 1 && missing_at(ds[0], s, b, "}"@)
    } else if pos < 0 {
        ds.len() == 0
    } else {
        let q: int = if unclosed_string(s, pos, b) {
            1
        } else {
            0
        };
        &&& ds.len() >= q
        &&& quote_reports(s, pos, b, ds.take(q))
        &&& {
            let rest = ds.skip(q);
            match spec_item(s, pos, b) {
                None => rest.len() == 0,
                Some(it) => {
                    let next = skip_blanks_spec(s, it.end as int, b);
                    if next >= b {
                        rest.len() == 1 && missing_at(rest[0], s, b, "}"@)
                    } else if s[next] == '}' || s[next] != ',' {
                        rest.len() == 0
                    } else {
                        let p2 = skip_blanks_spec(s, next + 1, b);
                        if pos < p2 <= b {
                            list_value_reports(s, p2, b, rest)
                        } else {
                            rest.len() == 0
                        }
                    }
                },
            }
        }
    }
}

/// The reports of reading the value of an assignment at `a`.
pub open spec fn value_reports(s: Seq<char>, a: int, b: int, ds: Seq<Diagnostic>) -> bool {
    if s[a] != '{' {
        quote_reports(s, a, b, ds)
    } else {
        let pos = skip_blanks_spec(s, a + 1, b);
        if pos < b && s[pos] == '}' {
            ds.len() == 0
        } else {
            list_value_reports(s, pos, b, ds)
        }
    }
}

/// What reading the assignment that starts after the blanks at `pos`
/// reports, taking the fields from `o` to `f`: the value's reports, then
/// the reports of assigning it, or, where the assignment does not read, a
/// syntax error up to the next `|` (the fields unchanged).
pub open spec fn assign_step<T: FieldAssign>(s: Seq<char>, pos: int, b: int, o: T, f: T, ds: Seq<Diagnostic>) -> bool {
    let p = skip_blanks_spec(s, pos, b);
    let name_end = word_end_spec(s, p, b);
    let eq = skip_blanks_spec(s, name_end, b);
    let v = skip_blanks_spec(s, eq + 1, b);
    let tried = name_end > p && eq < b && s[eq] == '=' && v < b;
    exists|k: int|
        #![trigger ds.skip(k)]
        {
            &&& 0 <= k <= ds.len()
            &&& (tried ==> value_reports(s, v, b, ds.take(k)))
            &&& (!tried ==> k == 0)
            &&& match assignment_at(s, p, b).0 {
                Some((name, sh)) => exists|data: AssignmentData, n: int, syms: Seq<Symbol>, scs: Seq<Scope>|
                    #![trigger T::spec_assign_reports(o, f, data, s, syms, scs), T::spec_assigned(o, f, data, s, n)]
                    {
                        &&& data.key_name@ == name
                        &&& shape(data.value) == sh
                        &&& T::spec_assigned(o, f, data, s, n)
                        &&& ds.skip(k) == T::spec_assign_reports(o, f, data, s, syms, scs)
                    },
                None => f == o && ds.skip(k) == seq![syntax_error(s, p, find_spec(s, p, b, '|'))],
            }
        }
}

/// Where reading goes on after the assignment at `pos`.
pub open spec fn assign_next(s: Seq<char>, pos: int, b: int) -> int {
    let next = assignment_at(s, skip_blanks_spec(s, pos, b), b).1;
    if next <= pos {
        pos + 1
    } else {
        next
    }
}

/// What reading the assignments of a line from `pos` to `b` reports, taking
/// the fields from `o` to `f`: the reports of each assignment in turn.
pub open spec fn local_reports<T: FieldAssign>(s: Seq<char>, pos: int, b: int, o: T, f: T, ds: Seq<Diagnostic>) -> bool
    decreases b - pos,
{
    if 0 <= pos < b && skip_blanks_spec(s, pos, b) < b && pos < assign_next(s, pos, b) <= b {
        exists|m: T, k: int|
            #![trigger assign_step(s, pos, b, o, m, ds.take(k))]
            {
                &&& 0 <= k <= ds.len()
                &&& assign_step(s, pos, b, o, m, ds.take(k))
                &&& local_reports(s, assign_next(s, pos, b), b, m, f, ds.skip(k))
            }
    } else {
        ds.len() == 0 && f == o
    }
}

/// What reading the assignments of a line from `c` to `e` into fields of
/// type `T` reports, for some fields before and after.
pub open spec fn line_local_reports<T: FieldAssign>(s: Seq<char>, c: int, e: int, ds: Seq<Diagnostic>) -> bool {
    exists|o: T, f: T| #[trigger] local_reports(s, c, e, o, f, ds)
}

/// What reading a directive line `a..b` reports: the value's reports, then
/// those of assigning it (for some directives before and after).
pub open spec fn directive_reports(s: Seq<char>, a: int, b: int, ds: Seq<Diagnostic>) -> bool {
    let at = skip_blanks_spec(s, a + 2, b);
    let name_end = word_end_spec(s, at + 1, b);
    let v = skip_blanks_spec(s, name_end, b);
    if at >= b || s[at] != '@' || name_end == at + 1 || v >= b {
        ds.len() == 0
    } else {
        exists|k: int|
            #![trigger ds.skip(k)]
            {
                &&& 0 <= k <= ds.len()
                &&& value_reports(s, v, b, ds.take(k))
                &&& match spec_value_shape(s, v, b) {
                    None => ds.skip(k).len() == 0,
                    Some(sh) => exists|o: DirectiveMap, f: DirectiveMap, data: AssignmentData, syms: Seq<Symbol>, scs: Seq<Scope>|
                        #![trigger DirectiveMap::spec_assign_reports(o, f, data, s, syms, scs)]
                        {
                            &&& data.key_name@ == s.subrange(at + 1, name_end)
                            &&& shape(data.value) == sh
                            &&& ds.skip(k) == DirectiveMap::spec_assign_reports(o, f, data, s, syms, scs)
                        },
                }
            }
    }
}

/// What one header line reports.
pub open spec fn header_line_reports(s: Seq<char>, line: LineInfo, ds: Seq<Diagnostic>) -> bool {
    match line.kind {
        LineKind::Blank => ds.len() == 0,
        LineKind::Comment => directive_reports(s, line.start as int, line.end as int, ds),
        LineKind::Metadata(c) => line_local_reports::<HeaderMetadata>(s, c as int, line.end as int, ds),
        LineKind::Parameters(c) => line_local_reports::<InitialParams>(s, c as int, line.end as int, ds),
        _ => ds == seq![syntax_error(s, line.start as int, line.end as int)],
    }
}

/// What the header lines from `pos` to `b` report, line after line.
pub open spec fn header_reports(s: Seq<char>, pos: int, b: int, ds: Seq<Diagnostic>) -> bool
    decreases b - pos,
{
    if 0 <= pos < b && b <= s.len() && b <= usize::MAX && pos < line_at(s, pos, b).next <= b {
        exists|k: int|
            #![trigger ds.skip(k)]
            {
                &&& 0 <= k <= ds.len()
                &&& header_line_reports(s, line_at(s, pos, b), ds.take(k))
                &&& header_reports(s, line_at(s, pos, b).next as int, b, ds.skip(k))
            }
    } else {
        ds.len() == 0
    }
}

/// Whether `ds` is the error of a solfa line whose voice `l..m` does not
/// read.
pub open spec fn invalid_voice_reports(s: Seq<char>, l: int, m: int, ds: Seq<Diagnostic>) -> bool {
    &&& ds.len() == 1
    &&& ds[0].kind matches DiagnosticKind::InvalidVoice(t) && t@ == s.subrange(l, m)
    &&& ds[0].level == DiagnosticLevel::Error
    &&& ds[0].stage == ReportStage::Parsing
    &&& ds[0].range == span(s, l, m)
}

/// What a lyric line reports, as the line numbered `expected` of its
/// sub-section: an invalid verse number, or a mismatched one and what its
/// end reports (for some tokens of the kinds the line reads as).
pub open spec fn lyric_line_reports(s: Seq<char>, l: int, m: int, b: int, expected: usize, ds: Seq<Diagnostic>) -> bool {
    match crate::text::spec_parse_usize(s.subrange(l, m)) {
        None => ds == node_error(s, (false, l, m, Seq::empty()), DiagnosticKind::InvalidType("integer")),
        Some(verse) => {
            let warn = verse_warning(s, l, m, expected, verse);
            exists|tokens: Seq<LyricToken>, syms: Seq<Symbol>|
                #![trigger anchor_reports(s, lyric_anchor_at(s, m + 1, b), tokens, syms)]
                {
                    &&& token_kinds(tokens) == lyric_token_kinds(
                        s,
                        m + 1,
                        trim_end_spec(
                            s,
                            m + 1,
                            if lyric_anchor_at(s, m + 1, b) is Some {
                                b - 2
                            } else {
                                b
                            },
                        ),
                        false,
                        false,
                    )
                    &&& ds == warn + anchor_reports(s, lyric_anchor_at(s, m + 1, b), tokens, syms)
                }
        },
    }
}

/// The mismatched-verse warning of a lyric line whose verse `l..m` reads as
/// `verse` where `expected` was due; none where they agree.
pub open spec fn verse_warning(s: Seq<char>, l: int, m: int, expected: usize, verse: usize) -> Seq<Diagnostic> {
    if verse != expected {
        seq![
            Diagnostic {
                level: DiagnosticLevel::Warning,
                stage: ReportStage::Parsing,
                kind: DiagnosticKind::MismatchedVerseIndex(expected, verse),
                range: span(s, l, m),
            },
        ]
    } else {
        Seq::empty()
    }
}

/// The solfa line a line adds to its sub-section: a solfa line whose voice
/// reads, with the pulses its notes read as.
pub open spec fn line_solfa(s: Seq<char>, line: LineInfo) -> Seq<SolfaShape> {
    match line.kind {
        LineKind::Solfa(l, m) => match Voice::spec_try_from(s.subrange(l as int, m as int)) {
            Ok(v) => seq![(v, solfa_scan(s, m + 1, line.end as int).0)],
            Err(_) => Seq::empty(),
        },
        _ => Seq::empty(),
    }
}

/// The token kinds of the words of a lyric line from `p` to `e`, without
/// its anchor.
pub open spec fn lyric_kinds_at(s: Seq<char>, p: int, e: int) -> Seq<Option<LyricOperatorKind>> {
    lyric_token_kinds(
        s,
        p,
        trim_end_spec(
            s,
            p,
            if lyric_anchor_at(s, p, e) is Some {
                e - 2
            } else {
                e
            },
        ),
        false,
        false,
    )
}

/// The lyric line a line adds to its sub-section: a lyric line whose verse
/// reads, with the kinds of its tokens.
pub open spec fn line_lyric(s: Seq<char>, line: LineInfo) -> Seq<Seq<Option<LyricOperatorKind>>> {
    match line.kind {
        LineKind::Lyric(l, m) => if crate::text::spec_parse_usize(s.subrange(l as int, m as int)) is Some {
            seq![lyric_kinds_at(s, m + 1, line.end as int)]
        } else {
            Seq::empty()
        },
        _ => Seq::empty(),
    }
}

/// How many lyric lines a line adds to its sub-section: one for a lyric
/// line whose verse reads.
pub open spec fn lyric_increment(s: Seq<char>, line: LineInfo) -> nat {
    match line.kind {
        LineKind::Lyric(l, m) => if crate::text::spec_parse_usize(s.subrange(l as int, m as int)) is Some {
            1
        } else {
            0
        },
        _ => 0,
    }
}

/// The error of a `[$]` or `[#]` line `a..b` in a sub-section other than the
/// first of its section.
pub open spec fn non_top_level(first: bool, kind: DiagnosticKind, s: Seq<char>, a: int, b: int) -> Seq<Diagnostic> {
    if first {
        Seq::empty()
    } else {
        seq![Diagnostic { level: DiagnosticLevel::Error, stage: ReportStage::Parsing, kind, range: span(s, a, b) }]
    }
}

/// How many errors a `[$]` or `[#]` line reports for not being in the first
/// sub-section of its section.
pub open spec fn top_len(first: bool) -> int {
    if first {
        0
    } else {
        1
    }
}

/// What a `[$]` line `a..b` of a sub-section reports: that it is not in the
/// first sub-section (naming where the section starts), then its
/// assignments read into the section's parameters, then into the
/// sub-section's.
pub open spec fn params_line_reports(s: Seq<char>, a: int, b: int, c: int, first: bool, ds: Seq<Diagnostic>) -> bool {
    exists|ctx: Range, k: int|
        #![trigger non_top_level(first, DiagnosticKind::NonTopLevelParamsOverride(ctx), s, a, b), ds.skip(k)]
        {
            let head = non_top_level(first, DiagnosticKind::NonTopLevelParamsOverride(ctx), s, a, b);
            &&& head.len() <= k <= ds.len()
            &&& ds.take(head.len() as int) == head
            &&& line_local_reports::<SectionParams>(s, c, b, ds.subrange(head.len() as int, k))
            &&& line_local_reports::<SubSectionParams>(s, c, b, ds.skip(k))
        }
}

/// What a `[#]` line `a..b` of a sub-section reports: that it is not in the
/// first sub-section, then its assignments read into the section's metadata.
pub open spec fn metadata_line_reports(s: Seq<char>, a: int, b: int, c: int, first: bool, ds: Seq<Diagnostic>) -> bool {
    exists|ctx: Range|
        #![trigger non_top_level(first, DiagnosticKind::NonTopLevelSectionMetadata(ctx), s, a, b)]
        {
            let head = non_top_level(first, DiagnosticKind::NonTopLevelSectionMetadata(ctx), s, a, b);
            &&& head.len() <= ds.len()
            &&& ds.take(head.len() as int) == head
            &&& line_local_reports::<SectionMetadata>(s, c, b, ds.skip(head.len() as int))
        }
}

/// What one line of a sub-section reports; `first` tells whether the
/// sub-section is the first of its section, and `count` how many lyric lines
/// came before in the sub-section.
pub open spec fn sub_line_reports(s: Seq<char>, line: LineInfo, first: bool, count: nat, ds: Seq<Diagnostic>) -> bool {
    match line.kind {
        LineKind::Blank => ds.len() == 0,
        LineKind::Comment => ds.len() == 0,
        LineKind::Parameters(c) => params_line_reports(s, line.start as int, line.end as int, c as int, first, ds),
        LineKind::Metadata(c) => metadata_line_reports(s, line.start as int, line.end as int, c as int, first, ds),
        LineKind::Solfa(l, m) => match Voice::spec_try_from(s.subrange(l as int, m as int)) {
            Err(_) => invalid_voice_reports(s, l as int, m as int, ds),
            Ok(_) => ds == solfa_scan(s, m as int + 1, line.end as int).1,
        },
        LineKind::Lyric(l, m) => lyric_line_reports(s, l as int, m as int, line.end as int, (count + 1) as usize, ds),
        _ => ds == seq![syntax_error(s, line.start as int, line.end as int)],
    }
}

/// What the lines of a sub-section from `pos` to `b` report, line after
/// line.
pub open spec fn sub_reports(s: Seq<char>, pos: int, b: int, first: bool, count: nat, ds: Seq<Diagnostic>) -> bool
    decreases b - pos,
{
    if 0 <= pos < b && b <= s.len() && b <= usize::MAX && pos < line_at(s, pos, b).next <= b {
        exists|k: int|
            #![trigger ds.skip(k)]
            {
                &&& 0 <= k <= ds.len()
                &&& sub_line_reports(s, line_at(s, pos, b), first, count, ds.take(k))
                &&& sub_reports(
                    s,
                    line_at(s, pos, b).next as int,
                    b,
                    first,
                    count + lyric_increment(s, line_at(s, pos, b)),
                    ds.skip(k),
                )
            }
    } else {
        ds.len() == 0
    }
}

/// What the lines of a section from `pos` to `b` report, sub-section after
/// sub-section (split at `++` lines); `sub_start` is where the current
/// sub-section starts and `count` how many came before it.
pub open spec fn section_reports(s: Seq<char>, pos: int, sub_start: int, b: int, count: nat, ds: Seq<Diagnostic>) -> bool
    decreases b - pos,
{
    if 0 <= pos < b && b <= s.len() && b <= usize::MAX && pos < line_at(s, pos, b).next <= b {
        let next = line_at(s, pos, b).next as int;
        if line_at(s, pos, b).kind is SubSectionDelimiter {
            exists|k: int|
                #![trigger ds.skip(k)]
                {
                    &&& 0 <= k <= ds.len()
                    &&& sub_reports(s, sub_start, pos, count == 0, 0, ds.take(k))
                    &&& section_reports(s, next, next, b, count + 1, ds.skip(k))
                }
        } else {
            section_reports(s, next, sub_start, b, count, ds)
        }
    } else if has_content_from(s, sub_start, b, b) || count == 0 {
        sub_reports(s, sub_start, b, count == 0, 0, ds)
    } else {
        ds.len() == 0
    }
}

/// What the body lines from `pos` to `b` report, section after section
/// (split at `--` and `<<` lines, each section with content); `start` is
/// where the current section starts.
pub open spec fn body_reports(s: Seq<char>, pos: int, start: int, b: int, ds: Seq<Diagnostic>) -> bool
    decreases b - pos,
{
    if 0 <= pos < b && b <= s.len() && b <= usize::MAX && pos < line_at(s, pos, b).next <= b {
        let next = line_at(s, pos, b).next as int;
        if line_at(s, pos, b).kind is SectionSplit || line_at(s, pos, b).kind is SectionMerge {
            if has_content_from(s, start, pos, pos) {
                exists|k: int|
                    #![trigger ds.skip(k)]
                    {
                        &&& 0 <= k <= ds.len()
                        &&& section_reports(s, start, start, pos, 0, ds.take(k))
                        &&& body_reports(s, next, next, b, ds.skip(k))
                    }
            } else {
                body_reports(s, next, next, b, ds)
            }
        } else {
            body_reports(s, next, start, b, ds)
        }
    } else if has_content_from(s, start, b, b) {
        section_reports(s, start, start, b, 0, ds)
    } else {
        ds.len() == 0
    }
}

/// What parsing a text reports: its header lines' reports, then, after the
/// first `---` line, its body's.
pub open spec fn parse_reports(s: Seq<char>, ds: Seq<Diagnostic>) -> bool {
    let n = s.len() as int;
    exists|k: int|
        #![trigger ds.skip(k)]
        {
            &&& 0 <= k <= ds.len()
            &&& header_reports(s, 0, header_end_from(s, 0, n), ds.take(k))
            &&& match header_line_from(s, 0, n) {
                Some(line) => body_reports(s, line.next as int, line.next as int, n, ds.skip(k)),
                None => ds.skip(k).len() == 0,
            }
        }
}

/// The sub-sections of a section's lines from `pos` to `b`, as `start..end`
/// ranges split at `++` lines; `sub_start` is where the current one starts
/// and `first` whether it is the first. The last one counts where it holds
/// content or is the first.
pub open spec fn sub_ranges(s: Seq<char>, pos: int, sub_start: int, first: bool, b: int) -> Seq<(int, int)>
    decreases b - pos,
{
    if 0 <= pos < b && b <= s.len() && b <= usize::MAX && pos < line_at(s, pos, b).next <= b {
        let next = line_at(s, pos, b).next as int;
        if line_at(s, pos, b).kind is SubSectionDelimiter {
            seq![(sub_start, pos)] + sub_ranges(s, next, next, false, b)
        } else {
            sub_ranges(s, next, sub_start, first, b)
        }
    } else if has_content_from(s, sub_start, b, b) || first {
        seq![(sub_start, b)]
    } else {
        Seq::empty()
    }
}

/// The sections of the body lines from `pos` to `b`, as `start..end`
/// ranges split at `--` and `<<` lines, each with content; `start` is where
/// the current one starts.
pub open spec fn section_ranges(s: Seq<char>, pos: int, start: int, b: int) -> Seq<(int, int)>
    decreases b - pos,
{
    if 0 <= pos < b && b <= s.len() && b <= usize::MAX && pos < line_at(s, pos, b).next <= b {
        let next = line_at(s, pos, b).next as int;
        if line_at(s, pos, b).kind is SectionSplit || line_at(s, pos, b).kind is SectionMerge {
            if has_content_from(s, start, pos, pos) {
                seq![(start, pos)] + section_ranges(s, next, next, b)
            } else {
                section_ranges(s, next, next, b)
            }
        } else {
            section_ranges(s, next, start, b)
        }
    } else if has_content_from(s, start, b, b) {
        seq![(start, b)]
    } else {
        Seq::empty()
    }
}

/// A sub-section holds what its lines `a..b` read as: its solfa lines and
/// its lyric lines, in order, the lyric lines numbered from one.
pub open spec fn sub_section_read(s: Seq<char>, sub: SubSection, a: int, b: int) -> bool {
    &&& fields_by(no_sub_params(), sub.params, s, header_assigns(s, a, b, false))
    &&& solfa_shapes(sub.solfa@) == solfa_lines_from(s, a, b, b)
    &&& lyric_shapes(sub.lyrics@) == lyric_lines_from(s, a, b, b)
    &&& forall|k: int| 0 <= k < sub.lyrics@.len() ==> (#[trigger] sub.lyrics@[k]).verse == k + 1
}

/// A section holds its sub-sections, each read from its lines in `a..b`,
/// and the parameters and metadata its lines assign.
pub open spec fn section_read(s: Seq<char>, section: Section, a: int, b: int) -> bool {
    let subs = sub_ranges(s, a, a, true, b);
    &&& section_fields_read(s, section, a, b)
    &&& section.items@.len() == subs.len()
    &&& forall|j: int|
        0 <= j < subs.len() ==> sub_section_read(s, #[trigger] section.items@[j], subs[j].0, subs[j].1)
}

/// A body holds its sections, each read from its lines in `a..b`.
pub open spec fn body_read(s: Seq<char>, body: Body, a: int, b: int) -> bool {
    let secs = section_ranges(s, a, a, b);
    &&& body.sections@.len() == secs.len()
    &&& forall|i: int| 0 <= i < secs.len() ==> section_read(s, #[trigger] body.sections@[i], secs[i].0, secs[i].1)
}

/// The scope `sid` of `tree` is of kind `kind` and spans `a..b` of `s`.
pub open spec fn scope_at(tree: SymbolTree, s: Seq<char>, sid: int, kind: ScopeKind, a: int, b: int) -> bool {
    &&& 0 <= sid < tree.spec_scopes().len()
    &&& tree.spec_scopes()[sid].kind == kind
    &&& tree.spec_scopes()[sid].range == span(s, a, b)
}

/// The scopes of a section read from `a..b`: its own, a section scope over
/// those lines, and each sub-section's, over its lines.
pub open spec fn section_scopes(tree: SymbolTree, s: Seq<char>, section: Section, a: int, b: int) -> bool {
    let subs = sub_ranges(s, a, a, true, b);
    &&& scope_at(tree, s, section.sid as int, ScopeKind::Section, a, b)
    &&& section.items@.len() == subs.len()
    &&& forall|j: int|
        0 <= j < subs.len() ==> scope_at(
            tree,
            s,
            (#[trigger] section.items@[j]).sid as int,
            ScopeKind::SubSection,
            subs[j].0,
            subs[j].1,
        )
}

/// The scopes of the sections of a body read from `a..b`, each over its
/// lines.
pub open spec fn body_scopes(tree: SymbolTree, s: Seq<char>, body: Body, a: int, b: int) -> bool {
    let secs = section_ranges(s, a, a, b);
    &&& body.sections@.len() == secs.len()
    &&& forall|i: int| 0 <= i < secs.len() ==> section_scopes(tree, s, #[trigger] body.sections@[i], secs[i].0, secs[i].1)
}

/// The scopes of sections read so far stay as the tree grows.
proof fn lemma_sections_scopes_grow(t1: SymbolTree, t2: SymbolTree, s: Seq<char>, sections: Seq<Section>, done: Seq<(int, int)>)
    requires
        tree_extends(t1, t2),
        done.len() <= sections.len(),
        forall|i: int| 0 <= i < done.len() ==> section_scopes(t1, s, #[trigger] sections[i], done[i].0, done[i].1),
    ensures
        forall|i: int| 0 <= i < done.len() ==> section_scopes(t2, s, #[trigger] sections[i], done[i].0, done[i].1),
{
    assert forall|i: int| 0 <= i < done.len() implies section_scopes(t2, s, #[trigger] sections[i], done[i].0, done[i].1) by {
        lemma_section_scopes_grow(t1, t2, s, sections[i], done[i].0, done[i].1);
    }
}

proof fn lemma_section_scopes_grow(t1: SymbolTree, t2: SymbolTree, s: Seq<char>, section: Section, a: int, b: int)
    requires
        tree_extends(t1, t2),
        section_scopes(t1, s, section, a, b),
    ensures
        section_scopes(t2, s, section, a, b),
{
    let subs = sub_ranges(s, a, a, true, b);
    assert forall|j: int| 0 <= j < subs.len() implies scope_at(
        t2,
        s,
        (#[trigger] section.items@[j]).sid as int,
        ScopeKind::SubSection,
        subs[j].0,
        subs[j].1,
    ) by {
        assert(scope_at(t1, s, section.items@[j].sid as int, ScopeKind::SubSection, subs[j].0, subs[j].1));
    }
}

/// `f` is `o` after the assignments `assigns`, read in order.
pub open spec fn fields_by<T: FieldAssign>(o: T, f: T, s: Seq<char>, assigns: Seq<(Seq<char>, NodeShape)>) -> bool {
    exists|st: Seq<T>, d: Seq<AssignmentData>, n: Seq<int>| #[trigger] assigned_in_order(o, f, s, assigns, st, d, n)
}

proof fn lemma_fields_by_concat<T: FieldAssign>(
    o: T,
    m: T,
    f: T,
    s: Seq<char>,
    a1: Seq<(Seq<char>, NodeShape)>,
    a2: Seq<(Seq<char>, NodeShape)>,
)
    requires
        fields_by(o, m, s, a1),
        fields_by(m, f, s, a2),
    ensures
        fields_by(o, f, s, a1 + a2),
{
    let (st1, d1, n1) = choose|st: Seq<T>, d: Seq<AssignmentData>, n: Seq<int>|
        #[trigger] assigned_in_order(o, m, s, a1, st, d, n);
    let (st2, d2, n2) = choose|st: Seq<T>, d: Seq<AssignmentData>, n: Seq<int>|
        #[trigger] assigned_in_order(m, f, s, a2, st, d, n);
    lemma_assigned_concat(o, m, f, s, a1, st1, d1, n1, a2, st2, d2, n2);
}

proof fn lemma_fields_by_none<T: FieldAssign>(o: T, s: Seq<char>)
    ensures
        fields_by(o, o, s, Seq::empty()),
{
    lemma_assigned_none(o, s);
}

/// The assignments of a line: those of a `[#]` line (`meta`) or of a `[$]`
/// line (`!meta`).
pub open spec fn line_assigns(s: Seq<char>, line: LineInfo, meta: bool) -> Seq<(Seq<char>, NodeShape)> {
    match line.kind {
        LineKind::Metadata(c) => if meta {
            assignments_from(s, c as int, line.end as int)
        } else {
            Seq::empty()
        },
        LineKind::Parameters(c) => if !meta {
            assignments_from(s, c as int, line.end as int)
        } else {
            Seq::empty()
        },
        _ => Seq::empty(),
    }
}

/// The assignments of the `[#]` (`meta`) or `[$]` (`!meta`) lines of the
/// sub-sections `ranges`, in order.
pub open spec fn subs_assigns(s: Seq<char>, ranges: Seq<(int, int)>, meta: bool) -> Seq<(Seq<char>, NodeShape)>
    decreases ranges.len(),
{
    if ranges.len() == 0 {
        Seq::empty()
    } else {
        subs_assigns(s, ranges.drop_last(), meta) + header_assigns(s, ranges.last().0, ranges.last().1, meta)
    }
}

/// Parameters with none set.
pub open spec fn no_sub_params() -> SubSectionParams {
    SubSectionParams { dynamics: None }
}

/// Section metadata with none set.
pub open spec fn no_section_metadata() -> SectionMetadata {
    SectionMetadata { name: None, ending: None }
}

/// A section's parameters and metadata are what the `[$]` and `[#]` lines
/// of its sub-sections `a..b` assign, in order, and each sub-section's
/// parameters what its own `[$]` lines assign.
pub open spec fn section_fields_read(s: Seq<char>, section: Section, a: int, b: int) -> bool {
    let subs = sub_ranges(s, a, a, true, b);
    &&& fields_by(SectionParams::spec_empty(), section.params, s, subs_assigns(s, subs, false))
    &&& fields_by(no_section_metadata(), section.metadata, s, subs_assigns(s, subs, true))
}

/// A piece of lyric text that refers to a stored chunk: the chunk is the
/// source text under the piece's symbol.
pub open spec fn string_text_ok(tree: SymbolTree, s: Seq<char>, t: LyricString) -> bool {
    t.value matches LyricStringKind::Reference(id) ==> {
        &&& id < tree.spec_lyrics().len()
        &&& t.sid < tree.spec_symbols().len()
        &&& exists|q: int, e: int|
            0 <= q <= e <= s.len() && #[trigger] span(s, q, e) == tree.spec_symbols()[t.sid as int].range
                && tree.spec_lyrics()[id as int] == s.subrange(q, e)
    }
}

/// Every stored piece of a lyric string is the source text under it.
pub open spec fn strings_texts_ok(tree: SymbolTree, s: Seq<char>, ts: Seq<LyricString>) -> bool {
    forall|j: int| 0 <= j < ts.len() ==> string_text_ok(tree, s, #[trigger] ts[j])
}

pub open spec fn chunk_texts_ok(tree: SymbolTree, s: Seq<char>, c: LyricChunk) -> bool {
    match c.value {
        LyricChunkKind::String(ts) => strings_texts_ok(tree, s, ts@),
        _ => true,
    }
}

pub open spec fn chunks_texts_ok(tree: SymbolTree, s: Seq<char>, cs: Seq<LyricChunk>) -> bool {
    forall|k: int| 0 <= k < cs.len() ==> chunk_texts_ok(tree, s, #[trigger] cs[k])
}

pub open spec fn token_texts_ok(tree: SymbolTree, s: Seq<char>, t: LyricToken) -> bool {
    match t {
        LyricToken::Column(col) => chunks_texts_ok(tree, s, col.chunks@),
        LyricToken::Operator(_) => true,
    }
}

/// Every stored text of the tokens of a lyric line is the source text under
/// its symbol.
pub open spec fn tokens_texts_ok(tree: SymbolTree, s: Seq<char>, ts: Seq<LyricToken>) -> bool {
    forall|i: int| 0 <= i < ts.len() ==> token_texts_ok(tree, s, #[trigger] ts[i])
}

pub open spec fn lines_texts_ok(tree: SymbolTree, s: Seq<char>, ls: Seq<LyricLine>) -> bool {
    forall|k: int| 0 <= k < ls.len() ==> tokens_texts_ok(tree, s, (#[trigger] ls[k]).tokens@)
}

pub open spec fn subs_texts_ok(tree: SymbolTree, s: Seq<char>, subs: Seq<SubSection>) -> bool {
    forall|j: int| 0 <= j < subs.len() ==> lines_texts_ok(tree, s, (#[trigger] subs[j]).lyrics@)
}

/// Every lyric text that the sections refer to is stored in `tree` as the
/// source text under its symbol.
pub open spec fn sections_texts_ok(tree: SymbolTree, s: Seq<char>, secs: Seq<Section>) -> bool {
    forall|i: int| 0 <= i < secs.len() ==> subs_texts_ok(tree, s, (#[trigger] secs[i]).items@)
}

proof fn lemma_strings_texts_grow(t1: SymbolTree, t2: SymbolTree, s: Seq<char>, ts: Seq<LyricString>)
    requires
        tree_extends(t1, t2),
        strings_texts_ok(t1, s, ts),
    ensures
        strings_texts_ok(t2, s, ts),
{
    assert forall|j: int| 0 <= j < ts.len() implies string_text_ok(t2, s, #[trigger] ts[j]) by {
        assert(string_text_ok(t1, s, ts[j]));
        if let LyricStringKind::Reference(id) = ts[j].value {
            let (q, e) = choose|q: int, e: int|
                0 <= q <= e <= s.len() && #[trigger] span(s, q, e) == t1.spec_symbols()[ts[j].sid as int].range
                    && t1.spec_lyrics()[id as int] == s.subrange(q, e);
            assert(t2.spec_symbols()[ts[j].sid as int] == t1.spec_symbols()[ts[j].sid as int]);
            assert(t2.spec_lyrics()[id as int] == t1.spec_lyrics()[id as int]);
            assert(span(s, q, e) == t2.spec_symbols()[ts[j].sid as int].range);
        }
    }
}

proof fn lemma_chunks_texts_grow(t1: SymbolTree, t2: SymbolTree, s: Seq<char>, cs: Seq<LyricChunk>)
    requires
        tree_extends(t1, t2),
        chunks_texts_ok(t1, s, cs),
    ensures
        chunks_texts_ok(t2, s, cs),
{
    assert forall|k: int| 0 <= k < cs.len() implies chunk_texts_ok(t2, s, #[trigger] cs[k]) by {
        assert(chunk_texts_ok(t1, s, cs[k]));
        if let LyricChunkKind::String(ts) = cs[k].value {
            lemma_strings_texts_grow(t1, t2, s, ts@);
        }
    }
}

proof fn lemma_tokens_texts_grow(t1: SymbolTree, t2: SymbolTree, s: Seq<char>, ts: Seq<LyricToken>)
    requires
        tree_extends(t1, t2),
        tokens_texts_ok(t1, s, ts),
    ensures
        tokens_texts_ok(t2, s, ts),
{
    assert forall|i: int| 0 <= i < ts.len() implies token_texts_ok(t2, s, #[trigger] ts[i]) by {
        assert(token_texts_ok(t1, s, ts[i]));
        if let LyricToken::Column(col) = ts[i] {
            lemma_chunks_texts_grow(t1, t2, s, col.chunks@);
        }
    }
}

proof fn lemma_lines_texts_grow(t1: SymbolTree, t2: SymbolTree, s: Seq<char>, ls: Seq<LyricLine>)
    requires
        tree_extends(t1, t2),
        lines_texts_ok(t1, s, ls),
    ensures
        lines_texts_ok(t2, s, ls),
{
    assert forall|k: int| 0 <= k < ls.len() implies tokens_texts_ok(t2, s, (#[trigger] ls[k]).tokens@) by {
        lemma_tokens_texts_grow(t1, t2, s, ls[k].tokens@);
    }
}

proof fn lemma_subs_texts_grow(t1: SymbolTree, t2: SymbolTree, s: Seq<char>, subs: Seq<SubSection>)
    requires
        tree_extends(t1, t2),
        subs_texts_ok(t1, s, subs),
    ensures
        subs_texts_ok(t2, s, subs),
{
    assert forall|j: int| 0 <= j < subs.len() implies lines_texts_ok(t2, s, (#[trigger] subs[j]).lyrics@) by {
        lemma_lines_texts_grow(t1, t2, s, subs[j].lyrics@);
    }
}

proof fn lemma_sections_texts_grow(t1: SymbolTree, t2: SymbolTree, s: Seq<char>, secs: Seq<Section>)
    requires
        tree_extends(t1, t2),
        sections_texts_ok(t1, s, secs),
    ensures
        sections_texts_ok(t2, s, secs),
{
    assert forall|i: int| 0 <= i < secs.len() implies subs_texts_ok(t2, s, (#[trigger] secs[i]).items@) by {
        lemma_subs_texts_grow(t1, t2, s, secs[i].items@);
    }
}

/// A field holds no symbol that the tree lacks.
pub open spec fn field_ok<T>(field: Field<T>, n: int) -> bool {
    field matches Some(v) ==> v.sid < n
}

impl<'a> Parser<'a> {
    pub closed spec fn chars(&self) -> Seq<char> {
        self.source.spec_chars()
    }

    /// The diagnostics reported so far.
    pub closed spec fn diags(&self) -> Seq<crate::diagnostics::types::Diagnostic> {
        self.reporter.spec_diagnostics()
    }

    /// The symbols recorded so far.
    pub closed spec fn symbols(&self) -> Seq<Symbol> {
        self.tree.spec_symbols()
    }

    /// The scopes recorded so far.
    pub closed spec fn scopes(&self) -> Seq<Scope> {
        self.tree.spec_scopes()
    }

    /// The comment lines recorded so far.
    pub closed spec fn comments(&self) -> Seq<SymbolRef<String>> {
        self.tree.spec_comments()
    }

    /// The symbols recorded as referring to the key `key`.
    pub closed spec fn key_refs(&self, key: Seq<char>) -> Seq<crate::ast::symbols::SymbolId> {
        self.tree.spec_key_refs(key)
    }

    pub closed spec fn n_symbols(&self) -> int {
        self.tree.spec_symbols().len() as int
    }

    pub closed spec fn n_scopes(&self) -> int {
        self.tree.spec_scopes().len() as int
    }

    pub closed spec fn wf(&self) -> bool {
        &&& self.source.wf()
        &&& self.source.spec_chars().len() <= usize::MAX / 8
        &&& self.tree.wf()
        &&& forall|i: int|
            0 <= i < self.tree.spec_symbols().len() ==> is_span(
                self.source.spec_chars(),
                #[trigger] self.tree.spec_symbols()[i].range,
            )
        &&& self.tree.spec_scopes().len() >= 1
        &&& self.reporter.spec_stage() == ReportStage::Parsing
        &&& forall|i: int|
            0 <= i < self.reporter.spec_diagnostics().len() ==> (#[trigger] self.reporter.spec_diagnostics()[i]).stage
                == ReportStage::Parsing
    }

    /// `self` is `old` with more symbols, scopes and diagnostics.
    pub closed spec fn grown_from(&self, old: &Parser) -> bool {
        &&& self.chars() == old.chars()
        &&& tree_grows(old.tree, self.tree)
        &&& tree_extends(old.tree, self.tree)
    }

    pub fn new(source: &'a str) -> (r: Parser<'a>)
        requires
            source@.len() <= usize::MAX / 8,
        ensures
            r.wf(),
            r.chars() == source@,
            r.diags().len() == 0,
            forall|k: Seq<char>| #[trigger] r.key_refs(k).len() == 0,
    {
        let source = SourceText::new(source);
        let mut tree = SymbolTree::new();
        let n = source.len();
        tree.init_root(source.range(0, n));
        Parser {
            source,
            tree,
            reporter: DiagnosticReporter::new(ReportStage::Parsing),
        }
    }

    fn range(&self, a: usize, b: usize) -> (r: Range)
        requires
            self.wf(),
            a <= b <= self.chars().len(),
        ensures
            r == span(self.chars(), a as int, b as int),
    {
        self.source.range(a, b)
    }

    fn error(&mut self, a: usize, b: usize, kind: DiagnosticKind)
        requires
            old(self).wf(),
            a <= b <= old(self).chars().len(),
        ensures
            final(self).wf(),
            final(self).chars() == old(self).chars(),
            final(self).tree == old(self).tree,
            final(self).diags() == old(self).diags().push(
                Diagnostic {
                    level: DiagnosticLevel::Error,
                    stage: ReportStage::Parsing,
                    kind,
                    range: span(old(self).chars(), a as int, b as int),
                },
            ),
    {
        let range = self.source.range(a, b);
        self.reporter.error(range, kind);
    }

    fn add_symbol(&mut self, kind: SymbolKind, a: usize, b: usize, scope_id: ScopeId) -> (r: usize)
        requires
            old(self).wf(),
            a <= b <= old(self).chars().len(),
            scope_id < old(self).n_scopes(),
        ensures
            final(self).wf(),
            final(self).grown_from(old(self)),
            r == old(self).n_symbols(),
            final(self).n_symbols() == old(self).n_symbols() + 1,
            final(self).n_scopes() == old(self).n_scopes(),
            final(self).symbols() == old(self).symbols().push(
                Symbol { range: span(old(self).chars(), a as int, b as int), kind, scope: scope_id },
            ),
            final(self).comments() == old(self).comments(),
            final(self).diags() == old(self).diags(),
    {
        let range = self.source.range(a, b);
        assert(is_span(self.chars(), range)) by {
            assert(span(self.chars(), a as int, b as int) == range);
        }
        self.tree.add_symbol(kind, range, scope_id)
    }

    fn add_scope(&mut self, kind: ScopeKind, a: usize, b: usize, parent: ScopeId) -> (r: usize)
        requires
            old(self).wf(),
            a <= b <= old(self).chars().len(),
            parent < old(self).n_scopes(),
        ensures
            final(self).wf(),
            final(self).grown_from(old(self)),
            r == old(self).n_scopes(),
            final(self).n_scopes() == old(self).n_scopes() + 1,
            final(self).n_symbols() == old(self).n_symbols(),
            final(self).diags() == old(self).diags(),
            scope_at(final(self).tree, old(self).chars(), r as int, kind, a as int, b as int),
    {
        let range = self.source.range(a, b);
        self.tree.add_scope(kind, range, Some(parent))
    }

    /// The kind of the line whose trimmed text is `a..b`.
    fn classify_line(&self, a: usize, b: usize) -> (r: LineKind)
        requires
            self.wf(),
            a <= b <= self.chars().len(),
        ensures
            r == line_kind(self.chars(), a as int, b as int),
            r matches LineKind::Metadata(c) ==> a < c <= b,
            r matches LineKind::Parameters(c) ==> a < c <= b,
            r matches LineKind::Solfa(l, m) ==> a < l < m < b,
            r matches LineKind::Lyric(l, m) ==> a < l < m < b,
    {
        let ghost s = self.chars();
        if a >= b {
            return LineKind::Blank;
        }
        let ghost t = s.subrange(a as int, b as int);
        if b - a >= 2 && self.source.char_at(a) == ';' && self.source.char_at(a + 1) == ';' {
            assert(t[0] == ';' && t[1] == ';');
            return LineKind::Comment;
        }
        assert(!(t.len() >= 2 && t[0] == ';' && t[1] == ';'));
        if self.source.matches(a, b, "---") {
            return LineKind::HeaderDelimiter;
        }
        if self.source.matches(a, b, "--") {
            return LineKind::SectionSplit;
        }
        if self.source.matches(a, b, "<<") {
            return LineKind::SectionMerge;
        }
        if self.source.matches(a, b, "++") {
            return LineKind::SubSectionDelimiter;
        }
        if self.source.char_at(a) != '[' {
            return LineKind::Unknown;
        }
        let c = self.source.find(a + 1, b, ']');
        if c == b || c == a + 1 {
            return LineKind::Unknown;
        }
        if c == a + 2 && self.source.char_at(a + 1) == '#' {
            return LineKind::Metadata(c + 1);
        }
        if c == a + 2 && self.source.char_at(a + 1) == '$' {
            return LineKind::Parameters(c + 1);
        }
        let d = self.source.digits_end(a + 1, c);
        if d == c {
            proof {
                lemma_digits_all(s, a as int + 1, c as int);
            }
            LineKind::Lyric(a + 1, c)
        } else {
            proof {
                lemma_digits_not_all(s, a as int + 1, c as int);
            }
            LineKind::Solfa(a + 1, c)
        }
    }
}

impl<'a> Parser<'a> {
    /// Reads a number at `a`: digits, then optionally `.` and digits.
    fn lex_number(&self, a: usize, b: usize) -> (r: Option<Scalar>)
        requires
            self.wf(),
            a <= b <= self.chars().len(),
        ensures
            r == spec_lex_number(self.chars(), a as int, b as int),
            r matches Some(sc) ==> {
                &&& sc.start == a
                &&& a < sc.end <= b
                &&& sc.text_start == a
                &&& sc.text_end == sc.end
                &&& (sc.kind == ScalarKind::Integer || sc.kind == ScalarKind::Float)
            },
    {
        let d = self.source.digits_end(a, b);
        if d == a {
            return None;
        }
        if d + 1 < b && self.source.char_at(d) == '.' && self.source.char_at(d + 1) != '.' {
            let f = self.source.digits_end(d + 1, b);
            if f > d + 1 {
                return Some(Scalar { kind: ScalarKind::Float, start: a, end: f, text_start: a, text_end: f });
            }
        }
        Some(Scalar { kind: ScalarKind::Integer, start: a, end: d, text_start: a, text_end: d })
    }

    /// Reads a single value at `a`: a quoted string, or a bare word.
    fn parse_scalar(&mut self, a: usize, b: usize) -> (r: Option<Scalar>)
        requires
            old(self).wf(),
            a < b <= old(self).chars().len(),
        ensures
            final(self).wf(),
            final(self).grown_from(old(self)),
            r == spec_scalar(old(self).chars(), a as int, b as int),
            reports_missing_quote(old(self).diags(), final(self).diags(), old(self).chars(), a as int, b as int),
            r matches Some(sc) ==> {
                &&& sc.start == a
                &&& a < sc.end <= b
                &&& sc.text_start <= sc.text_end <= b
            },
    {
        if self.source.char_at(a) == '"' {
            let q = self.source.find(a + 1, b, '"');
            if q < b {
                return Some(Scalar { kind: ScalarKind::Str, start: a, end: q + 1, text_start: a + 1, text_end: q });
            }
            let ghost before = self.diags();
            self.error(b, b, DiagnosticKind::Missing(crate::text::owned("\"")));
            assert(self.diags().subrange(0, before.len() as int) =~= before);
            return Some(Scalar { kind: ScalarKind::Str, start: a, end: b, text_start: a + 1, text_end: b });
        }
        let w = self.source.word_end(a, b);
        if w == a {
            return None;
        }
        let d = self.source.digits_end(a, w);
        let kind = if d == w {
            ScalarKind::Integer
        } else if d > a && d + 1 < w && self.source.char_at(d) == '.' && self.source.digits_end(d + 1, w) == w {
            ScalarKind::Float
        } else {
            ScalarKind::Word
        };
        Some(Scalar { kind, start: a, end: w, text_start: a, text_end: w })
    }

    /// Reads an item at `a`: a value, optionally followed by `:start` or
    /// `:start..end`.
    fn parse_item(&mut self, a: usize, b: usize) -> (r: Option<Item>)
        requires
            old(self).wf(),
            a < b <= old(self).chars().len(),
        ensures
            final(self).wf(),
            final(self).grown_from(old(self)),
            r == spec_item(old(self).chars(), a as int, b as int),
            reports_missing_quote(old(self).diags(), final(self).diags(), old(self).chars(), a as int, b as int),
            r matches Some(it) ==> {
                &&& it.start == a
                &&& a < it.end <= b
                &&& crate::ast::values::item_ok(it, b as int)
            },
    {
        let value = match self.parse_scalar(a, b) {
            Some(v) => v,
            None => return None,
        };
        let e = value.end;
        if e < b && self.source.char_at(e) == ':' {
            let from = match self.lex_number(e + 1, b) {
                Some(f) => f,
                None => return None,
            };
            let fe = from.end;
            if fe + 2 < b && self.source.char_at(fe) == '.' && self.source.char_at(fe + 1) == '.' {
                let to = match self.lex_number(fe + 2, b) {
                    Some(t) => t,
                    None => return None,
                };
                return Some(Item { value, from: Some(from), to: Some(to), start: a, end: to.end });
            }
            return Some(Item { value, from: Some(from), to: None, start: a, end: fe });
        }
        Some(Item { value, from: None, to: None, start: a, end: e })
    }

    /// Reads the value of an assignment at `a`: a braced list of items
    /// separated by commas, or a single item. An unclosed brace is reported
    /// as missing and the list ends with the line.
    fn parse_value(&mut self, a: usize, b: usize) -> (r: Option<ValueNode>)
        requires
            old(self).wf(),
            a < b <= old(self).chars().len(),
        ensures
            final(self).wf(),
            final(self).grown_from(old(self)),
            match r {
                Some(node) => spec_value_shape(old(self).chars(), a as int, b as int) == Some(shape(node)),
                None => spec_value_shape(old(self).chars(), a as int, b as int) is None,
            },
            final(self).diags().len() >= old(self).diags().len(),
            final(self).diags().take(old(self).diags().len() as int) == old(self).diags(),
            value_reports(
                old(self).chars(),
                a as int,
                b as int,
                final(self).diags().skip(old(self).diags().len() as int),
            ),
            r matches Some(node) ==> {
                &&& node.start == a
                &&& a < node.end <= b
                &&& node_ok(node, b as int)
            },
    {
        let ghost d0 = self.diags();
        if self.source.char_at(a) != '{' {
            let item = self.parse_item(a, b);
            proof {
                lemma_quote_reports(d0, self.diags(), self.chars(), a as int, b as int);
            }
            return match item {
                Some(item) => Some(item_node(item)),
                None => None,
            };
        }
        let ghost s = self.chars();
        let mut items: Vec<Item> = Vec::new();
        let mut pos = self.source.skip_blanks(a + 1, b);
        if pos < b && self.source.char_at(pos) == '}' {
            assert(self.diags().take(d0.len() as int) =~= d0);
            assert(self.diags().skip(d0.len() as int) =~= Seq::<Diagnostic>::empty());
            return Some(ValueNode { is_list: true, start: a, end: pos + 1, items });
        }
        let ghost pos0 = pos as int;
        assert(self.diags().take(d0.len() as int) =~= d0);
        assert forall|x: Seq<Diagnostic>| #[trigger] list_value_reports(s, pos as int, b as int, x) implies list_value_reports(
            s,
            pos0,
            b as int,
            self.diags().skip(d0.len() as int) + x,
        ) by {
            assert(self.diags().skip(d0.len() as int) + x =~= x);
        }
        proof {
            match spec_list_from(s, pos0, b as int) {
                Some((rest, e)) => {
                    assert(items@ + rest =~= rest);
                },
                None => {},
            }
        }
        loop
            invariant
                self.wf(),
                self.grown_from(old(self)),
                s == self.chars(),
                a < pos <= b,
                b <= self.chars().len(),
                forall|k: int| 0 <= k < items@.len() ==> crate::ast::values::item_ok(#[trigger] items@[k], b as int),
                spec_value_shape(s, a as int, b as int) == match spec_list_from(s, pos0, b as int) {
                    Some((its, e)) => Some((true, a as int, e, its)),
                    None => None::<NodeShape>,
                },
                spec_list_from(s, pos0, b as int) == prepend_items(items@, spec_list_from(s, pos as int, b as int)),
                self.diags().len() >= d0.len(),
                self.diags().take(d0.len() as int) == d0,
                d0 == old(self).diags(),
                s[a as int] == '{',
                pos0 == skip_blanks_spec(s, a as int + 1, b as int),
                !(pos0 < b && s[pos0] == '}'),
                forall|x: Seq<Diagnostic>| #[trigger] list_value_reports(s, pos as int, b as int, x) ==> list_value_reports(
                    s,
                    pos0,
                    b as int,
                    self.diags().skip(d0.len() as int) + x,
                ),
            decreases b - pos,
        {
            let ghost dd = self.diags().skip(d0.len() as int);
            if pos >= b {
                assert(items@ + Seq::<Item>::empty() =~= items@);
                self.error(b, b, DiagnosticKind::Missing(crate::text::owned("}")));
                proof {
                    let e = self.diags().last();
                    assert(list_value_reports(s, pos as int, b as int, seq![e]));
                    assert(self.diags().skip(d0.len() as int) =~= dd + seq![e]);
                    assert(self.diags().take(d0.len() as int) =~= d0);
                }
                return Some(ValueNode { is_list: true, start: a, end: b, items });
            }
            let ghost d1 = self.diags();
            let item = self.parse_item(pos, b);
            let ghost q = self.diags().skip(d1.len() as int);
            proof {
                lemma_quote_reports(d1, self.diags(), s, pos as int, b as int);
                assert(self.diags().skip(d0.len() as int) =~= dd + q);
                assert(self.diags().take(d0.len() as int) =~= d0);
                assert(q.take(q.len() as int) =~= q);
            }
            let item = match item {
                Some(it) => it,
                None => {
                    proof {
                        assert(q.skip(q.len() as int) =~= Seq::<Diagnostic>::empty());
                        assert(list_value_reports(s, pos as int, b as int, q));
                    }
                    return None;
                },
            };
            let ghost prefix = items@;
            items.push(item);
            assert(prefix + seq![item] =~= items@);
            let next = self.source.skip_blanks(item.end, b);
            if next >= b {
                self.error(b, b, DiagnosticKind::Missing(crate::text::owned("}")));
                proof {
                    let e = self.diags().last();
                    let x = q + seq![e];
                    assert(x.take(q.len() as int) =~= q);
                    assert(x.skip(q.len() as int) =~= seq![e]);
                    assert(list_value_reports(s, pos as int, b as int, x));
                    assert(self.diags().skip(d0.len() as int) =~= dd + x);
                    assert(self.diags().take(d0.len() as int) =~= d0);
                }
                return Some(ValueNode { is_list: true, start: a, end: b, items });
            }
            let c = self.source.char_at(next);
            if c == '}' || c != ',' {
                proof {
                    assert(q.skip(q.len() as int) =~= Seq::<Diagnostic>::empty());
                    assert(list_value_reports(s, pos as int, b as int, q));
                }
                if c == '}' {
                    return Some(ValueNode { is_list: true, start: a, end: next + 1, items });
                }
                return None;
            }
            let p2 = self.source.skip_blanks(next + 1, b);
            proof {
                match spec_list_from(s, p2 as int, b as int) {
                    Some((rest, e)) => {
                        assert(prefix + (seq![item] + rest) =~= items@ + rest);
                    },
                    None => {},
                }
                assert forall|x: Seq<Diagnostic>| #[trigger] list_value_reports(s, p2 as int, b as int, x) implies list_value_reports(
                    s,
                    pos0,
                    b as int,
                    self.diags().skip(d0.len() as int) + x,
                ) by {
                    let y = q + x;
                    assert(y.take(q.len() as int) =~= q);
                    assert(y.skip(q.len() as int) =~= x);
                    assert(list_value_reports(s, pos as int, b as int, y));
                    assert(dd + y =~= self.diags().skip(d0.len() as int) + x);
                }
            }
            pos = p2;
        }
    }

    /// Reads the assignment that starts at `p`, the first character after the
    /// blanks at `pos`, and returns where reading goes on.
    #[verifier::rlimit(40)]
    #[verifier::spinoff_prover]
    fn read_assignment<T: FieldAssign>(&mut self, pos: usize, p: usize, b: usize, root_sid: ScopeId, params: &mut T) -> (r: usize)
        requires
            old(self).wf(),
            pos <= p < b <= old(self).chars().len(),
            p == skip_blanks_spec(old(self).chars(), pos as int, b as int),
            root_sid < old(self).n_scopes(),
            old(params).fields_ok(old(self).n_symbols()),
        ensures
            final(self).wf(),
            final(self).grown_from(old(self)),
            final(params).fields_ok(final(self).n_symbols()),
            r == assign_next(old(self).chars(), pos as int, b as int),
            pos < r <= b,
            final(self).diags().len() >= old(self).diags().len(),
            final(self).diags().take(old(self).diags().len() as int) == old(self).diags(),
            assign_step(
                old(self).chars(),
                pos as int,
                b as int,
                *old(params),
                *final(params),
                final(self).diags().skip(old(self).diags().len() as int),
            ),
    {
        let ghost s = self.chars();
        let ghost d0 = self.diags();
        let ghost n_start = self.n_symbols();
        let name_end = self.source.word_end(p, b);
        let eq = self.source.skip_blanks(name_end, b);
        let mut value: Option<ValueNode> = None;
        let ghost mut tried = false;
        if name_end > p && eq < b && self.source.char_at(eq) == '=' {
            let v = self.source.skip_blanks(eq + 1, b);
            if v < b {
                value = self.parse_value(v, b);
                proof {
                    tried = true;
                }
            }
        }
        let ghost d1 = self.diags();
        let ghost vk = d1.len() - d0.len();
        proof {
            if !tried {
                assert(d1 == d0);
            }
            assert(d1.skip(d0.len() as int) == d1.subrange(d0.len() as int, d1.len() as int));
        }
        let mut next = b;
        let mut valid = false;
        if let Some(node) = &value {
            let after = self.source.skip_blanks(node.end, b);
            if after == b || self.source.char_at(after) == '|' {
                valid = true;
                next = if after < b {
                    after + 1
                } else {
                    b
                };
            }
        }
        let ghost found = assignment_at(s, p as int, b as int);
        proof {
            let pv = *params;
            pv.lemma_fields_grow(n_start, self.n_symbols());
        }
        if valid && value.is_some() {
            let node = value.unwrap();
            {
                let value_end = node.end;
                let value_start = node.start;
                let scope_id = self.add_scope(ScopeKind::Assignment, p, value_end, root_sid);
                let data = AssignmentData {
                    scope_id,
                    key_name: self.source.text(p, name_end),
                    key_range: self.range(p, name_end),
                    value: node,
                    value_range: self.range(value_start, value_end),
                    full_range: self.range(p, value_end),
                };
                assert(data_spans(self.chars(), data)) by {
                    assert(span(self.chars(), p as int, name_end as int) == data.key_range);
                    assert(span(self.chars(), value_start as int, value_end as int) == data.value_range);
                }
                proof {
                    let pv = *params;
            pv.lemma_fields_grow(n_start, self.n_symbols());
                }
                let ghost before = *params;
                let ghost n_now = self.n_symbols();
                let ghost syms = self.symbols();
                let ghost scs = self.scopes();
                let ghost data_copy = data;
                let ghost d2 = self.diags();
                params.assign_field(data, self);
                proof {
                    let ds = self.diags().skip(d0.len() as int);
                    let rep = T::spec_assign_reports(before, *params, data_copy, s, syms, scs);
                    assert(self.diags() =~= d1 + rep);
                    assert(ds.take(vk) =~= d1.skip(d0.len() as int));
                    assert(ds.skip(vk) =~= rep);
                    assert(T::spec_assigned(before, *params, data_copy, s, n_now));
                    assert(ds.skip(vk) == T::spec_assign_reports(before, *params, data_copy, s, syms, scs));
                    assert(self.diags().take(d0.len() as int) =~= d0);
                    assert(params.fields_ok(self.n_symbols()));
                }
            }
        } else {
            {
                let bar = self.source.find(p, b, '|');
                let ghost d2 = self.diags();
                self.error(p, bar, DiagnosticKind::SyntaxError);
                next = if bar < b {
                    bar + 1
                } else {
                    b
                };
                proof {
                    let ds = self.diags().skip(d0.len() as int);
                    assert(ds.take(vk) =~= d1.skip(d0.len() as int));
                    assert(ds.skip(vk) =~= seq![syntax_error(s, p as int, bar as int)]);
                    assert(self.diags().take(d0.len() as int) =~= d0);
                    assert(params.fields_ok(self.n_symbols()));
                }
            }
        }
        assert(params.fields_ok(self.n_symbols()));
        if next <= pos {
            next = pos + 1;
        }
        next
    }

    /// Reads the assignments of a `[#]` or `[$]` line (`name=value`, separated
    /// by `|`) into `params`. An assignment that does not read is reported as
    /// a syntax error up to the next `|`.
    #[verifier::rlimit(40)]
    fn handle_local_params_node<T: FieldAssign>(
        &mut self,
        a: usize,
        b: usize,
        content: usize,
        parent_sid: ScopeId,
        params: &mut T,
    )
        requires
            old(self).wf(),
            a <= content <= b <= old(self).chars().len(),
            parent_sid < old(self).n_scopes(),
            old(params).fields_ok(old(self).n_symbols()),
        ensures
            final(self).wf(),
            final(self).grown_from(old(self)),
            final(params).fields_ok(final(self).n_symbols()),
            exists|states: Seq<T>, datas: Seq<AssignmentData>, ns: Seq<int>|
                #[trigger] assigned_in_order(
                    *old(params),
                    *final(params),
                    old(self).chars(),
                    assignments_from(old(self).chars(), content as int, b as int),
                    states,
                    datas,
                    ns,
                ),
            final(self).diags().len() >= old(self).diags().len(),
            final(self).diags().take(old(self).diags().len() as int) == old(self).diags(),
            local_reports(
                old(self).chars(),
                content as int,
                b as int,
                *old(params),
                *final(params),
                final(self).diags().skip(old(self).diags().len() as int),
            ),
    {
        let ghost s = self.chars();
        let ghost d0 = self.diags();
        let ghost mut states: Seq<T> = seq![*params];
        let ghost mut datas: Seq<AssignmentData> = Seq::empty();
        let ghost mut ns: Seq<int> = Seq::empty();
        let ghost mut done: Seq<(Seq<char>, NodeShape)> = Seq::empty();
        let root_sid = self.add_scope(ScopeKind::AssignmentLine, a, b, parent_sid);
        let mut pos = content;
        assert(done + assignments_from(s, pos as int, b as int) =~= assignments_from(s, content as int, b as int));
        assert(self.diags().take(d0.len() as int) =~= d0);
        assert forall|F: T, x: Seq<Diagnostic>| #[trigger] local_reports(s, pos as int, b as int, *params, F, x) implies local_reports(
            s,
            content as int,
            b as int,
            *old(params),
            F,
            self.diags().skip(d0.len() as int) + x,
        ) by {
            assert(self.diags().skip(d0.len() as int) + x =~= x);
        }
        while pos < b
            invariant
                self.wf(),
                self.grown_from(old(self)),
                s == self.chars(),
                d0 == old(self).diags(),
                content <= pos <= b,
                b <= self.chars().len(),
                root_sid < self.n_scopes(),
                params.fields_ok(self.n_symbols()),
                done + assignments_from(s, pos as int, b as int) == assignments_from(s, content as int, b as int),
                assigned_in_order(*old(params), *params, s, done, states, datas, ns),
                self.diags().len() >= d0.len(),
                self.diags().take(d0.len() as int) == d0,
                forall|F: T, x: Seq<Diagnostic>| #[trigger] local_reports(s, pos as int, b as int, *params, F, x) ==> local_reports(
                    s,
                    content as int,
                    b as int,
                    *old(params),
                    F,
                    self.diags().skip(d0.len() as int) + x,
                ),
            ensures
                assignments_from(s, pos as int, b as int) == Seq::<(Seq<char>, NodeShape)>::empty(),
                local_reports(s, pos as int, b as int, *params, *params, Seq::<Diagnostic>::empty()),
            decreases b - pos,
        {
            let p = self.source.skip_blanks(pos, b);
            if p == b {
                break;
            }
            let ghost before = *params;
            let ghost dd = self.diags().skip(d0.len() as int);
            let ghost d1 = self.diags();
            let next = self.read_assignment(pos, p, b, root_sid, params);
            proof {
                let step = self.diags().skip(d1.len() as int);
                assert(self.diags() =~= d1 + step);
                assert(self.diags().skip(d0.len() as int) =~= dd + step);
                assert(self.diags().take(d0.len() as int) =~= d0);
                assert forall|F: T, x: Seq<Diagnostic>| #[trigger] local_reports(s, next as int, b as int, *params, F, x) implies local_reports(
                    s,
                    content as int,
                    b as int,
                    *old(params),
                    F,
                    self.diags().skip(d0.len() as int) + x,
                ) by {
                    let y = step + x;
                    assert(y.take(step.len() as int) =~= step);
                    assert(y.skip(step.len() as int) =~= x);
                    assert(assign_step(s, pos as int, b as int, before, *params, y.take(step.len() as int)));
                    assert(local_reports(s, pos as int, b as int, before, F, y));
                    assert(dd + y =~= self.diags().skip(d0.len() as int) + x);
                }
                let found = assignment_at(s, p as int, b as int);
                let rest = assignments_from(s, next as int, b as int);
                let k = choose|k: int|
                    #![trigger step.skip(k)]
                    {
                        &&& 0 <= k <= step.len()
                        &&& match found.0 {
                            Some((name, sh)) => exists|data: AssignmentData, n: int, syms: Seq<Symbol>, scs: Seq<Scope>|
                                #![trigger T::spec_assign_reports(before, *params, data, s, syms, scs), T::spec_assigned(before, *params, data, s, n)]
                                {
                                    &&& data.key_name@ == name
                                    &&& shape(data.value) == sh
                                    &&& T::spec_assigned(before, *params, data, s, n)
                                    &&& step.skip(k) == T::spec_assign_reports(before, *params, data, s, syms, scs)
                                },
                            None => *params == before && step.skip(k) == seq![syntax_error(s, p as int, find_spec(s, p as int, b as int, '|'))],
                        }
                    };
                match found.0 {
                    Some((name, sh)) => {
                        let (data, n, syms, scs) = choose|data: AssignmentData, n: int, syms: Seq<Symbol>, scs: Seq<Scope>|
                            #![trigger T::spec_assign_reports(before, *params, data, s, syms, scs), T::spec_assigned(before, *params, data, s, n)]
                            {
                                &&& data.key_name@ == name
                                &&& shape(data.value) == sh
                                &&& T::spec_assigned(before, *params, data, s, n)
                                &&& step.skip(k) == T::spec_assign_reports(before, *params, data, s, syms, scs)
                            };
                        let prev_states = states;
                        let prev_datas = datas;
                        let prev_done = done;
                        states = states.push(*params);
                        datas = datas.push(data);
                        ns = ns.push(n);
                        done = done.push((name, sh));
                        assert forall|j: int| 0 <= j < done.len() implies {
                            &&& (#[trigger] datas[j]).key_name@ == done[j].0
                            &&& shape(datas[j].value) == done[j].1
                            &&& T::spec_assigned(states[j], states[j + 1], datas[j], s, ns[j])
                        } by {
                            if j < prev_done.len() {
                                assert(datas[j] == prev_datas[j]);
                                assert(states[j] == prev_states[j]);
                                assert(states[j + 1] == prev_states[j + 1]);
                            }
                        }
                        assert(done.drop_last() + (seq![(name, sh)] + rest) =~= done + rest);
                    },
                    None => {
                        assert(states.last() == *params);
                    },
                }
            }
            pos = next;
        }
        assert(done + Seq::<(Seq<char>, NodeShape)>::empty() =~= done);
        assert(self.diags().skip(d0.len() as int) + Seq::<Diagnostic>::empty() =~= self.diags().skip(d0.len() as int));
        assert(assigned_in_order(
            *old(params),
            *params,
            s,
            assignments_from(s, content as int, b as int),
            states,
            datas,
            ns,
        ));
    }

    /// Reads an assignment into one field: a field already set is reported
    /// as reassigned, and the key and value get their symbols.
    fn assign_field<T: ParseNode>(&mut self, data: &AssignmentData, field: &mut Field<T>)
        requires
            old(self).wf(),
            field_ok(*old(field), old(self).n_symbols()),
            data.scope_id < old(self).n_scopes(),
            node_ok(data.value, old(self).chars().len() as int),
            data_spans(old(self).chars(), *data),
        ensures
            final(self).wf(),
            final(self).grown_from(old(self)),
            field_ok(*final(field), final(self).n_symbols()),
            field_assigned(*final(field), *data, old(self).chars(), old(self).n_symbols()),
            final(self).diags() == old(self).diags() + reassignment_reports(
                *old(field),
                *data,
                old(self).symbols(),
                old(self).scopes(),
            ) + T::spec_reports(old(self).chars(), shape(data.value)),
    {
        let previous: Option<usize> = match field {
            Some(v) => Some(v.sid),
            None => None,
        };
        if let Some(sid) = previous {
            let scope_range = self.tree.resolve_scope(sid).range;
            self.reporter.warning(
                data.full_range,
                DiagnosticKind::KeyReassignment(data.key_name.clone(), scope_range),
            );
        }
        let _ = self.tree.add_symbol(SymbolKind::Key(data.key_name.clone()), data.key_range, data.scope_id);
        let sid = self.tree.add_symbol(T::symbol_kind(), data.value_range, data.scope_id);
        assert(sid == old(self).n_symbols() + 1);
        let parsed = T::parse_node(self, &data.value, data.scope_id);
        *field = match parsed {
            Some(value) => Some(SymbolRef { sid, value }),
            None => None,
        };
    }

    /// The text of a node: of its single value, or of all of it.
    fn node_text(&self, node: &ValueNode) -> (r: &'a str)
        requires
            self.wf(),
            node_ok(*node, self.chars().len() as int),
        ensures
            r@ == spec_node_text(self.chars(), shape(*node)),
    {
        match node_scalar(node) {
            Some(sc) => self.source.slice(sc.start, sc.end),
            None => self.source.slice(node.start, node.end),
        }
    }

    /// Reads a decimal number (`12` or `1.5`) exactly; one that does not
    /// fit is reported as an invalid float.
    #[verifier::rlimit(40)]
    fn parse_decimal(&mut self, sc: Scalar) -> (r: Option<Decimal>)
        requires
            old(self).wf(),
            crate::ast::values::scalar_ok(sc, old(self).chars().len() as int),
        ensures
            final(self).wf(),
            final(self).grown_from(old(self)),
            r == spec_decimal(old(self).chars(), sc),
            r matches Some(d) ==> d.denominator > 0,
            final(self).diags() == if r is Some {
                old(self).diags()
            } else {
                old(self).diags().push(
                    Diagnostic {
                        level: DiagnosticLevel::Error,
                        stage: ReportStage::Parsing,
                        kind: DiagnosticKind::InvalidType("float"),
                        range: span(old(self).chars(), sc.start as int, sc.end as int),
                    },
                )
            },
    {
        let ghost s = self.chars();
        proof {
            crate::ast::lexing::lemma_find_bounds(s, sc.start as int, sc.end as int, '.');
        }
        let dot = self.source.find(sc.start, sc.end, '.');
        let mut digits = self.source.text(sc.start, dot);
        let mut denominator: usize = 1;
        if dot < sc.end {
            let fraction = self.source.slice(dot + 1, sc.end);
            digits.append(fraction);
            let mut k = dot + 1;
            while k < sc.end
                invariant
                    self.wf(),
                    self.grown_from(old(self)),
                    self.diags() == old(self).diags(),
                    s == self.chars(),
                    crate::ast::values::scalar_ok(sc, self.chars().len() as int),
                    dot + 1 <= k <= sc.end,
                    dot as int == find_spec(s, sc.start as int, sc.end as int, '.'),
                    denominator == pow10((k - dot - 1) as nat),
                decreases sc.end - k,
            {
                match denominator.checked_mul(10) {
                    Some(d) => denominator = d,
                    None => {
                        proof {
                            lemma_pow10_monotone((k - dot) as nat, decimal_places(s, sc));
                            assert(pow10((k - dot) as nat) == 10 * pow10((k - dot - 1) as nat));
                        }
                        self.error(sc.start, sc.end, DiagnosticKind::InvalidType("float"));
                        return None;
                    },
                }
                k = k + 1;
            }
        }
        proof {
            lemma_pow10_monotone(0, decimal_places(s, sc));
        }
        assert(digits@ == decimal_digits(s, sc));
        match parse_usize(digits.as_str()) {
            Some(numerator) => Some(Decimal { numerator, denominator }),
            None => {
                self.error(sc.start, sc.end, DiagnosticKind::InvalidType("float"));
                None
            },
        }
    }
}

/// A type that a field of the document can hold.
pub trait ParseNode: Sized {
    /// Whether `r` is what a node of shape `sh` reads as, in the text `s`
    /// (`None` where it does not read as a value of the type).
    spec fn spec_parsed(s: Seq<char>, sh: NodeShape, r: Option<Self>) -> bool;

    spec fn spec_symbol_kind() -> SymbolKind;

    spec fn spec_primitive() -> Primitive;

    /// The diagnostics that reading a node of shape `sh` reports, in order.
    spec fn spec_reports(s: Seq<char>, sh: NodeShape) -> Seq<Diagnostic>;

    /// Reads a value of the type, reporting why it does not read.
    fn parse_node(context: &mut Parser, node: &ValueNode, scope_id: ScopeId) -> (r: Option<Self>)
        requires
            old(context).wf(),
            node_ok(*node, old(context).chars().len() as int),
            scope_id < old(context).n_scopes(),
        ensures
            final(context).wf(),
            final(context).grown_from(old(context)),
            Self::spec_parsed(old(context).chars(), shape(*node), r),
            final(context).diags() == old(context).diags() + Self::spec_reports(old(context).chars(), shape(*node)),
    ;

    /// The kind of the symbol that holds a value of the type.
    fn symbol_kind() -> (r: SymbolKind)
        ensures
            r == Self::spec_symbol_kind(),
    ;

    /// The primitive type of a value of the type.
    fn primitive() -> (r: Primitive)
        ensures
            r == Self::spec_primitive(),
    ;
}

/// An error reported over a node of shape `sh`.
pub open spec fn node_error(s: Seq<char>, sh: NodeShape, kind: DiagnosticKind) -> Seq<Diagnostic> {
    seq![Diagnostic { level: DiagnosticLevel::Error, stage: ReportStage::Parsing, kind, range: span(s, sh.1, sh.2) }]
}

/// The diagnostics of reading the items of a list, item after item.
pub open spec fn list_reports<T: ParseNode>(s: Seq<char>, items: Seq<Item>) -> Seq<Diagnostic>
    decreases items.len(),
{
    if items.len() == 0 {
        Seq::empty()
    } else {
        list_reports::<T>(s, items.drop_last()) + T::spec_reports(s, item_shape(items.last()))
    }
}

/// The error of a decimal number that does not fit, if it does not.
pub open spec fn decimal_reports(s: Seq<char>, sc: Scalar) -> Seq<Diagnostic> {
    if spec_decimal(s, sc) is None {
        seq![
            Diagnostic {
                level: DiagnosticLevel::Error,
                stage: ReportStage::Parsing,
                kind: DiagnosticKind::InvalidType("float"),
                range: span(s, sc.start as int, sc.end as int),
            },
        ]
    } else {
        Seq::empty()
    }
}

/// Whether `vals` are the values that the items read as, in order, the
/// items that do not read being left out.
pub open spec fn list_parsed<T: ParseNode>(s: Seq<char>, items: Seq<Item>, vals: Seq<T>) -> bool
    decreases items.len(),
{
    if items.len() == 0 {
        vals.len() == 0
    } else {
        let last = item_shape(items.last());
        ||| T::spec_parsed(s, last, None) && list_parsed(s, items.drop_last(), vals)
        ||| vals.len() > 0 && T::spec_parsed(s, last, Some(vals.last())) && list_parsed(
            s,
            items.drop_last(),
            vals.drop_last(),
        )
    }
}

/// The values of a list of symbols.
pub open spec fn ref_values<T>(refs: Seq<SymbolRef<T>>) -> Seq<T> {
    refs.map_values(|x: SymbolRef<T>| x.value)
}

/// A node read as a non-negative integer: its single value, written as an
/// integer that fits in a `usize`.
pub open spec fn spec_usize_node(s: Seq<char>, sh: NodeShape) -> Option<usize> {
    match shape_scalar(sh) {
        Some(sc) => if sc.kind == ScalarKind::Integer {
            spec_parse_usize(s.subrange(sc.start as int, sc.end as int))
        } else {
            None
        },
        None => None,
    }
}

/// The integers that the items of a list read as, in order.
pub open spec fn spec_usize_items(s: Seq<char>, items: Seq<Item>) -> Seq<usize>
    decreases items.len(),
{
    if items.len() == 0 {
        Seq::empty()
    } else {
        let before = spec_usize_items(s, items.drop_last());
        match spec_usize_node(s, item_shape(items.last())) {
            Some(v) => before.push(v),
            None => before,
        }
    }
}

/// A node read as a list of integers: one for a single value that reads,
/// else those of the items of a list.
pub open spec fn spec_usize_list(s: Seq<char>, sh: NodeShape) -> Option<Seq<usize>> {
    if !sh.0 {
        match spec_usize_node(s, sh) {
            Some(v) => Some(seq![v]),
            None => None,
        }
    } else {
        Some(spec_usize_items(s, sh.3))
    }
}

/// A node read as a time signature: a list of exactly two positive integers.
pub open spec fn spec_time_signature(s: Seq<char>, sh: NodeShape) -> Option<TimeSignature> {
    match spec_usize_list(s, sh) {
        Some(vs) => if vs.len() == 2 && vs[0] > 0 && vs[1] > 0 {
            Some(TimeSignature { top: vs[0], bottom: vs[1] })
        } else {
            None
        },
        None => None,
    }
}

/// Integers read from a list are those of `spec_usize_items`.
pub proof fn lemma_usize_list_parsed(s: Seq<char>, items: Seq<Item>, vals: Seq<usize>)
    requires
        list_parsed::<usize>(s, items, vals),
    ensures
        vals == spec_usize_items(s, items),
    decreases items.len(),
{
    if items.len() > 0 {
        if <usize as ParseNode>::spec_parsed(s, item_shape(items.last()), None) && list_parsed::<usize>(
            s,
            items.drop_last(),
            vals,
        ) {
            lemma_usize_list_parsed(s, items.drop_last(), vals);
        } else {
            lemma_usize_list_parsed(s, items.drop_last(), vals.drop_last());
            assert(vals =~= vals.drop_last().push(vals.last()));
        }
    }
}

/// A field after an assignment of `data`, read in the text `s` when the
/// tree had `n` symbols: the value the assignment reads as, held by the
/// symbol added after the key's, or nothing where it does not read.
pub open spec fn field_assigned<T: ParseNode>(field: Field<T>, data: AssignmentData, s: Seq<char>, n: int) -> bool {
    match field {
        Some(r) => r.sid == n + 1 && T::spec_parsed(s, shape(data.value), Some(r.value)),
        None => T::spec_parsed(s, shape(data.value), None),
    }
}

/// The name and value of a directive line `a..b` (`;; @name value`), if it
/// is one whose value reads.
pub open spec fn directive_line(s: Seq<char>, a: int, b: int) -> Option<(Seq<char>, NodeShape)> {
    let at = skip_blanks_spec(s, a + 2, b);
    if at >= b || s[at] != '@' {
        None
    } else {
        let name_end = word_end_spec(s, at + 1, b);
        let v = skip_blanks_spec(s, name_end, b);
        if name_end == at + 1 || v >= b {
            None
        } else {
            match spec_value_shape(s, v, b) {
                Some(sh) => Some((s.subrange(at + 1, name_end), sh)),
                None => None,
            }
        }
    }
}

/// Where an assignment at `p` (after blanks) ends and whether it reads,
/// within `p..b`: a name, `=`, a value, then the end of the line or `|`.
/// One that does not read runs to the next `|`.
pub open spec fn assignment_at(s: Seq<char>, p: int, b: int) -> (Option<(Seq<char>, NodeShape)>, int) {
    let name_end = word_end_spec(s, p, b);
    let eq = skip_blanks_spec(s, name_end, b);
    let value = if name_end > p && eq < b && s[eq] == '=' && skip_blanks_spec(s, eq + 1, b) < b {
        spec_value_shape(s, skip_blanks_spec(s, eq + 1, b), b)
    } else {
        None
    };
    let bar = find_spec(s, p, b, '|');
    let skipped = if bar < b {
        bar + 1
    } else {
        b
    };
    match value {
        Some(sh) => {
            let after = skip_blanks_spec(s, sh.2, b);
            if after == b {
                (Some((s.subrange(p, name_end), sh)), b)
            } else if s[after] == '|' {
                (Some((s.subrange(p, name_end), sh)), after + 1)
            } else {
                (None, skipped)
            }
        },
        None => (None, skipped),
    }
}

/// The assignments of an assignment line from `pos` to `b` that read: their
/// names and value shapes, in order.
pub open spec fn assignments_from(s: Seq<char>, pos: int, b: int) -> Seq<(Seq<char>, NodeShape)>
    decreases b - pos,
{
    if 0 <= pos < b {
        let p = skip_blanks_spec(s, pos, b);
        if p >= b {
            Seq::empty()
        } else {
            let (found, next) = assignment_at(s, p, b);
            let next2 = if next <= pos {
                pos + 1
            } else {
                next
            };
            if next2 <= b {
                let rest = assignments_from(s, next2, b);
                match found {
                    Some(x) => seq![x] + rest,
                    None => rest,
                }
            } else {
                Seq::empty()
            }
        }
    } else {
        Seq::empty()
    }
}

/// `states` go from `o` to `f`, each the assignment of `datas` in turn
/// (read when the tree had `ns` symbols), and `datas` are the assignments
/// `assigns`: their names and value shapes.
pub open spec fn assigned_in_order<T: FieldAssign>(
    o: T,
    f: T,
    s: Seq<char>,
    assigns: Seq<(Seq<char>, NodeShape)>,
    states: Seq<T>,
    datas: Seq<AssignmentData>,
    ns: Seq<int>,
) -> bool {
    &&& states.len() == assigns.len() + 1
    &&& datas.len() == assigns.len()
    &&& ns.len() == assigns.len()
    &&& states[0] == o
    &&& states.last() == f
    &&& forall|k: int|
        0 <= k < assigns.len() ==> {
            &&& (#[trigger] datas[k]).key_name@ == assigns[k].0
            &&& shape(datas[k].value) == assigns[k].1
            &&& T::spec_assigned(states[k], states[k + 1], datas[k], s, ns[k])
        }
}

/// The warning of an assignment to a field already set: it names the key
/// and the scope of the earlier value, and covers the assignment.
pub open spec fn reassignment_reports<T>(
    field: Field<T>,
    data: AssignmentData,
    symbols: Seq<Symbol>,
    scopes: Seq<Scope>,
) -> Seq<Diagnostic> {
    match field {
        Some(prev) => seq![
            Diagnostic {
                level: DiagnosticLevel::Warning,
                stage: ReportStage::Parsing,
                kind: DiagnosticKind::KeyReassignment(data.key_name, scopes[symbols[prev.sid as int].scope as int].range),
                range: data.full_range,
            },
        ],
        None => Seq::empty(),
    }
}

/// The errors of the dynamic markings of a list whose timestamps do not
/// suit them, each over `range`.
pub open spec fn timing_errors(vals: Seq<SymbolRef<TimedValue<Dynamic>>>, range: Range) -> Seq<Diagnostic>
    decreases vals.len(),
{
    if vals.len() == 0 {
        Seq::empty()
    } else {
        timing_errors(vals.drop_last(), range) + match crate::ast::params::spec_dynamic_timing_error(
            vals.last().value,
        ) {
            Some(kind) => seq![
                Diagnostic { level: DiagnosticLevel::Error, stage: ReportStage::Parsing, kind, range },
            ],
            None => Seq::empty(),
        }
    }
}

/// The errors of the timestamps of a list of dynamic markings, if it is set.
pub open spec fn timing_reports(field: Field<TimedList<Dynamic>>, range: Range) -> Seq<Diagnostic> {
    match field {
        Some(list) => timing_errors(list.value@, range),
        None => Seq::empty(),
    }
}

/// The assignments of the `[#]` lines (`meta`) or of the `[$]` lines
/// (`!meta`) of the header lines from `pos` to `b`, in order.
pub open spec fn header_assigns(s: Seq<char>, pos: int, b: int, meta: bool) -> Seq<(Seq<char>, NodeShape)>
    decreases b - pos,
{
    if 0 <= pos < b && b <= s.len() && b <= usize::MAX {
        let line = line_at(s, pos, b);
        if pos < line.next <= b {
            let here = match line.kind {
                LineKind::Metadata(c) => if meta {
                    assignments_from(s, c as int, line.end as int)
                } else {
                    Seq::empty()
                },
                LineKind::Parameters(c) => if !meta {
                    assignments_from(s, c as int, line.end as int)
                } else {
                    Seq::empty()
                },
                _ => Seq::empty(),
            };
            here + header_assigns(s, line.next as int, b, meta)
        } else {
            Seq::empty()
        }
    } else {
        Seq::empty()
    }
}

/// The value of the last `;; @version` directive of the header lines from
/// `pos` to `b`, if any.
pub open spec fn last_version(s: Seq<char>, pos: int, b: int) -> Option<NodeShape>
    decreases b - pos,
{
    if 0 <= pos < b && b <= s.len() && b <= usize::MAX {
        let line = line_at(s, pos, b);
        if pos < line.next <= b {
            match last_version(s, line.next as int, b) {
                Some(sh) => Some(sh),
                None => if line.kind is Comment {
                    match directive_line(s, line.start as int, line.end as int) {
                        Some((name, sh)) => if name == "version"@ {
                            Some(sh)
                        } else {
                            None
                        },
                        None => None,
                    }
                } else {
                    None
                },
            }
        } else {
            None
        }
    } else {
        None
    }
}

/// Whether a `version` field is what the directive with value `sh` reads
/// as, or unset where there is no such directive.
pub open spec fn version_read(s: Seq<char>, field: Field<String>, sh: Option<NodeShape>) -> bool {
    match sh {
        Some(sh) => match field {
            Some(v) => <String as ParseNode>::spec_parsed(s, sh, Some(v.value)),
            None => <String as ParseNode>::spec_parsed(s, sh, None),
        },
        None => field is None,
    }
}

/// Where the header ends: at the start of the first `---` line from `pos`,
/// or at `b` when there is none.
pub open spec fn header_end_from(s: Seq<char>, pos: int, b: int) -> int
    decreases b - pos,
{
    if 0 <= pos < b && b <= s.len() && b <= usize::MAX {
        let line = line_at(s, pos, b);
        if line.kind is HeaderDelimiter {
            pos
        } else if pos < line.next <= b {
            header_end_from(s, line.next as int, b)
        } else {
            b
        }
    } else {
        b
    }
}

/// The header of a text `s` is read by its lines before the first `---`
/// line: metadata and parameters by the assignments of their lines in
/// order, the version by the last version directive.
pub open spec fn header_read(s: Seq<char>, header: Header) -> bool {
    let e = header_end_from(s, 0, s.len() as int);
    &&& exists|states: Seq<HeaderMetadata>, datas: Seq<AssignmentData>, ns: Seq<int>|
        #[trigger] assigned_in_order(
            HeaderMetadata::spec_empty(),
            header.metadata,
            s,
            header_assigns(s, 0, e, true),
            states,
            datas,
            ns,
        )
    &&& exists|states: Seq<InitialParams>, datas: Seq<AssignmentData>, ns: Seq<int>|
        #[trigger] assigned_in_order(
            no_initial_params(),
            header.params,
            s,
            header_assigns(s, 0, e, false),
            states,
            datas,
            ns,
        )
    &&& version_read(s, header.directives.version, last_version(s, 0, e))
}

/// Parameters with nothing set.
pub open spec fn no_initial_params() -> InitialParams {
    InitialParams { key: None, time: None, tempo: None, voices: None }
}

/// Two runs of assignments, one after the other, make one.
pub proof fn lemma_assigned_concat<T: FieldAssign>(
    o: T,
    m: T,
    f: T,
    s: Seq<char>,
    a1: Seq<(Seq<char>, NodeShape)>,
    st1: Seq<T>,
    d1: Seq<AssignmentData>,
    n1: Seq<int>,
    a2: Seq<(Seq<char>, NodeShape)>,
    st2: Seq<T>,
    d2: Seq<AssignmentData>,
    n2: Seq<int>,
)
    requires
        assigned_in_order(o, m, s, a1, st1, d1, n1),
        assigned_in_order(m, f, s, a2, st2, d2, n2),
    ensures
        assigned_in_order(o, f, s, a1 + a2, st1 + st2.drop_first(), d1 + d2, n1 + n2),
{
    let st = st1 + st2.drop_first();
    let d = d1 + d2;
    let n = n1 + n2;
    let a = a1 + a2;
    assert forall|k: int| 0 <= k < a.len() implies {
        &&& (#[trigger] d[k]).key_name@ == a[k].0
        &&& shape(d[k].value) == a[k].1
        &&& T::spec_assigned(st[k], st[k + 1], d[k], s, n[k])
    } by {
        if k < a1.len() {
            assert(st[k] == st1[k]);
            if k + 1 < st1.len() {
                assert(st[k + 1] == st1[k + 1]);
            } else {
                assert(st[k + 1] == st2[1]);
                assert(st1[k + 1] == st1.last());
                assert(st2[0] == m);
            }
        } else {
            let j = k - a1.len();
            assert(d[k] == d2[j]);
            assert(n[k] == n2[j]);
            assert(a[k] == a2[j]);
            assert(st[k + 1] == st2[j + 1]);
            if j == 0 {
                assert(st[k] == st1.last());
            } else {
                assert(st[k] == st2[j]);
            }
        }
    }
    if a2.len() == 0 {
        assert(st =~= st1);
    } else {
        assert(st.last() == st2.last());
    }
}

/// No assignment leaves the fields as they are.
pub proof fn lemma_assigned_none<T: FieldAssign>(o: T, s: Seq<char>)
    ensures
        assigned_in_order(
            o,
            o,
            s,
            Seq::<(Seq<char>, NodeShape)>::empty(),
            seq![o],
            Seq::<AssignmentData>::empty(),
            Seq::<int>::empty(),
        ),
{
}

/// The shape of the value of an item, without its timestamps.
pub open spec fn plain_shape(item: Item) -> NodeShape {
    item_shape(Item { value: item.value, from: None, to: None, start: item.value.start, end: item.value.end })
}

/// A set of fields that assignments fill.
pub trait FieldAssign: Sized {
    /// The fields hold no symbol that a tree of `n` symbols lacks.
    spec fn fields_ok(&self, n: int) -> bool;

    proof fn lemma_fields_grow(&self, n: int, m: int)
        requires
            self.fields_ok(n),
            n <= m,
        ensures
            self.fields_ok(m),
    ;

    /// Whether `new` is `old` after an assignment of `data`, read in the
    /// text `s` when the tree had `n` symbols.
    spec fn spec_assigned(old: Self, new: Self, data: AssignmentData, s: Seq<char>, n: int) -> bool;

    /// The diagnostics that an assignment of `data` reports, taking the
    /// fields from `old` to `new`, read in the text `s` when the tree had
    /// `symbols` and `scopes`.
    spec fn spec_assign_reports(
        old: Self,
        new: Self,
        data: AssignmentData,
        s: Seq<char>,
        symbols: Seq<Symbol>,
        scopes: Seq<Scope>,
    ) -> Seq<Diagnostic>;

    fn assign_field(&mut self, data: AssignmentData, context: &mut Parser)
        requires
            old(context).wf(),
            old(self).fields_ok(old(context).n_symbols()),
            data.scope_id < old(context).n_scopes(),
            node_ok(data.value, old(context).chars().len() as int),
            data_spans(old(context).chars(), data),
        ensures
            final(context).wf(),
            final(context).grown_from(old(context)),
            final(self).fields_ok(final(context).n_symbols()),
            Self::spec_assigned(*old(self), *final(self), data, old(context).chars(), old(context).n_symbols()),
            final(context).diags() == old(context).diags() + Self::spec_assign_reports(
                *old(self),
                *final(self),
                data,
                old(context).chars(),
                old(context).symbols(),
                old(context).scopes(),
            ),
    ;
}

/// Whether a character opens a pulse: `|` strong, `!` medium, `:` weak.
pub open spec fn is_accent(c: char) -> bool {
    c == '|' || c == '!' || c == ':'
}

/// The accent a pulse opens with.
pub open spec fn spec_accent_of(c: char) -> PulseAccent {
    if c == '|' {
        PulseAccent::Strong
    } else if c == '!' {
        PulseAccent::Medium
    } else {
        PulseAccent::Weak
    }
}

/// The octave shift of a note, from its sign and its digits: the value when
/// it fits in an `i8`, and no shift otherwise.
pub open spec fn octave_of(sign: char, value: Option<usize>) -> i8 {
    match value {
        Some(v) => if v <= 127 {
            if sign == '-' {
                (-(v as int)) as i8
            } else {
                v as i8
            }
        } else if sign == '-' && v == 128 {
            -128i8
        } else {
            0i8
        },
        None => 0i8,
    }
}

/// The note written at `q` and where it ends: a syllable (`d r m f s l t`),
/// then optionally `a` (lowered) or `i` (raised), then optionally a signed
/// octave shift (`+1`, `-2`).
pub open spec fn spec_note_at(s: Seq<char>, q: int, b: int) -> Option<(Note, int)> {
    if q >= b {
        None
    } else {
        match BaseNote::spec_try_from(seq![s[q]]) {
            Err(()) => None,
            Ok(base) => {
                let has_variation = q + 1 < b && (s[q + 1] == 'a' || s[q + 1] == 'i');
                let v = if has_variation { q + 2 } else { q + 1 };
                let variation = if !has_variation {
                    NoteVariation::Base
                } else if s[q + 1] == 'a' {
                    NoteVariation::Lowered
                } else {
                    NoteVariation::Raised
                };
                let d = crate::ast::lexing::digits_end_spec(s, v + 1, b);
                if v < b && (s[v] == '+' || s[v] == '-') && v + 1 < b && d > v + 1 {
                    let octave = octave_of(s[v], crate::text::spec_parse_usize(s.subrange(v + 1, d)));
                    Some((Note { base, variation, octave }, d))
                } else {
                    Some((Note { base, variation, octave: 0 }, v))
                }
            },
        }
    }
}

impl<'a> Parser<'a> {
    /// Reads the note written at `q`, if one is.
    fn parse_note(&self, q: usize, b: usize) -> (r: Option<(Note, usize)>)
        requires
            self.wf(),
            q <= b <= self.chars().len(),
        ensures
            match spec_note_at(self.chars(), q as int, b as int) {
                Some((note, e)) => r == Some((note, e as usize)),
                None => r is None,
            },
            r matches Some((_, e)) ==> q < e <= b,
            spec_note_at(self.chars(), q as int, b as int) matches Some((_, e)) ==> q < e <= b,
    {
        if q >= b {
            return None;
        }
        let base = match BaseNote::try_from(self.source.slice(q, q + 1)) {
            Ok(base) => base,
            Err(()) => {
                proof {
                    assert(self.chars().subrange(q as int, q + 1) =~= seq![self.chars()[q as int]]);
                }
                return None;
            },
        };
        proof {
            assert(self.chars().subrange(q as int, q + 1) =~= seq![self.chars()[q as int]]);
        }
        let has_variation = q + 1 < b && (self.source.char_at(q + 1) == 'a' || self.source.char_at(q + 1) == 'i');
        let v = if has_variation { q + 2 } else { q + 1 };
        let variation = if !has_variation {
            NoteVariation::Base
        } else if self.source.char_at(q + 1) == 'a' {
            NoteVariation::Lowered
        } else {
            NoteVariation::Raised
        };
        if v < b && (self.source.char_at(v) == '+' || self.source.char_at(v) == '-') && v + 1 < b {
            let d = self.source.digits_end(v + 1, b);
            if d > v + 1 {
                let sign = self.source.char_at(v);
                let value = parse_usize(self.source.slice(v + 1, d));
                let octave: i8 = match value {
                    Some(n) => if n <= 127 {
                        let m = n as i8;
                        if sign == '-' {
                            -m
                        } else {
                            m
                        }
                    } else if sign == '-' && n == 128 {
                        -128i8
                    } else {
                        0i8
                    },
                    None => 0i8,
                };
                return Some((Note { base, variation, octave }, d));
            }
        }
        Some((Note { base, variation, octave: 0 }, v))
    }

    /// Reads the token at `q` of a pulse: `.`, `,`, an underline marker,
    /// a prolongation `-`, or a note. Returns the token, if one reads, and
    /// where reading stopped; what does not read is a syntax error.
    fn resolve_pulse_token(&mut self, q: usize, b: usize, scope_id: ScopeId) -> (r: (Option<PulseToken>, usize))
        requires
            old(self).wf(),
            q < b <= old(self).chars().len(),
            scope_id < old(self).n_scopes(),
        ensures
            final(self).wf(),
            final(self).grown_from(old(self)),
            final(self).n_scopes() == old(self).n_scopes(),
            q < r.1 <= b,
            r.0 matches Some(t) ==> t.sid < final(self).n_symbols(),
            r.1 == pulse_token_at(old(self).chars(), q as int, b as int).1,
            match pulse_token_at(old(self).chars(), q as int, b as int).0 {
                Some(kind) => r.0 matches Some(t) && t.value == kind && final(self).diags() == old(self).diags(),
                None => r.0 is None && final(self).diags() == old(self).diags().push(
                    syntax_error(old(self).chars(), q as int, r.1 as int),
                ),
            },
    {
        let c = self.source.char_at(q);
        let (kind, end): (Option<PulseTokenKind>, usize) = if c == '.' {
            (Some(PulseTokenKind::HalfDivision), q + 1)
        } else if c == ',' {
            (Some(PulseTokenKind::QuarterDivision), q + 1)
        } else if c == '`' {
            (Some(PulseTokenKind::UnderlineMarker), q + 1)
        } else if c == '-' {
            (Some(PulseTokenKind::ProlongedNote), q + 1)
        } else {
            match self.parse_note(q, b) {
                Some((note, e)) => (Some(PulseTokenKind::Note(note)), e),
                None => (None, q + 1),
            }
        };
        match kind {
            Some(kind) => {
                let sid = self.add_symbol(SymbolKind::Token, q, end, scope_id);
                (Some(SymbolRef { sid, value: kind }), end)
            },
            None => {
                self.error(q, end, DiagnosticKind::SyntaxError);
                (None, end)
            },
        }
    }

    /// Reads the pulse that stands at `pos..pe`: its accent, then its tokens.
    fn resolve_pulse(&mut self, pos: usize, pe: usize, parent_sid: ScopeId) -> (r: Pulse)
        requires
            old(self).wf(),
            pos < pe <= old(self).chars().len(),
            is_accent(old(self).chars()[pos as int]),
            parent_sid < old(self).n_scopes(),
        ensures
            final(self).wf(),
            final(self).grown_from(old(self)),
            pulse_ids_valid(final(self).tree, r),
            r.tokens@.len() + 1 <= pe - pos,
            r.accent.value == spec_accent_of(old(self).chars()[pos as int]),
            token_kinds_of(r.tokens@) == pulse_scan(old(self).chars(), pos as int + 1, pe as int).0,
            final(self).diags() == old(self).diags() + pulse_scan(old(self).chars(), pos as int + 1, pe as int).1,
    {
        let ghost s = self.chars();
        let scope_id = self.add_scope(ScopeKind::Pulse, pos, pe, parent_sid);
        let c = self.source.char_at(pos);
        let accent = if c == '|' {
            PulseAccent::Strong
        } else if c == '!' {
            PulseAccent::Medium
        } else {
            PulseAccent::Weak
        };
        let accent_sid = self.add_symbol(SymbolKind::Token, pos, pos + 1, scope_id);
        let mut tokens: Vec<PulseToken> = Vec::new();
        let mut q = pos + 1;
        while q < pe
            invariant
                self.wf(),
                self.grown_from(old(self)),
                pos < q <= pe,
                pe <= self.chars().len(),
                scope_id < self.n_scopes(),
                tokens@.len() + 1 <= q - pos,
                forall|k: int| 0 <= k < tokens@.len() ==> (#[trigger] tokens@[k]).sid < self.n_symbols(),
                s == self.chars(),
                token_kinds_of(tokens@) + pulse_scan(s, q as int, pe as int).0 == pulse_scan(s, pos as int + 1, pe as int).0,
                self.diags() + pulse_scan(s, q as int, pe as int).1 == old(self).diags() + pulse_scan(
                    s,
                    pos as int + 1,
                    pe as int,
                ).1,
            decreases pe - q,
        {
            let p = self.source.skip_blanks(q, pe);
            if p == pe {
                assert(token_kinds_of(tokens@) + pulse_scan(s, pe as int, pe as int).0 =~= token_kinds_of(tokens@));
                assert(self.diags() + pulse_scan(s, pe as int, pe as int).1 =~= self.diags());
                q = pe;
            } else {
                let ghost before = tokens@;
                let ghost diags0 = self.diags();
                let (token, end) = self.resolve_pulse_token(p, pe, scope_id);
                if let Some(token) = token {
                    tokens.push(token);
                }
                proof {
                    let rest = pulse_scan(s, end as int, pe as int);
                    if token is Some {
                        assert(token_kinds_of(tokens@) =~= token_kinds_of(before).push(token->0.value));
                        assert(token_kinds_of(before) + (seq![token->0.value] + rest.0) =~= token_kinds_of(tokens@)
                            + rest.0);
                    } else {
                        assert(tokens@ == before);
                        assert(diags0 + (seq![syntax_error(s, p as int, end as int)] + rest.1) =~= self.diags() + rest.1);
                    }
                }
                q = end;
            }
        }
        assert(token_kinds_of(tokens@) + pulse_scan(s, pe as int, pe as int).0 =~= token_kinds_of(tokens@));
        assert(self.diags() + pulse_scan(s, pe as int, pe as int).1 =~= self.diags());
        Pulse { sid: scope_id, accent: SymbolRef { sid: accent_sid, value: accent }, tokens }
    }

    /// Reads a solfa line: the voice of its label, then its pulses up to the
    /// closing `||`. A line with an unknown voice is reported and dropped.
    fn resolve_solfa_line(&mut self, a: usize, b: usize, l: usize, m: usize, parent_sid: ScopeId) -> (r: Option<SolfaLine>)
        requires
            old(self).wf(),
            a < l < m < b <= old(self).chars().len(),
            parent_sid < old(self).n_scopes(),
        ensures
            final(self).wf(),
            final(self).grown_from(old(self)),
            r matches Some(line) ==> {
                &&& solfa_ids_valid(final(self).tree, line)
                &&& line_size(line.pulses@, line.pulses@.len() as int) <= b
                &&& Voice::spec_try_from(old(self).chars().subrange(l as int, m as int)) == Ok::<Voice, ()>(
                    line.voice.value,
                )
            },
            r is None <==> Voice::spec_try_from(old(self).chars().subrange(l as int, m as int)) is Err,
            r is None ==> {
                &&& final(self).diags().len() == old(self).diags().len() + 1
                &&& final(self).diags().drop_last() == old(self).diags()
                &&& final(self).diags().last().kind matches DiagnosticKind::InvalidVoice(t) && t@
                    == old(self).chars().subrange(l as int, m as int)
                &&& final(self).diags().last().level == DiagnosticLevel::Error
                &&& final(self).diags().last().stage == ReportStage::Parsing
                &&& final(self).diags().last().range == span(old(self).chars(), l as int, m as int)
            },
            r matches Some(line) ==> {
                &&& pulse_shapes(line.pulses@) == solfa_scan(old(self).chars(), m as int + 1, b as int).0
                &&& final(self).diags() == old(self).diags() + solfa_scan(old(self).chars(), m as int + 1, b as int).1
            },
    {
        let ghost s = self.chars();
        let sid = self.add_scope(ScopeKind::SolfaLine, a, b, parent_sid);
        let voice_text = self.source.text(l, m);
        let voice_sid = self.add_symbol(SymbolKind::Token, l, m, sid);
        let voice = match Voice::try_from(voice_text.as_str()) {
            Ok(v) => v,
            Err(()) => {
                let ghost d0 = self.diags();
                self.error(l, m, DiagnosticKind::InvalidVoice(voice_text));
                assert(self.diags().drop_last() =~= d0);
                return None;
            },
        };
        let mut pulses: Vec<Pulse> = Vec::new();
        let start = m + 1;
        let mut pos = start;
        let ghost d_start = self.diags();
        assert(pulse_shapes(pulses@) + solfa_scan(s, start as int, b as int).0 =~= solfa_scan(s, start as int, b as int).0);
        while pos < b
            invariant
                self.wf(),
                self.grown_from(old(self)),
                start <= pos <= b,
                b <= self.chars().len(),
                sid < self.n_scopes(),
                line_size(pulses@, pulses@.len() as int) <= pos - start,
                forall|k: int| 0 <= k < pulses@.len() ==> pulse_ids_valid(self.tree, #[trigger] pulses@[k]),
                s == self.chars(),
                pulse_shapes(pulses@) + solfa_scan(s, pos as int, b as int).0 == solfa_scan(s, start as int, b as int).0,
                self.diags() + solfa_scan(s, pos as int, b as int).1 == d_start + solfa_scan(s, start as int, b as int).1,
            decreases b - pos,
        {
            let p = self.source.skip_blanks(pos, b);
            if p == b {
                assert(pulse_shapes(pulses@) + solfa_scan(s, b as int, b as int).0 =~= pulse_shapes(pulses@));
                assert(self.diags() + solfa_scan(s, b as int, b as int).1 =~= self.diags());
                pos = b;
            } else if p + 1 < b && self.source.char_at(p) == '|' && self.source.char_at(p + 1) == '|' {
                let rest = self.source.skip_blanks(p + 2, b);
                let ghost d0 = self.diags();
                if rest < b {
                    self.error(rest, b, DiagnosticKind::SyntaxError);
                    assert(d0 + seq![syntax_error(s, rest as int, b as int)] =~= self.diags());
                }
                assert(pulse_shapes(pulses@) + solfa_scan(s, b as int, b as int).0 =~= pulse_shapes(pulses@));
                assert(self.diags() + solfa_scan(s, b as int, b as int).1 =~= self.diags());
                assert(pulse_shapes(pulses@) + Seq::<(PulseAccent, Seq<PulseTokenKind>)>::empty() =~= pulse_shapes(pulses@));
                pos = b;
            } else {
                let c = self.source.char_at(p);
                if c == '|' || c == '!' || c == ':' {
                    let mut pe = p + 1;
                    while pe < b && !(self.source.char_at(pe) == '|' || self.source.char_at(pe) == '!' || self.source.char_at(pe) == ':')
                        invariant
                            self.wf(),
                            p < pe <= b,
                            b <= self.chars().len(),
                            s == self.chars(),
                            pulse_end(s, p as int + 1, b as int) == pulse_end(s, pe as int, b as int),
                        decreases b - pe,
                    {
                        pe = pe + 1;
                    }
                    let ghost tree_before = self.tree;
                    let ghost before = pulses@;
                    let ghost d0 = self.diags();
                    let pulse = self.resolve_pulse(p, pe, sid);
                    pulses.push(pulse);
                    proof {
                        let rest = solfa_scan(s, pe as int, b as int);
                        let ps = pulse_scan(s, p as int + 1, pe as int);
                        assert(pulse_shapes(pulses@) =~= pulse_shapes(before).push((spec_accent_of(s[p as int]), ps.0)));
                        assert(pulse_shapes(before) + (seq![(spec_accent_of(s[p as int]), ps.0)] + rest.0) =~= pulse_shapes(pulses@)
                            + rest.0);
                        assert(d0 + (ps.1 + rest.1) =~= self.diags() + rest.1);
                        lemma_line_size_push(before, pulse, before.len() as int);
                        assert forall|k: int| 0 <= k < pulses@.len() implies pulse_ids_valid(self.tree, #[trigger] pulses@[k]) by {
                            if k < before.len() {
                                assert(pulses@[k] == before[k]);
                                assert(pulse_ids_valid(tree_before, before[k]));
                            }
                        }
                    }
                    pos = pe;
                } else {
                    let mut pe = p + 1;
                    while pe < b && !(self.source.char_at(pe) == '|' || self.source.char_at(pe) == '!' || self.source.char_at(pe) == ':')
                        invariant
                            self.wf(),
                            p < pe <= b,
                            b <= self.chars().len(),
                            s == self.chars(),
                            pulse_end(s, p as int + 1, b as int) == pulse_end(s, pe as int, b as int),
                        decreases b - pe,
                    {
                        pe = pe + 1;
                    }
                    let ghost d0 = self.diags();
                    self.error(p, pe, DiagnosticKind::SyntaxError);
                    proof {
                        let rest = solfa_scan(s, pe as int, b as int);
                        assert(d0 + (seq![syntax_error(s, p as int, pe as int)] + rest.1) =~= self.diags() + rest.1);
                    }
                    pos = pe;
                }
            }
        }
        assert(pulse_shapes(pulses@) + solfa_scan(s, b as int, b as int).0 =~= pulse_shapes(pulses@));
        assert(self.diags() + solfa_scan(s, b as int, b as int).1 =~= self.diags());
        Some(SolfaLine { sid, voice: SymbolRef { sid: voice_sid, value: voice }, pulses })
    }
}

/// The `@@` anchor that ends a lyric line whose text runs from `start` to
/// `b`, if any: it stands at the very end, alone or after a blank.
pub open spec fn lyric_anchor_at(s: Seq<char>, start: int, b: int) -> Option<Range> {
    if b >= start + 2 && s[b - 2] == '@' && s[b - 1] == '@' && (b - 2 == start || is_blank(s[b - 3])) {
        Some(span(s, b - 2, b))
    } else {
        None
    }
}

/// What the end of a lyric line reports: an anchor after a column is a
/// syntax error; a line that ends with a join or a line break and has no
/// anchor expects one, at that operator.
pub open spec fn anchor_reports(
    s: Seq<char>,
    anchor: Option<Range>,
    tokens: Seq<LyricToken>,
    symbols: Seq<Symbol>,
) -> Seq<Diagnostic> {
    if tokens.len() == 0 {
        Seq::empty()
    } else {
        match tokens.last() {
            LyricToken::Column(_) => match anchor {
                Some(range) => seq![
                    Diagnostic {
                        level: DiagnosticLevel::Error,
                        stage: ReportStage::Parsing,
                        kind: DiagnosticKind::SyntaxError,
                        range,
                    },
                ],
                None => Seq::empty(),
            },
            LyricToken::Operator(op) => if anchor is None && op.value != LyricOperatorKind::Space {
                seq![
                    Diagnostic {
                        level: DiagnosticLevel::Error,
                        stage: ReportStage::Parsing,
                        kind: DiagnosticKind::ExpectedLyricAnchor,
                        range: symbols[op.sid as int].range,
                    },
                ]
            } else {
                Seq::empty()
            },
        }
    }
}

/// A syntax error over `a..b`.
pub open spec fn syntax_error(s: Seq<char>, a: int, b: int) -> Diagnostic {
    Diagnostic { level: DiagnosticLevel::Error, stage: ReportStage::Parsing, kind: DiagnosticKind::SyntaxError, range: span(s, a, b) }
}

/// The token at `p` of a pulse that ends at `pe`: its kind, if one reads
/// there, and where it ends.
pub open spec fn pulse_token_at(s: Seq<char>, p: int, pe: int) -> (Option<PulseTokenKind>, int) {
    let c = s[p];
    if c == '.' {
        (Some(PulseTokenKind::HalfDivision), p + 1)
    } else if c == ',' {
        (Some(PulseTokenKind::QuarterDivision), p + 1)
    } else if c == '`' {
        (Some(PulseTokenKind::UnderlineMarker), p + 1)
    } else if c == '-' {
        (Some(PulseTokenKind::ProlongedNote), p + 1)
    } else {
        match spec_note_at(s, p, pe) {
            Some((note, e)) => (Some(PulseTokenKind::Note(note)), e),
            None => (None, p + 1),
        }
    }
}

/// The tokens of the pulse text `q..pe` (blanks between them skipped), and
/// a syntax error for each character that starts no token.
pub open spec fn pulse_scan(s: Seq<char>, q: int, pe: int) -> (Seq<PulseTokenKind>, Seq<Diagnostic>)
    decreases pe - q,
{
    if q < 0 || q >= pe {
        (Seq::empty(), Seq::empty())
    } else {
        let p = skip_blanks_spec(s, q, pe);
        if p >= pe {
            (Seq::empty(), Seq::empty())
        } else {
            let (k, e) = pulse_token_at(s, p, pe);
            if q < e <= pe {
                let (ts, ds) = pulse_scan(s, e, pe);
                match k {
                    Some(kind) => (seq![kind] + ts, ds),
                    None => (ts, seq![syntax_error(s, p, e)] + ds),
                }
            } else {
                (Seq::empty(), Seq::empty())
            }
        }
    }
}

/// Where the pulse text that goes on from `e` ends: at the next accent
/// character, or at `b`.
pub open spec fn pulse_end(s: Seq<char>, e: int, b: int) -> int
    decreases b - e,
{
    if e >= b || is_accent(s[e]) {
        e
    } else {
        pulse_end(s, e + 1, b)
    }
}

/// The pulses of the solfa text `pos..b` (each its accent and token kinds),
/// up to a closing `||`, and the errors of what does not read: text after
/// the `||`, text that opens with no accent, and the pulses' own errors.
pub open spec fn solfa_scan(s: Seq<char>, pos: int, b: int) -> (Seq<(PulseAccent, Seq<PulseTokenKind>)>, Seq<Diagnostic>)
    decreases b - pos,
{
    if pos < 0 || pos >= b {
        (Seq::empty(), Seq::empty())
    } else {
        let p = skip_blanks_spec(s, pos, b);
        if p >= b {
            (Seq::empty(), Seq::empty())
        } else if p + 1 < b && s[p] == '|' && s[p + 1] == '|' {
            let rest = skip_blanks_spec(s, p + 2, b);
            if rest < b {
                (Seq::empty(), seq![syntax_error(s, rest, b)])
            } else {
                (Seq::empty(), Seq::empty())
            }
        } else {
            let pe = pulse_end(s, p + 1, b);
            if pos < pe <= b {
                let (ps, ds) = solfa_scan(s, pe, b);
                if is_accent(s[p]) {
                    let (ts, pd) = pulse_scan(s, p + 1, pe);
                    (seq![(spec_accent_of(s[p]), ts)] + ps, pd + ds)
                } else {
                    (ps, seq![syntax_error(s, p, pe)] + ds)
                }
            } else {
                (Seq::empty(), Seq::empty())
            }
        }
    }
}

/// The kinds of pulse tokens.
pub open spec fn token_kinds_of(tokens: Seq<PulseToken>) -> Seq<PulseTokenKind> {
    tokens.map_values(|t: PulseToken| t.value)
}

/// Each pulse's accent and token kinds.
pub open spec fn pulse_shapes(pulses: Seq<Pulse>) -> Seq<(PulseAccent, Seq<PulseTokenKind>)> {
    pulses.map_values(|p: Pulse| (p.accent.value, token_kinds_of(p.tokens@)))
}

/// Characters that end a run of lyric text.
pub open spec fn is_lyric_break(c: char) -> bool {
    is_blank(c) || c == '\\' || c == '-' || c == '(' || c == ')' || c == '~'
}

/// The end of the run of lyric text from `e`: the first break at or after
/// it, or `end`.
pub open spec fn lyric_run_end(s: Seq<char>, e: int, end: int) -> int
    decreases end - e,
{
    if e >= end || is_lyric_break(s[e]) {
        e
    } else {
        lyric_run_end(s, e + 1, end)
    }
}

/// Where the lyric column at `pos` ends: after its `)` for a group (or at
/// `end` when unclosed), after a `~` placeholder, or at the end of its run
/// of text.
pub open spec fn lyric_column_end(s: Seq<char>, pos: int, end: int) -> int {
    if s[pos] == '(' {
        let close = find_spec(s, pos + 1, end, ')');
        if close < end {
            close + 1
        } else {
            end
        }
    } else if s[pos] == '~' {
        pos + 1
    } else {
        lyric_run_end(s, pos + 1, end)
    }
}

/// What the lyric tokens of `pos..end` are, in order: an operator (with its
/// kind) or a column (`None`). A run of blanks is a space operator, except
/// at the start of the line or right after another operator; `-` joins and
/// `\\` breaks the line; anything else starts a column. `started` tells
/// whether a token came before, `after_op` whether the last one was an
/// operator.
pub open spec fn lyric_token_kinds(s: Seq<char>, pos: int, end: int, started: bool, after_op: bool) -> Seq<Option<LyricOperatorKind>>
    decreases end - pos,
{
    if pos < 0 || pos >= end {
        Seq::empty()
    } else if is_blank(s[pos]) {
        let next = skip_blanks_spec(s, pos, end);
        let next2 = if next > pos {
            next
        } else {
            pos + 1
        };
        if next2 <= end {
            if started && !after_op {
                seq![Some(LyricOperatorKind::Space)] + lyric_token_kinds(s, next2, end, true, true)
            } else {
                lyric_token_kinds(s, next2, end, started, after_op)
            }
        } else {
            Seq::empty()
        }
    } else if s[pos] == '\\' || s[pos] == '-' {
        let kind = if s[pos] == '-' {
            LyricOperatorKind::Concat
        } else {
            LyricOperatorKind::Newline
        };
        seq![Some(kind)] + lyric_token_kinds(s, pos + 1, end, true, true)
    } else {
        let next = lyric_column_end(s, pos, end);
        if pos < next <= end {
            seq![None] + lyric_token_kinds(s, next, end, true, false)
        } else {
            Seq::empty()
        }
    }
}

/// What the solfa lines from `pos` up to `stop` (in a region ending at `b`)
/// whose voice reads are read as, in order: the voice, then the accent and
/// token kinds of each pulse.
pub open spec fn solfa_lines_from(s: Seq<char>, pos: int, stop: int, b: int) -> Seq<SolfaShape>
    decreases stop - pos,
{
    if 0 <= pos < stop && stop <= b && b <= s.len() && b <= usize::MAX {
        let line = line_at(s, pos, b);
        if pos < line.next <= stop {
            line_solfa(s, line) + solfa_lines_from(s, line.next as int, stop, b)
        } else {
            Seq::empty()
        }
    } else {
        Seq::empty()
    }
}

/// The token kinds of the lyric lines from `pos` up to `stop` (in a region
/// ending at `b`) whose verse reads as a number, in order.
pub open spec fn lyric_lines_from(s: Seq<char>, pos: int, stop: int, b: int) -> Seq<Seq<Option<LyricOperatorKind>>>
    decreases stop - pos,
{
    if 0 <= pos < stop && stop <= b && b <= s.len() && b <= usize::MAX {
        let line = line_at(s, pos, b);
        if pos < line.next <= stop {
            line_lyric(s, line) + lyric_lines_from(s, line.next as int, stop, b)
        } else {
            Seq::empty()
        }
    } else {
        Seq::empty()
    }
}

/// How many lyric lines from `pos` up to `stop` (in a region ending at
/// `b`) have a verse that reads as a number.
pub open spec fn lyric_count_from(s: Seq<char>, pos: int, stop: int, b: int) -> nat
    decreases stop - pos,
{
    if 0 <= pos < stop && stop <= b && b <= s.len() && b <= usize::MAX {
        let line = line_at(s, pos, b);
        if pos < line.next <= stop {
            let rest = lyric_count_from(s, line.next as int, stop, b);
            match line.kind {
                LineKind::Lyric(l, m) => if crate::text::spec_parse_usize(s.subrange(l as int, m as int)) is Some {
                    rest + 1
                } else {
                    rest
                },
                _ => rest,
            }
        } else {
            0
        }
    } else {
        0
    }
}

/// What a solfa line holds: its voice, then the accent and token kinds of
/// each pulse.
pub type SolfaShape = (Voice, Seq<(PulseAccent, Seq<PulseTokenKind>)>);

/// What solfa lines hold, in order.
pub open spec fn solfa_shapes(lines: Seq<SolfaLine>) -> Seq<SolfaShape> {
    lines.map_values(|l: SolfaLine| (l.voice.value, pulse_shapes(l.pulses@)))
}

/// The token kinds of lyric lines, in order.
pub open spec fn lyric_shapes(lines: Seq<LyricLine>) -> Seq<Seq<Option<LyricOperatorKind>>> {
    lines.map_values(|l: LyricLine| token_kinds(l.tokens@))
}

/// The kind of each token: its operator kind, or `None` for a column.
pub open spec fn token_kinds(tokens: Seq<LyricToken>) -> Seq<Option<LyricOperatorKind>> {
    tokens.map_values(
        |t: LyricToken|
            match t {
                LyricToken::Operator(op) => Some(op.value),
                LyricToken::Column(_) => None,
            },
    )
}

impl<'a> Parser<'a> {
    fn lyric_break(&self, i: usize) -> (r: bool)
        requires
            self.wf(),
            i < self.chars().len(),
        ensures
            r == is_lyric_break(self.chars()[i as int]),
    {
        let c = self.source.char_at(i);
        crate::ast::lexing::blank(c) || c == '\\' || c == '-' || c == '(' || c == ')' || c == '~'
    }

    /// Reads the text `x..y` of a lyric string into pieces: runs of text
    /// (stored in the tree), `_` elisions and underline markers.
    fn resolve_lyric_string(&mut self, x: usize, y: usize, scope_id: ScopeId) -> (r: LyricChunk)
        requires
            old(self).wf(),
            x < y <= old(self).chars().len(),
            scope_id < old(self).n_scopes(),
        ensures
            final(self).diags() == old(self).diags(),
            final(self).wf(),
            final(self).grown_from(old(self)),
            r.value matches LyricChunkKind::String(tokens) && tokens@.len() <= y - x,
            chunk_strings_below(r, final(self).n_symbols()),
            chunk_texts_ok(final(self).tree, old(self).chars(), r),
    {
        let ghost s = self.chars();
        let string_scope = self.add_scope(ScopeKind::LyricString, x, y, scope_id);
        let mut tokens: Vec<LyricString> = Vec::new();
        let mut q = x;
        while q < y
            invariant
                self.wf(),
                self.grown_from(old(self)),
                self.diags() == old(self).diags(),
                x <= q <= y,
                y <= self.chars().len(),
                string_scope < self.n_scopes(),
                tokens@.len() <= q - x,
                forall|j: int| 0 <= j < tokens@.len() ==> (#[trigger] tokens@[j]).sid < self.n_symbols(),
                s == self.chars(),
                strings_texts_ok(self.tree, s, tokens@),
            decreases y - q,
        {
            let ghost tree0 = self.tree;
            let ghost tokens0 = tokens@;
            let c = self.source.char_at(q);
            if c == '_' {
                let sid = self.add_symbol(SymbolKind::Token, q, q + 1, string_scope);
                tokens.push(SymbolRef { sid, value: LyricStringKind::SpecialChar(LyricSpecialChar::Elision) });
                q = q + 1;
            } else if c == '`' {
                let sid = self.add_symbol(SymbolKind::Token, q, q + 1, string_scope);
                tokens.push(SymbolRef { sid, value: LyricStringKind::UnderlineMarker });
                q = q + 1;
            } else {
                let mut e = q + 1;
                while e < y && self.source.char_at(e) != '_' && self.source.char_at(e) != '`'
                    invariant
                        self.wf(),
                        q < e <= y,
                        y <= self.chars().len(),
                    decreases y - e,
                {
                    e = e + 1;
                }
                let sid = self.add_symbol(SymbolKind::Token, q, e, string_scope);
                let ghost tree1 = self.tree;
                let text = self.source.text(q, e);
                let id = self.tree.store_lyric_chunk(text);
                proof {
                    lemma_tree_extends_trans(tree0, tree1, self.tree);
                    assert(self.tree.spec_symbols()[sid as int].range == span(s, q as int, e as int));
                    assert(self.tree.spec_lyrics()[id as int] == s.subrange(q as int, e as int));
                    assert(string_text_ok(self.tree, s, SymbolRef { sid, value: LyricStringKind::Reference(id) }));
                }
                tokens.push(SymbolRef { sid, value: LyricStringKind::Reference(id) });
                q = e;
            }
            proof {
                lemma_strings_texts_grow(tree0, self.tree, s, tokens0);
                assert forall|j: int| 0 <= j < tokens@.len() implies string_text_ok(self.tree, s, #[trigger] tokens@[j]) by {
                    if j < tokens0.len() {
                        assert(tokens@[j] == tokens0[j]);
                    }
                }
            }
        }
        let ghost tree2 = self.tree;
        let sid = self.add_symbol(SymbolKind::Token, x, y, scope_id);
        proof {
            lemma_strings_texts_grow(tree2, self.tree, s, tokens@);
        }
        SymbolRef { sid, value: LyricChunkKind::String(tokens) }
    }

    /// Reads the lyric column at `pos`: a `(...)` group of strings, spaces,
    /// line breaks and placeholders, a `~` placeholder, or a single string.
    /// Returns the column and where it ends.
    fn resolve_lyric_column(&mut self, pos: usize, end: usize, scope_id: ScopeId) -> (r: (LyricColumn, usize))
        requires
            old(self).wf(),
            pos < end <= old(self).chars().len(),
            scope_id < old(self).n_scopes(),
        ensures
            final(self).diags() == old(self).diags(),
            final(self).wf(),
            final(self).grown_from(old(self)),
            pos < r.1 <= end,
            r.1 == lyric_column_end(old(self).chars(), pos as int, end as int),
            column_scan(r.0.chunks@, r.0.chunks@.len() as int).4 <= r.1 - pos,
            column_strings_below(r.0, final(self).n_symbols()),
            chunks_texts_ok(final(self).tree, old(self).chars(), r.0.chunks@),
    {
        let ghost s = self.chars();
        let grouped = self.source.char_at(pos) == '(';
        let (inner_start, inner_end, column_end) = if grouped {
            let close = self.source.find(pos + 1, end, ')');
            if close < end {
                (pos + 1, close, close + 1)
            } else {
                (pos + 1, end, end)
            }
        } else if self.source.char_at(pos) == '~' {
            (pos, pos + 1, pos + 1)
        } else {
            let mut e = pos + 1;
            while e < end && !self.lyric_break(e)
                invariant
                    self.wf(),
                    pos < e <= end,
                    end <= self.chars().len(),
                    lyric_run_end(self.chars(), pos as int + 1, end as int) == lyric_run_end(
                        self.chars(),
                        e as int,
                        end as int,
                    ),
                decreases end - e,
            {
                e = e + 1;
            }
            (pos, e, e)
        };
        let sid = self.add_scope(ScopeKind::LyricsColumn, pos, column_end, scope_id);
        let mut chunks: Vec<LyricChunk> = Vec::new();
        let mut q = inner_start;
        proof {
            assert(column_scan(chunks@, 0).4 == 0);
        }
        while q < inner_end
            invariant
                self.wf(),
                self.grown_from(old(self)),
                self.diags() == old(self).diags(),
                pos <= inner_start <= q <= inner_end <= column_end <= end,
                end <= self.chars().len(),
                scope_id < self.n_scopes(),
                column_scan(chunks@, chunks@.len() as int).4 <= q - inner_start,
                forall|k: int| 0 <= k < chunks@.len() ==> chunk_strings_below(#[trigger] chunks@[k], self.n_symbols()),
                s == self.chars(),
                chunks_texts_ok(self.tree, s, chunks@),
            decreases inner_end - q,
        {
            let ghost before = chunks@;
            let ghost n_before = self.n_symbols();
            let ghost tree0 = self.tree;
            let c = self.source.char_at(q);
            let mut next = q + 1;
            let chunk = if crate::ast::lexing::blank(c) {
                next = self.source.skip_blanks(q + 1, inner_end);
                let csid = self.add_symbol(SymbolKind::Token, q, next, scope_id);
                SymbolRef { sid: csid, value: LyricChunkKind::Space }
            } else if c == '\\' {
                let csid = self.add_symbol(SymbolKind::Token, q, q + 1, scope_id);
                SymbolRef { sid: csid, value: LyricChunkKind::Newline }
            } else if c == '~' {
                let csid = self.add_symbol(SymbolKind::Token, q, q + 1, scope_id);
                SymbolRef { sid: csid, value: LyricChunkKind::Placeholder }
            } else {
                let mut e = q + 1;
                while e < inner_end && !self.lyric_break(e)
                    invariant
                        self.wf(),
                        q < e <= inner_end,
                        inner_end <= self.chars().len(),
                    decreases inner_end - e,
                {
                    e = e + 1;
                }
                next = e;
                self.resolve_lyric_string(q, e, scope_id)
            };
            let ghost pushed = chunk;
            chunks.push(chunk);
            proof {
                lemma_column_scan_push(before, pushed, before.len() as int);
                if let LyricChunkKind::String(tokens) = pushed.value {
                    lemma_string_scan_len(tokens@, tokens@.len() as int);
                }
                assert forall|k: int| 0 <= k < chunks@.len() implies chunk_strings_below(#[trigger] chunks@[k], self.n_symbols()) by {
                    if k < before.len() {
                        assert(chunks@[k] == before[k]);
                        assert(chunk_strings_below(before[k], n_before));
                    }
                }
                lemma_chunks_texts_grow(tree0, self.tree, s, before);
                assert(chunk_texts_ok(self.tree, s, pushed));
                assert forall|k: int| 0 <= k < chunks@.len() implies chunk_texts_ok(self.tree, s, #[trigger] chunks@[k]) by {
                    if k < before.len() {
                        assert(chunks@[k] == before[k]);
                    }
                }
            }
            q = next;
        }
        (LyricColumn { sid, span: 1, chunks }, column_end)
    }

    /// Reads the tokens of a lyric line in `start..end`: columns, and the
    /// operators between them (spaces, `-` joins, `\\` line breaks). Spaces
    /// at the start, or right after another operator, are left out.
    fn resolve_lyric_tokens(&mut self, start: usize, end: usize, scope_id: ScopeId) -> (r: Vec<LyricToken>)
        requires
            old(self).wf(),
            start <= end <= old(self).chars().len(),
            scope_id < old(self).n_scopes(),
        ensures
            final(self).diags() == old(self).diags(),
            final(self).wf(),
            final(self).grown_from(old(self)),
            lyric_line_scan(r@, r@.len() as int).2 <= end - start,
            line_strings_below(r@, final(self).n_symbols()),
            forall|k: int| 0 <= k < r@.len() ==> match #[trigger] r@[k] {
                LyricToken::Operator(op) => op.sid < final(self).n_symbols(),
                LyricToken::Column(_) => true,
            },
            token_kinds(r@) == lyric_token_kinds(old(self).chars(), start as int, end as int, false, false),
            tokens_texts_ok(final(self).tree, old(self).chars(), r@),
    {
        let ghost s = self.chars();
        let mut tokens: Vec<LyricToken> = Vec::new();
        assert(token_kinds(tokens@) + lyric_token_kinds(s, start as int, end as int, false, false)
            =~= lyric_token_kinds(s, start as int, end as int, false, false));
        let mut pos = start;
        while pos < end
            invariant
                self.wf(),
                self.grown_from(old(self)),
                self.diags() == old(self).diags(),
                start <= pos <= end,
                end <= self.chars().len(),
                scope_id < self.n_scopes(),
                lyric_line_scan(tokens@, tokens@.len() as int).2 <= pos - start,
                line_strings_below(tokens@, self.n_symbols()),
                forall|k: int| 0 <= k < tokens@.len() ==> match #[trigger] tokens@[k] {
                    LyricToken::Operator(op) => op.sid < self.n_symbols(),
                    LyricToken::Column(_) => true,
                },
                s == self.chars(),
                tokens_texts_ok(self.tree, s, tokens@),
                token_kinds(tokens@) + lyric_token_kinds(
                    s,
                    pos as int,
                    end as int,
                    tokens@.len() > 0,
                    tokens@.len() > 0 && tokens@.last() is Operator,
                ) == lyric_token_kinds(s, start as int, end as int, false, false),
            decreases end - pos,
        {
            let ghost before = tokens@;
            let ghost pos0 = pos as int;
            let ghost n_before = self.n_symbols();
            let ghost tree0 = self.tree;
            let c = self.source.char_at(pos);
            let last_is_operator = tokens.len() > 0 && tokens[tokens.len() - 1].is_operator();
            if crate::ast::lexing::blank(c) {
                let next = self.source.skip_blanks(pos, end);
                if tokens.len() > 0 && !last_is_operator {
                    let sid = self.add_symbol(SymbolKind::Token, pos, next, scope_id);
                    tokens.push(LyricToken::Operator(SymbolRef { sid, value: LyricOperatorKind::Space }));
                }
                pos = if next > pos { next } else { pos + 1 };
            } else if c == '\\' || c == '-' {
                let kind = if c == '-' {
                    LyricOperatorKind::Concat
                } else {
                    LyricOperatorKind::Newline
                };
                let sid = self.add_symbol(SymbolKind::Token, pos, pos + 1, scope_id);
                tokens.push(LyricToken::Operator(SymbolRef { sid, value: kind }));
                pos = pos + 1;
            } else {
                let (column, next) = self.resolve_lyric_column(pos, end, scope_id);
                tokens.push(LyricToken::Column(column));
                pos = next;
            }
            proof {
                if tokens@.len() > before.len() {
                    lemma_line_scan_push(before, tokens@.last(), before.len() as int);
                    assert(tokens@ == before.push(tokens@.last()));
                    assert(token_kinds(tokens@) =~= token_kinds(before).push(token_kinds(tokens@).last()));
                    let rest = lyric_token_kinds(s, pos as int, end as int, true, tokens@.last() is Operator);
                    assert(token_kinds(before) + (seq![token_kinds(tokens@).last()] + rest) =~= token_kinds(tokens@)
                        + rest);
                } else {
                    assert(tokens@ == before);
                }
                lemma_tokens_texts_grow(tree0, self.tree, s, before);
                assert forall|k: int| 0 <= k < tokens@.len() implies token_texts_ok(self.tree, s, #[trigger] tokens@[k]) by {
                    if k < before.len() {
                        assert(tokens@[k] == before[k]);
                    }
                }
                assert forall|k: int| 0 <= k < tokens@.len() implies token_strings_below(#[trigger] tokens@[k], self.n_symbols()) by {
                    if k < before.len() {
                        assert(tokens@[k] == before[k]);
                        assert(token_strings_below(before[k], n_before));
                        if let LyricToken::Column(col) = before[k] {
                            assert forall|j: int| 0 <= j < col.chunks@.len() implies chunk_strings_below(#[trigger] col.chunks@[j], self.n_symbols()) by {
                                assert(chunk_strings_below(col.chunks@[j], n_before));
                            }
                        }
                    }
                }
            }
        }
        tokens
    }

    /// Reads a lyric line: its verse number (a mismatch with its place is a
    /// warning), its tokens (blanks at its end read as nothing), and the `@@`
    /// anchor it may end with. A line that
    /// ends with a join or a line break needs an anchor; an anchor after a
    /// column is a syntax error.
    fn resolve_lyric_line(
        &mut self,
        a: usize,
        b: usize,
        l: usize,
        m: usize,
        parent_sid: ScopeId,
        expected_verse: usize,
    ) -> (r: Option<LyricLine>)
        requires
            old(self).wf(),
            a < l < m < b <= old(self).chars().len(),
            parent_sid < old(self).n_scopes(),
        ensures
            final(self).wf(),
            final(self).grown_from(old(self)),
            r matches Some(line) ==> {
                &&& lyric_ids_valid(final(self).tree, line)
                &&& lyric_line_width(line) <= b
                &&& line.verse == expected_verse
                &&& tokens_texts_ok(final(self).tree, old(self).chars(), line.tokens@)
            },
            r is None <==> crate::text::spec_parse_usize(old(self).chars().subrange(l as int, m as int)) is None,
            final(self).diags() == old(self).diags() + match crate::text::spec_parse_usize(
                old(self).chars().subrange(l as int, m as int),
            ) {
                None => node_error(old(self).chars(), (false, l as int, m as int, Seq::empty()), DiagnosticKind::InvalidType("integer")),
                Some(verse) => (if verse != expected_verse {
                    seq![
                        Diagnostic {
                            level: DiagnosticLevel::Warning,
                            stage: ReportStage::Parsing,
                            kind: DiagnosticKind::MismatchedVerseIndex(expected_verse, verse),
                            range: span(old(self).chars(), l as int, m as int),
                        },
                    ]
                } else {
                    Seq::empty()
                }) + match r {
                    Some(line) => anchor_reports(
                        old(self).chars(),
                        lyric_anchor_at(old(self).chars(), m as int + 1, b as int),
                        line.tokens@,
                        final(self).symbols(),
                    ),
                    None => Seq::empty(),
                },
            },
            r matches Some(line) ==> token_kinds(line.tokens@) == lyric_token_kinds(
                old(self).chars(),
                m as int + 1,
                trim_end_spec(
                    old(self).chars(),
                    m as int + 1,
                    if lyric_anchor_at(old(self).chars(), m as int + 1, b as int) is Some {
                        b - 2
                    } else {
                        b as int
                    },
                ),
                false,
                false,
            ),
            r matches Some(line) ==> line.anchor == match lyric_anchor_at(old(self).chars(), m as int + 1, b as int) {
                Some(range) => if line.tokens@.len() > 0 && line.tokens@.last() is Operator {
                    Some(range)
                } else {
                    None
                },
                None => None,
            },
    {
        let sid = self.add_scope(ScopeKind::LyricLine, a, b, parent_sid);
        let verse = match parse_usize(self.source.slice(l, m)) {
            Some(v) => v,
            None => {
                self.error(l, m, DiagnosticKind::InvalidType("integer"));
                return None;
            },
        };
        if verse != expected_verse {
            let range = self.range(l, m);
            self.reporter.warning(range, DiagnosticKind::MismatchedVerseIndex(expected_verse, verse));
        }
        let start = m + 1;
        let mut content_end = b;
        let mut anchor: Option<Range> = None;
        if b >= start + 2 && self.source.char_at(b - 2) == '@' && self.source.char_at(b - 1) == '@'
            && (b - 2 == start || crate::ast::lexing::blank(self.source.char_at(b - 3))) {
            anchor = Some(self.range(b - 2, b));
            content_end = b - 2;
        }
        let content_end = self.source.trim_end(start, content_end);
        let tokens = self.resolve_lyric_tokens(start, content_end, sid);
        let n = tokens.len();
        let mut kept_anchor: Option<Range> = None;
        if n > 0 {
            match &tokens[n - 1] {
                LyricToken::Column(_) => {
                    if let Some(range) = anchor {
                        self.reporter.error(range, DiagnosticKind::SyntaxError);
                    }
                },
                LyricToken::Operator(op) => {
                    match anchor {
                        Some(range) => {
                            kept_anchor = Some(range);
                        },
                        None => {
                            if op.value != LyricOperatorKind::Space {
                                let range = self.tree.get_symbol_range(op.sid);
                                self.reporter.error(range, DiagnosticKind::ExpectedLyricAnchor);
                            }
                        },
                    }
                },
            }
        }
        proof {
            lemma_line_marks_below_strings(tokens@, tokens@.len() as int, self.n_symbols());
        }
        Some(LyricLine { sid, verse: expected_verse, anchor: kept_anchor, tokens })
    }
}

/// One line of a region: its trimmed text `start..end`, its kind, and where
/// the next line starts.
#[derive(Debug, Clone, Copy)]
pub struct LineInfo {
    pub start: usize,
    pub end: usize,
    pub next: usize,
    pub kind: LineKind,
}

impl<'a> Parser<'a> {
    /// The line that starts at `pos`, within a region ending at `b`.
    fn next_line(&self, pos: usize, b: usize) -> (r: LineInfo)
        requires
            self.wf(),
            pos < b <= self.chars().len(),
        ensures
            r == line_at(self.chars(), pos as int, b as int),
            pos <= r.start <= r.end <= b,
            pos < r.next <= b,
            r.end < r.next || r.next == b,
            r.kind == line_kind(self.chars(), r.start as int, r.end as int),
            r.kind matches LineKind::Metadata(c) ==> r.start < c <= r.end,
            r.kind matches LineKind::Parameters(c) ==> r.start < c <= r.end,
            r.kind matches LineKind::Solfa(l, m) ==> r.start < l < m < r.end,
            r.kind matches LineKind::Lyric(l, m) ==> r.start < l < m < r.end,
    {
        let le = self.source.find(pos, b, '\n');
        let ts = self.source.skip_blanks(pos, le);
        let te = self.source.trim_end(ts, le);
        let kind = self.classify_line(ts, te);
        let next = if le < b {
            le + 1
        } else {
            b
        };
        LineInfo { start: ts, end: te, next, kind }
    }

    /// Whether some line of `a..b` is neither blank nor a comment.
    fn has_content(&self, a: usize, b: usize) -> (r: bool)
        requires
            self.wf(),
            a <= b <= self.chars().len(),
        ensures
            r == has_content_from(self.chars(), a as int, b as int, b as int),
    {
        let mut pos = a;
        while pos < b
            invariant
                self.wf(),
                a <= pos <= b,
                b <= self.chars().len(),
                has_content_from(self.chars(), a as int, b as int, b as int) == has_content_from(
                    self.chars(),
                    pos as int,
                    b as int,
                    b as int,
                ),
            decreases b - pos,
        {
            let line = self.next_line(pos, b);
            match line.kind {
                LineKind::Blank | LineKind::Comment => {},
                _ => return true,
            }
            pos = line.next;
        }
        false
    }

    /// Records a delimiter line `a..b`.
    fn add_delimiter(&mut self, delims: &mut Vec<Delimiter>, a: usize, b: usize, kind: DelimiterKind)
        requires
            old(self).wf(),
            a <= b <= old(self).chars().len(),
        ensures
            final(self).wf(),
            final(self).grown_from(old(self)),
            final(delims)@ == old(delims)@.push(Delimiter { kind, range: span(old(self).chars(), a as int, b as int) }),
            final(self).diags() == old(self).diags(),
    {
        let range = self.range(a, b);
        delims.push(Delimiter { kind, range });
        self.tree.store_delimiter(range, kind);
    }

    /// Records a comment line, with its text.
    fn handle_comment_node(&mut self, a: usize, b: usize)
        requires
            old(self).wf(),
            a <= b <= old(self).chars().len(),
        ensures
            final(self).wf(),
            final(self).grown_from(old(self)),
            final(self).symbols() == old(self).symbols().push(
                Symbol { range: span(old(self).chars(), a as int, b as int), kind: SymbolKind::Token, scope: 0 },
            ),
            final(self).comments().len() == old(self).comments().len() + 1,
            final(self).comments().drop_last() == old(self).comments(),
            final(self).comments().last().sid == old(self).n_symbols(),
            final(self).comments().last().value@ == old(self).chars().subrange(a as int, b as int),
            final(self).diags() == old(self).diags(),
    {
        let sid = self.add_symbol(SymbolKind::Token, a, b, 0);
        let value = self.source.text(a, b);
        self.tree.store_comment(SymbolRef { sid, value });
        assert(self.comments().drop_last() =~= old(self).comments());
    }

    /// Reads a directive line (`;; @name value`) into the directives.
    fn handle_directive(&mut self, a: usize, b: usize, parent_sid: ScopeId, directives: &mut DirectiveMap)
        requires
            old(self).wf(),
            a + 2 <= b <= old(self).chars().len(),
            parent_sid < old(self).n_scopes(),
            old(directives).fields_ok(old(self).n_symbols()),
        ensures
            final(self).wf(),
            final(self).grown_from(old(self)),
            final(directives).fields_ok(final(self).n_symbols()),
            match directive_line(old(self).chars(), a as int, b as int) {
                Some((name, sh)) => if name == "version"@ {
                    match final(directives).version {
                        Some(r) => <String as ParseNode>::spec_parsed(old(self).chars(), sh, Some(r.value)),
                        None => <String as ParseNode>::spec_parsed(old(self).chars(), sh, None),
                    }
                } else {
                    *final(directives) == *old(directives)
                },
                None => *final(directives) == *old(directives),
            },
            final(self).diags().len() >= old(self).diags().len(),
            final(self).diags().take(old(self).diags().len() as int) == old(self).diags(),
            directive_reports(old(self).chars(), a as int, b as int, final(self).diags().skip(old(self).diags().len() as int)),
    {
        let ghost s = self.chars();
        let ghost d0 = self.diags();
        proof {
            assert(d0.take(d0.len() as int) =~= d0);
            assert(d0.skip(d0.len() as int) =~= Seq::<Diagnostic>::empty());
        }
        let at = self.source.skip_blanks(a + 2, b);
        if at >= b || self.source.char_at(at) != '@' {
            return;
        }
        let name_end = self.source.word_end(at + 1, b);
        let v = self.source.skip_blanks(name_end, b);
        if name_end == at + 1 || v >= b {
            return;
        }
        let ghost n0 = self.n_symbols();
        let value = self.parse_value(v, b);
        let ghost d1 = self.diags();
        let ghost vk = d1.len() - d0.len();
        proof {
            let ds = d1.skip(d0.len() as int);
            assert(ds.take(vk) =~= ds);
            if value is None {
                assert(ds.skip(vk).len() == 0);
            }
        }
        proof {
            directives.lemma_fields_grow(n0, self.n_symbols());
        }
        if let Some(node) = value {
            let line_sid = self.add_scope(ScopeKind::DirectiveLine, a, b, parent_sid);
            let value_start = node.start;
            let value_end = node.end;
            let data = AssignmentData {
                scope_id: line_sid,
                key_name: self.source.text(at + 1, name_end),
                key_range: self.range(at + 1, name_end),
                value: node,
                value_range: self.range(value_start, value_end),
                full_range: self.range(at, value_end),
            };
            assert(data_spans(self.chars(), data)) by {
                assert(span(self.chars(), at as int + 1, name_end as int) == data.key_range);
                assert(span(self.chars(), value_start as int, value_end as int) == data.value_range);
            }
            let ghost before = *directives;
            let ghost syms = self.symbols();
            let ghost scs = self.scopes();
            let ghost data_copy = data;
            directives.assign_field(data, self);
            proof {
                let ds = self.diags().skip(d0.len() as int);
                let rep = DirectiveMap::spec_assign_reports(before, *directives, data_copy, s, syms, scs);
                assert(self.diags() =~= d1 + rep);
                assert(ds.take(vk) =~= d1.skip(d0.len() as int));
                assert(ds.skip(vk) =~= rep);
                assert(self.diags().take(d0.len() as int) =~= d0);
            }
        }
    }

    /// Reads the header `a..b`: its metadata, parameter and directive lines.
    /// The metadata and the parameters are set by the assignments of their
    /// lines in order, and the version by the last version directive.
    #[verifier::rlimit(60)]
    fn handle_header_node(&mut self, a: usize, b: usize) -> (r: Header)
        requires
            old(self).wf(),
            a <= b <= old(self).chars().len(),
        ensures
            final(self).wf(),
            final(self).grown_from(old(self)),
            r.sid < final(self).n_scopes(),
            r.sid == old(self).n_scopes(),
            exists|states: Seq<HeaderMetadata>, datas: Seq<AssignmentData>, ns: Seq<int>|
                #[trigger] assigned_in_order(
                    HeaderMetadata::spec_empty(),
                    r.metadata,
                    old(self).chars(),
                    header_assigns(old(self).chars(), a as int, b as int, true),
                    states,
                    datas,
                    ns,
                ),
            exists|states: Seq<InitialParams>, datas: Seq<AssignmentData>, ns: Seq<int>|
                #[trigger] assigned_in_order(
                    no_initial_params(),
                    r.params,
                    old(self).chars(),
                    header_assigns(old(self).chars(), a as int, b as int, false),
                    states,
                    datas,
                    ns,
                ),
            version_read(old(self).chars(), r.directives.version, last_version(old(self).chars(), a as int, b as int)),
            final(self).diags().len() >= old(self).diags().len(),
            final(self).diags().take(old(self).diags().len() as int) == old(self).diags(),
            header_reports(old(self).chars(), a as int, b as int, final(self).diags().skip(old(self).diags().len() as int)),
    {
        let ghost s = self.chars();
        let ghost d0 = self.diags();
        let sid = self.add_scope(ScopeKind::Header, a, b, 0);
        let mut header = Header::new(sid);
        let ghost mut m_done: Seq<(Seq<char>, NodeShape)> = Seq::empty();
        let ghost mut m_st: Seq<HeaderMetadata> = seq![header.metadata];
        let ghost mut m_d: Seq<AssignmentData> = Seq::empty();
        let ghost mut m_n: Seq<int> = Seq::empty();
        let ghost mut p_done: Seq<(Seq<char>, NodeShape)> = Seq::empty();
        let ghost mut p_st: Seq<InitialParams> = seq![header.params];
        let ghost mut p_d: Seq<AssignmentData> = Seq::empty();
        let ghost mut p_n: Seq<int> = Seq::empty();
        let ghost mut seen: Option<NodeShape> = None;
        let mut pos = a;
        proof {
            assert(header.params == no_initial_params());
            lemma_assigned_none(header.metadata, s);
            lemma_assigned_none(header.params, s);
            assert(m_done + header_assigns(s, a as int, b as int, true) =~= header_assigns(s, a as int, b as int, true));
            assert(p_done + header_assigns(s, a as int, b as int, false) =~= header_assigns(s, a as int, b as int, false));
        }
        assert(self.diags().take(d0.len() as int) =~= d0);
        assert forall|x: Seq<Diagnostic>| #[trigger] header_reports(s, pos as int, b as int, x) implies header_reports(
            s,
            a as int,
            b as int,
            self.diags().skip(d0.len() as int) + x,
        ) by {
            assert(self.diags().skip(d0.len() as int) + x =~= x);
        }
        while pos < b
            invariant
                d0 == old(self).diags(),
                self.diags().len() >= d0.len(),
                self.diags().take(d0.len() as int) == d0,
                forall|x: Seq<Diagnostic>| #[trigger] header_reports(s, pos as int, b as int, x) ==> header_reports(
                    s,
                    a as int,
                    b as int,
                    self.diags().skip(d0.len() as int) + x,
                ),
                self.wf(),
                self.grown_from(old(self)),
                s == self.chars(),
                a <= pos <= b,
                b <= self.chars().len(),
                header.sid == sid,
                sid == old(self).n_scopes(),
                sid < self.n_scopes(),
                header.metadata.fields_ok(self.n_symbols()),
                header.params.fields_ok(self.n_symbols()),
                header.directives.fields_ok(self.n_symbols()),
                assigned_in_order(HeaderMetadata::spec_empty(), header.metadata, s, m_done, m_st, m_d, m_n),
                m_done + header_assigns(s, pos as int, b as int, true) == header_assigns(s, a as int, b as int, true),
                assigned_in_order(no_initial_params(), header.params, s, p_done, p_st, p_d, p_n),
                p_done + header_assigns(s, pos as int, b as int, false) == header_assigns(s, a as int, b as int, false),
                version_read(s, header.directives.version, seen),
                match last_version(s, pos as int, b as int) {
                    Some(x) => Some(x),
                    None => seen,
                } == last_version(s, a as int, b as int),
            decreases b - pos,
        {
            let ghost n0 = self.n_symbols();
            let ghost d1 = self.diags();
            let ghost dd = self.diags().skip(d0.len() as int);
            let line = self.next_line(pos, b);
            let ghost rest_m = header_assigns(s, line.next as int, b as int, true);
            let ghost rest_p = header_assigns(s, line.next as int, b as int, false);
            match line.kind {
                LineKind::Blank => {
                    assert(self.diags().skip(d1.len() as int) =~= Seq::<Diagnostic>::empty());
                    assert(m_done + rest_m =~= m_done + header_assigns(s, pos as int, b as int, true));
                    assert(p_done + rest_p =~= p_done + header_assigns(s, pos as int, b as int, false));
                },
                LineKind::Comment => {
                    self.handle_comment_node(line.start, line.end);
                    proof {
                        header.directives.lemma_fields_grow(n0, self.n_symbols());
                    }
                    let ghost n1 = self.n_symbols();
                    self.handle_directive(line.start, line.end, sid, &mut header.directives);
                    proof {
                        assert(header_line_reports(s, line, self.diags().skip(d1.len() as int)));
                        header.metadata.lemma_fields_grow(n0, self.n_symbols());
                        header.params.lemma_fields_grow(n0, self.n_symbols());
                        assert(m_done + rest_m =~= m_done + header_assigns(s, pos as int, b as int, true));
                        assert(p_done + rest_p =~= p_done + header_assigns(s, pos as int, b as int, false));
                        match directive_line(s, line.start as int, line.end as int) {
                            Some((name, sh)) => {
                                if name == "version"@ {
                                    seen = Some(sh);
                                }
                            },
                            None => {},
                        }
                    }
                },
                LineKind::Metadata(c) => {
                    let ghost before = header.metadata;
                    self.handle_local_params_node(line.start, line.end, c, sid, &mut header.metadata);
                    proof {
                        assert(local_reports(s, c as int, line.end as int, before, header.metadata, self.diags().skip(d1.len() as int)));
                        assert(header_line_reports(s, line, self.diags().skip(d1.len() as int)));
                        header.params.lemma_fields_grow(n0, self.n_symbols());
                        header.directives.lemma_fields_grow(n0, self.n_symbols());
                        let here = assignments_from(s, c as int, line.end as int);
                        let (st2, d2, n2) = choose|st2: Seq<HeaderMetadata>, d2: Seq<AssignmentData>, n2: Seq<int>|
                            #[trigger] assigned_in_order(before, header.metadata, s, here, st2, d2, n2);
                        lemma_assigned_concat(
                            HeaderMetadata::spec_empty(),
                            before,
                            header.metadata,
                            s,
                            m_done,
                            m_st,
                            m_d,
                            m_n,
                            here,
                            st2,
                            d2,
                            n2,
                        );
                        assert((m_done + here) + rest_m =~= m_done + header_assigns(s, pos as int, b as int, true));
                        m_st = m_st + st2.drop_first();
                        m_d = m_d + d2;
                        m_n = m_n + n2;
                        m_done = m_done + here;
                        assert(p_done + rest_p =~= p_done + header_assigns(s, pos as int, b as int, false));
                    }
                },
                LineKind::Parameters(c) => {
                    let ghost before = header.params;
                    self.handle_local_params_node(line.start, line.end, c, sid, &mut header.params);
                    proof {
                        assert(local_reports(s, c as int, line.end as int, before, header.params, self.diags().skip(d1.len() as int)));
                        assert(header_line_reports(s, line, self.diags().skip(d1.len() as int)));
                        header.metadata.lemma_fields_grow(n0, self.n_symbols());
                        header.directives.lemma_fields_grow(n0, self.n_symbols());
                        let here = assignments_from(s, c as int, line.end as int);
                        let (st2, d2, n2) = choose|st2: Seq<InitialParams>, d2: Seq<AssignmentData>, n2: Seq<int>|
                            #[trigger] assigned_in_order(before, header.params, s, here, st2, d2, n2);
                        lemma_assigned_concat(
                            no_initial_params(),
                            before,
                            header.params,
                            s,
                            p_done,
                            p_st,
                            p_d,
                            p_n,
                            here,
                            st2,
                            d2,
                            n2,
                        );
                        assert((p_done + here) + rest_p =~= p_done + header_assigns(s, pos as int, b as int, false));
                        p_st = p_st + st2.drop_first();
                        p_d = p_d + d2;
                        p_n = p_n + n2;
                        p_done = p_done + here;
                        assert(m_done + rest_m =~= m_done + header_assigns(s, pos as int, b as int, true));
                    }
                },
                _ => {
                    self.error(line.start, line.end, DiagnosticKind::SyntaxError);
                    assert(self.diags().skip(d1.len() as int) =~= seq![syntax_error(s, line.start as int, line.end as int)]);
                    assert(m_done + rest_m =~= m_done + header_assigns(s, pos as int, b as int, true));
                    assert(p_done + rest_p =~= p_done + header_assigns(s, pos as int, b as int, false));
                },
            }
            proof {
                let c = self.diags().skip(d1.len() as int);
                assert(header_line_reports(s, line, c));
                assert(self.diags() =~= d1 + c);
                assert(self.diags().skip(d0.len() as int) =~= dd + c);
                assert(self.diags().take(d0.len() as int) =~= d0);
                assert forall|x: Seq<Diagnostic>| #[trigger] header_reports(s, line.next as int, b as int, x) implies header_reports(
                    s,
                    a as int,
                    b as int,
                    self.diags().skip(d0.len() as int) + x,
                ) by {
                    let y = c + x;
                    assert(y.take(c.len() as int) =~= c);
                    assert(y.skip(c.len() as int) =~= x);
                    assert(header_reports(s, pos as int, b as int, y));
                    assert(dd + y =~= self.diags().skip(d0.len() as int) + x);
                }
            }
            pos = line.next;
        }
        assert(self.diags().skip(d0.len() as int) + Seq::<Diagnostic>::empty() =~= self.diags().skip(d0.len() as int));
        assert(header_reports(s, pos as int, b as int, Seq::<Diagnostic>::empty()));
        assert(m_done + Seq::<(Seq<char>, NodeShape)>::empty() =~= m_done);
        assert(p_done + Seq::<(Seq<char>, NodeShape)>::empty() =~= p_done);
        header
    }
}

impl<'a> Parser<'a> {
    /// A `[$]` line of a sub-section sets the parameters of its section; only
    /// the first sub-section may do so.
    fn handle_global_params_node(&mut self, a: usize, b: usize, c: usize, section: &mut Section)
        requires
            old(self).wf(),
            a <= c <= b <= old(self).chars().len(),
            old(section).sid < old(self).n_scopes(),
            old(section).params.fields_ok(old(self).n_symbols()),
        ensures
            final(self).wf(),
            final(self).grown_from(old(self)),
            final(section).sid == old(section).sid,
            final(section).items == old(section).items,
            final(section).merge == old(section).merge,
            final(section).metadata == old(section).metadata,
            final(section).params.fields_ok(final(self).n_symbols()),
            exists|states: Seq<SectionParams>, datas: Seq<AssignmentData>, ns: Seq<int>|
                #[trigger] assigned_in_order(
                    old(section).params,
                    final(section).params,
                    old(self).chars(),
                    assignments_from(old(self).chars(), c as int, b as int),
                    states,
                    datas,
                    ns,
                ),
            final(self).diags().len() >= old(self).diags().len() + top_len(old(section).items@.len() == 0),
            final(self).diags().take(old(self).diags().len() as int) == old(self).diags(),
            final(self).diags().subrange(
                old(self).diags().len() as int,
                old(self).diags().len() + top_len(old(section).items@.len() == 0),
            ) == non_top_level(
                old(section).items@.len() == 0,
                DiagnosticKind::NonTopLevelParamsOverride(old(self).scopes()[old(section).sid as int].range.spec_start()),
                old(self).chars(),
                a as int,
                b as int,
            ),
            local_reports(
                old(self).chars(),
                c as int,
                b as int,
                old(section).params,
                final(section).params,
                final(self).diags().skip(
                    old(self).diags().len() + top_len(old(section).items@.len() == 0),
                ),
            ),
    {
        let ghost d0 = self.diags();
        if section.items.len() > 0 {
            let context_range = self.tree.get_scope_range(section.sid).start();
            self.error(a, b, DiagnosticKind::NonTopLevelParamsOverride(context_range));
        }
        let ghost d1 = self.diags();
        let ghost h = d1.len() - d0.len();
        proof {
            assert(d1.take(d0.len() as int) =~= d0);
            assert(d1.skip(d0.len() as int) =~= non_top_level(
                old(section).items@.len() == 0,
                DiagnosticKind::NonTopLevelParamsOverride(old(self).scopes()[old(section).sid as int].range.spec_start()),
                old(self).chars(),
                a as int,
                b as int,
            ));
        }
        self.handle_local_params_node(a, b, c, section.sid, &mut section.params);
        proof {
            assert(self.diags().take(d0.len() as int) =~= d0);
            assert(self.diags().subrange(d0.len() as int, d0.len() + h) =~= d1.skip(d0.len() as int));
            assert(self.diags().skip(d0.len() + h) =~= self.diags().skip(d1.len() as int));
        }
    }

    /// A `[#]` line of a sub-section sets the metadata of its section; only
    /// the first sub-section may do so.
    fn handle_section_metadata_node(&mut self, a: usize, b: usize, c: usize, section: &mut Section)
        requires
            old(self).wf(),
            a <= c <= b <= old(self).chars().len(),
            old(section).sid < old(self).n_scopes(),
            old(section).metadata.fields_ok(old(self).n_symbols()),
        ensures
            final(self).wf(),
            final(self).grown_from(old(self)),
            final(section).sid == old(section).sid,
            final(section).items == old(section).items,
            final(section).merge == old(section).merge,
            final(section).params == old(section).params,
            final(section).metadata.fields_ok(final(self).n_symbols()),
            exists|states: Seq<SectionMetadata>, datas: Seq<AssignmentData>, ns: Seq<int>|
                #[trigger] assigned_in_order(
                    old(section).metadata,
                    final(section).metadata,
                    old(self).chars(),
                    assignments_from(old(self).chars(), c as int, b as int),
                    states,
                    datas,
                    ns,
                ),
            final(self).diags().len() >= old(self).diags().len() + top_len(old(section).items@.len() == 0),
            final(self).diags().take(old(self).diags().len() as int) == old(self).diags(),
            final(self).diags().subrange(
                old(self).diags().len() as int,
                old(self).diags().len() + top_len(old(section).items@.len() == 0),
            ) == non_top_level(
                old(section).items@.len() == 0,
                DiagnosticKind::NonTopLevelSectionMetadata(old(self).scopes()[old(section).sid as int].range.spec_start()),
                old(self).chars(),
                a as int,
                b as int,
            ),
            local_reports(
                old(self).chars(),
                c as int,
                b as int,
                old(section).metadata,
                final(section).metadata,
                final(self).diags().skip(
                    old(self).diags().len() + top_len(old(section).items@.len() == 0),
                ),
            ),
    {
        let ghost d0 = self.diags();
        if section.items.len() > 0 {
            let context_range = self.tree.get_scope_range(section.sid).start();
            self.error(a, b, DiagnosticKind::NonTopLevelSectionMetadata(context_range));
        }
        let ghost d1 = self.diags();
        let ghost h = d1.len() - d0.len();
        proof {
            assert(d1.take(d0.len() as int) =~= d0);
            assert(d1.skip(d0.len() as int) =~= non_top_level(
                old(section).items@.len() == 0,
                DiagnosticKind::NonTopLevelSectionMetadata(old(self).scopes()[old(section).sid as int].range.spec_start()),
                old(self).chars(),
                a as int,
                b as int,
            ));
        }
        self.handle_local_params_node(a, b, c, section.sid, &mut section.metadata);
        proof {
            assert(self.diags().take(d0.len() as int) =~= d0);
            assert(self.diags().subrange(d0.len() as int, d0.len() + h) =~= d1.skip(d0.len() as int));
            assert(self.diags().skip(d0.len() + h) =~= self.diags().skip(d1.len() as int));
        }
    }

    /// Reads one line of a sub-section into `result`; a `[$]` or `[#]` line
    /// also sets the parameters or metadata of `section`.
    #[verifier::rlimit(60)]
    fn handle_sub_line(&mut self, line: LineInfo, section: &mut Section, result: &mut SubSection)
        requires
            old(self).wf(),
            line.start <= line.end <= old(self).chars().len(),
            line.kind == line_kind(old(self).chars(), line.start as int, line.end as int),
            line.kind matches LineKind::Metadata(c) ==> line.start < c <= line.end,
            line.kind matches LineKind::Parameters(c) ==> line.start < c <= line.end,
            line.kind matches LineKind::Solfa(l, m) ==> line.start < l < m < line.end,
            line.kind matches LineKind::Lyric(l, m) ==> line.start < l < m < line.end,
            old(section).sid < old(self).n_scopes(),
            old(result).sid < old(self).n_scopes(),
            old(section).params.fields_ok(old(self).n_symbols()),
            old(section).metadata.fields_ok(old(self).n_symbols()),
            old(result).params.fields_ok(old(self).n_symbols()),
            sub_section_ok(old(self).tree, *old(result)),
            old(result).lyrics@.len() < usize::MAX,
            forall|k: int| 0 <= k < old(result).lyrics@.len() ==> (#[trigger] old(result).lyrics@[k]).verse == k + 1,
            lines_texts_ok(old(self).tree, old(self).chars(), old(result).lyrics@),
        ensures
            lines_texts_ok(final(self).tree, old(self).chars(), final(result).lyrics@),
            fields_by(old(section).params, final(section).params, old(self).chars(), line_assigns(old(self).chars(), line, false)),
            fields_by(old(section).metadata, final(section).metadata, old(self).chars(), line_assigns(old(self).chars(), line, true)),
            fields_by(old(result).params, final(result).params, old(self).chars(), line_assigns(old(self).chars(), line, false)),
            final(self).wf(),
            final(self).grown_from(old(self)),
            final(section).sid == old(section).sid,
            final(section).items == old(section).items,
            final(section).merge == old(section).merge,
            final(section).params.fields_ok(final(self).n_symbols()),
            final(section).metadata.fields_ok(final(self).n_symbols()),
            final(result).params.fields_ok(final(self).n_symbols()),
            final(result).sid == old(result).sid,
            sub_section_ok(final(self).tree, *final(result)),
            solfa_shapes(final(result).solfa@) == solfa_shapes(old(result).solfa@) + line_solfa(old(self).chars(), line),
            lyric_shapes(final(result).lyrics@) == lyric_shapes(old(result).lyrics@) + line_lyric(old(self).chars(), line),
            final(result).lyrics@.len() == old(result).lyrics@.len() + lyric_increment(old(self).chars(), line),
            forall|k: int| 0 <= k < final(result).lyrics@.len() ==> (#[trigger] final(result).lyrics@[k]).verse == k + 1,
            final(self).diags().len() >= old(self).diags().len(),
            final(self).diags().take(old(self).diags().len() as int) == old(self).diags(),
            sub_line_reports(
                old(self).chars(),
                line,
                old(section).items@.len() == 0,
                old(result).lyrics@.len(),
                final(self).diags().skip(old(self).diags().len() as int),
            ),
    {
        let ghost s = self.chars();
        let ghost first = section.items@.len() == 0;
        let ghost n0 = self.n_symbols();
        let ghost tree0 = self.tree;
        let ghost d1 = self.diags();
        let ghost count = result.lyrics@.len();
        let sid = result.sid;
        match line.kind {
            LineKind::Blank => {
                assert(self.diags().skip(d1.len() as int) =~= Seq::<Diagnostic>::empty());
            },
            LineKind::Comment => {
                self.handle_comment_node(line.start, line.end);
                proof {
                    section.params.lemma_fields_grow(n0, self.n_symbols());
                    section.metadata.lemma_fields_grow(n0, self.n_symbols());
                    result.params.lemma_fields_grow(n0, self.n_symbols());
                    assert(self.diags().skip(d1.len() as int) =~= Seq::<Diagnostic>::empty());
                }
            },
            LineKind::Parameters(c) => {
                let ghost ctx = self.scopes()[section.sid as int].range.spec_start();
                let ghost sp0 = section.params;
                self.handle_global_params_node(line.start, line.end, c, section);
                let ghost d2 = self.diags();
                let ghost sp1 = section.params;
                proof {
                    section.metadata.lemma_fields_grow(n0, self.n_symbols());
                    result.params.lemma_fields_grow(n0, self.n_symbols());
                }
                let ghost n1 = self.n_symbols();
                let ghost rp0 = result.params;
                self.handle_local_params_node(line.start, line.end, c, sid, &mut result.params);
                proof {
                    section.metadata.lemma_fields_grow(n1, self.n_symbols());
                    section.params.lemma_fields_grow(n1, self.n_symbols());
                    let cc = self.diags().skip(d1.len() as int);
                    let kind = DiagnosticKind::NonTopLevelParamsOverride(ctx);
                    let head = non_top_level(first, kind, s, line.start as int, line.end as int);
                    let k = d2.len() - d1.len();
                    let t = top_len(first);
                    assert(head.len() == t);
                    assert(self.diags().take(d2.len() as int) =~= d2);
                    assert(cc.take(t) =~= d2.subrange(d1.len() as int, d1.len() + t));
                    assert(cc.subrange(t, k) =~= d2.skip(d1.len() + t));
                    assert(local_reports(s, c as int, line.end as int, sp0, sp1, cc.subrange(head.len() as int, k)));
                    assert(cc.skip(k) =~= self.diags().skip(d2.len() as int));
                    assert(local_reports(s, c as int, line.end as int, rp0, result.params, cc.skip(k)));
                    assert(cc.take(head.len() as int) == head);
                    assert(params_line_reports(s, line.start as int, line.end as int, c as int, first, cc));
                }
            },
            LineKind::Metadata(c) => {
                let ghost ctx = self.scopes()[section.sid as int].range.spec_start();
                let ghost sm0 = section.metadata;
                self.handle_section_metadata_node(line.start, line.end, c, section);
                proof {
                    section.params.lemma_fields_grow(n0, self.n_symbols());
                    result.params.lemma_fields_grow(n0, self.n_symbols());
                    let cc = self.diags().skip(d1.len() as int);
                    let kind = DiagnosticKind::NonTopLevelSectionMetadata(ctx);
                    let head = non_top_level(first, kind, s, line.start as int, line.end as int);
                    let t = top_len(first);
                    assert(head.len() == t);
                    assert(cc.take(t) =~= self.diags().subrange(d1.len() as int, d1.len() + t));
                    assert(cc.skip(t) =~= self.diags().skip(d1.len() + t));
                    assert(local_reports(s, c as int, line.end as int, sm0, section.metadata, cc.skip(head.len() as int)));
                    assert(cc.take(head.len() as int) == head);
                    assert(metadata_line_reports(s, line.start as int, line.end as int, c as int, first, cc));
                }
            },
            LineKind::Solfa(l, m) => {
                if let Some(value) = self.resolve_solfa_line(line.start, line.end, l, m, sid) {
                    let ghost before = *result;
                    result.solfa.push(value);
                    proof {
                        lemma_sub_section_ok_grows(tree0, self.tree, before);
                        assert forall|i: int| 0 <= i < result.solfa@.len() implies crate::ir::builder::solfa_ids_valid(self.tree, #[trigger] result.solfa@[i]) by {
                            if i < before.solfa@.len() {
                                assert(result.solfa@[i] == before.solfa@[i]);
                            }
                        }
                        assert(solfa_shapes(result.solfa@) =~= solfa_shapes(before.solfa@) + line_solfa(s, line));
                        assert(self.diags().skip(d1.len() as int) =~= solfa_scan(s, m as int + 1, line.end as int).1);
                    }
                } else {
                    proof {
                        lemma_sub_section_ok_grows(tree0, self.tree, *result);
                        assert(solfa_shapes(result.solfa@) =~= solfa_shapes(result.solfa@) + line_solfa(s, line));
                        let cc = self.diags().skip(d1.len() as int);
                        assert(cc.len() == 1);
                        assert(cc[0] == self.diags().last());
                        assert(invalid_voice_reports(s, l as int, m as int, cc));
                    }
                }
            },
            LineKind::Lyric(l, m) => {
                let expected = result.lyrics.len() + 1;
                let opt = self.resolve_lyric_line(line.start, line.end, l, m, sid, expected);
                proof {
                    let cc = self.diags().skip(d1.len() as int);
                    match crate::text::spec_parse_usize(s.subrange(l as int, m as int)) {
                        None => {
                            assert(cc =~= node_error(s, (false, l as int, m as int, Seq::empty()), DiagnosticKind::InvalidType("integer")));
                        },
                        Some(verse) => {
                            let toks = opt.unwrap().tokens@;
                            let syms = self.symbols();
                            let anchor = lyric_anchor_at(s, m as int + 1, line.end as int);
                            assert(cc =~= verse_warning(s, l as int, m as int, expected, verse) + anchor_reports(s, anchor, toks, syms));
                        },
                    }
                    assert(lyric_line_reports(s, l as int, m as int, line.end as int, (count + 1) as usize, cc));
                }
                if let Some(value) = opt {
                    let ghost before = *result;
                    result.lyrics.push(value);
                    proof {
                        lemma_sub_section_ok_grows(tree0, self.tree, before);
                        assert forall|i: int| 0 <= i < result.lyrics@.len() implies lyric_ids_valid(self.tree, #[trigger] result.lyrics@[i]) by {
                            if i < before.lyrics@.len() {
                                assert(result.lyrics@[i] == before.lyrics@[i]);
                            }
                        }
                        assert(lyric_shapes(result.lyrics@) =~= lyric_shapes(before.lyrics@) + line_lyric(s, line));
                        assert(tokens_texts_ok(self.tree, s, result.lyrics@.last().tokens@));
                    }
                } else {
                    proof {
                        lemma_sub_section_ok_grows(tree0, self.tree, *result);
                        assert(lyric_shapes(result.lyrics@) =~= lyric_shapes(result.lyrics@) + line_lyric(s, line));
                    }
                }
                proof {
                    section.params.lemma_fields_grow(n0, self.n_symbols());
                    section.metadata.lemma_fields_grow(n0, self.n_symbols());
                    result.params.lemma_fields_grow(n0, self.n_symbols());
                    assert(solfa_shapes(result.solfa@) =~= solfa_shapes(result.solfa@) + line_solfa(s, line));
                }
            },
            _ => {
                self.error(line.start, line.end, DiagnosticKind::SyntaxError);
                assert(self.diags().skip(d1.len() as int) =~= seq![syntax_error(s, line.start as int, line.end as int)]);
            },
        }
        proof {
            if !(line.kind is Solfa) && !(line.kind is Lyric) {
                lemma_sub_section_ok_grows(tree0, self.tree, *result);
                assert(solfa_shapes(result.solfa@) =~= solfa_shapes(result.solfa@) + line_solfa(s, line));
            }
            if line.kind is Solfa {
                section.params.lemma_fields_grow(n0, self.n_symbols());
                section.metadata.lemma_fields_grow(n0, self.n_symbols());
                result.params.lemma_fields_grow(n0, self.n_symbols());
            }
            if !(line.kind is Lyric) {
                assert(lyric_shapes(result.lyrics@) =~= lyric_shapes(result.lyrics@) + line_lyric(s, line));
            }
            assert(self.diags().take(d1.len() as int) =~= d1);
            assert(self.grown_from(old(self)));
            if !(line.kind is Parameters) {
                lemma_fields_by_none(section.params, s);
                lemma_fields_by_none(result.params, s);
            }
            if !(line.kind is Metadata) {
                lemma_fields_by_none(section.metadata, s);
            }
            lemma_lines_texts_grow(old(self).tree, self.tree, s, old(result).lyrics@);
            assert forall|k: int| 0 <= k < result.lyrics@.len() implies tokens_texts_ok(
                self.tree,
                s,
                (#[trigger] result.lyrics@[k]).tokens@,
            ) by {
                if k < old(result).lyrics@.len() {
                    assert(result.lyrics@[k] == old(result).lyrics@[k]);
                }
            }
        }
    }

    /// Reads the sub-section `a..b` of `section`: its parameter and metadata
    /// lines, its solfa lines and its lyric lines.
    #[verifier::rlimit(80)]
    #[verifier::spinoff_prover]
    fn handle_sub_section_node(&mut self, a: usize, b: usize, section: &mut Section) -> (r: SubSection)
        requires
            old(self).wf(),
            a <= b <= old(self).chars().len(),
            old(section).sid < old(self).n_scopes(),
            old(section).params.fields_ok(old(self).n_symbols()),
            old(section).metadata.fields_ok(old(self).n_symbols()),
        ensures
            final(self).wf(),
            final(self).grown_from(old(self)),
            final(section).sid == old(section).sid,
            final(section).items == old(section).items,
            final(section).merge == old(section).merge,
            final(section).params.fields_ok(final(self).n_symbols()),
            final(section).metadata.fields_ok(final(self).n_symbols()),
            sub_section_ok(final(self).tree, r),
            r.sid == old(self).n_scopes(),
            solfa_shapes(r.solfa@) == solfa_lines_from(old(self).chars(), a as int, b as int, b as int),
            lyric_shapes(r.lyrics@) == lyric_lines_from(old(self).chars(), a as int, b as int, b as int),
            r.lyrics@.len() == lyric_count_from(old(self).chars(), a as int, b as int, b as int),
            scope_at(final(self).tree, old(self).chars(), r.sid as int, ScopeKind::SubSection, a as int, b as int),
            lines_texts_ok(final(self).tree, old(self).chars(), r.lyrics@),
            fields_by(no_sub_params(), r.params, old(self).chars(), header_assigns(old(self).chars(), a as int, b as int, false)),
            fields_by(
                old(section).params,
                final(section).params,
                old(self).chars(),
                header_assigns(old(self).chars(), a as int, b as int, false),
            ),
            fields_by(
                old(section).metadata,
                final(section).metadata,
                old(self).chars(),
                header_assigns(old(self).chars(), a as int, b as int, true),
            ),
            forall|k: int| 0 <= k < r.lyrics@.len() ==> (#[trigger] r.lyrics@[k]).verse == k + 1,
            final(self).diags().len() >= old(self).diags().len(),
            final(self).diags().take(old(self).diags().len() as int) == old(self).diags(),
            sub_reports(
                old(self).chars(),
                a as int,
                b as int,
                old(section).items@.len() == 0,
                0,
                final(self).diags().skip(old(self).diags().len() as int),
            ),
    {
        let ghost s = self.chars();
        let ghost d0 = self.diags();
        let ghost first = section.items@.len() == 0;
        let sid = self.add_scope(ScopeKind::SubSection, a, b, section.sid);
        let mut result = SubSection::new(sid);
        let mut pos = a;
        let ghost mut pdone: Seq<(Seq<char>, NodeShape)> = Seq::empty();
        let ghost mut mdone: Seq<(Seq<char>, NodeShape)> = Seq::empty();
        proof {
            assert(result.params == no_sub_params());
            lemma_fields_by_none(result.params, s);
            lemma_fields_by_none(section.params, s);
            lemma_fields_by_none(section.metadata, s);
            assert(pdone + header_assigns(s, a as int, b as int, false) =~= header_assigns(s, a as int, b as int, false));
            assert(mdone + header_assigns(s, a as int, b as int, true) =~= header_assigns(s, a as int, b as int, true));
        }
        proof {
            section.params.lemma_fields_grow(old(self).n_symbols(), self.n_symbols());
            section.metadata.lemma_fields_grow(old(self).n_symbols(), self.n_symbols());
            assert(solfa_shapes(result.solfa@) + solfa_lines_from(s, a as int, b as int, b as int) =~= solfa_lines_from(
                s,
                a as int,
                b as int,
                b as int,
            ));
            assert(lyric_shapes(result.lyrics@) + lyric_lines_from(s, a as int, b as int, b as int) =~= lyric_lines_from(
                s,
                a as int,
                b as int,
                b as int,
            ));
        }
        assert(self.diags().take(d0.len() as int) =~= d0);
        assert forall|x: Seq<Diagnostic>| #[trigger] sub_reports(s, pos as int, b as int, first, 0, x) implies sub_reports(
            s,
            a as int,
            b as int,
            first,
            0,
            self.diags().skip(d0.len() as int) + x,
        ) by {
            assert(self.diags().skip(d0.len() as int) + x =~= x);
        }
        while pos < b
            invariant
                self.wf(),
                self.grown_from(old(self)),
                a <= pos <= b,
                b <= self.chars().len(),
                sid < self.n_scopes(),
                section.sid == old(section).sid,
                section.items == old(section).items,
                section.merge == old(section).merge,
                section.sid < self.n_scopes(),
                section.params.fields_ok(self.n_symbols()),
                section.metadata.fields_ok(self.n_symbols()),
                result.params.fields_ok(self.n_symbols()),
                sub_section_ok(self.tree, result),
                result.lyrics@.len() <= pos - a,
                s == self.chars(),
                result.sid == sid,
                sid == old(self).n_scopes(),
                first == (old(section).items@.len() == 0),
                scope_at(self.tree, s, sid as int, ScopeKind::SubSection, a as int, b as int),
                lines_texts_ok(self.tree, s, result.lyrics@),
                pdone + header_assigns(s, pos as int, b as int, false) == header_assigns(s, a as int, b as int, false),
                mdone + header_assigns(s, pos as int, b as int, true) == header_assigns(s, a as int, b as int, true),
                fields_by(no_sub_params(), result.params, s, pdone),
                fields_by(old(section).params, section.params, s, pdone),
                fields_by(old(section).metadata, section.metadata, s, mdone),
                solfa_shapes(result.solfa@) + solfa_lines_from(s, pos as int, b as int, b as int) == solfa_lines_from(
                    s,
                    a as int,
                    b as int,
                    b as int,
                ),
                lyric_shapes(result.lyrics@) + lyric_lines_from(s, pos as int, b as int, b as int) == lyric_lines_from(
                    s,
                    a as int,
                    b as int,
                    b as int,
                ),
                result.lyrics@.len() + lyric_count_from(s, pos as int, b as int, b as int) == lyric_count_from(
                    s,
                    a as int,
                    b as int,
                    b as int,
                ),
                forall|k: int| 0 <= k < result.lyrics@.len() ==> (#[trigger] result.lyrics@[k]).verse == k + 1,
                d0 == old(self).diags(),
                self.diags().len() >= d0.len(),
                self.diags().take(d0.len() as int) == d0,
                forall|x: Seq<Diagnostic>|
                    #[trigger] sub_reports(s, pos as int, b as int, first, result.lyrics@.len(), x) ==> sub_reports(
                        s,
                        a as int,
                        b as int,
                        first,
                        0,
                        self.diags().skip(d0.len() as int) + x,
                    ),
            decreases b - pos,
        {
            let ghost d1 = self.diags();
            let ghost dd = self.diags().skip(d0.len() as int);
            let ghost count = result.lyrics@.len();
            let ghost voices0 = solfa_shapes(result.solfa@);
            let ghost lyrics0 = lyric_shapes(result.lyrics@);
            let line = self.next_line(pos, b);
            let ghost sp0 = section.params;
            let ghost sm0 = section.metadata;
            let ghost rp0 = result.params;
            self.handle_sub_line(line, section, &mut result);
            proof {
                let lp = line_assigns(s, line, false);
                let lm = line_assigns(s, line, true);
                lemma_fields_by_concat(no_sub_params(), rp0, result.params, s, pdone, lp);
                lemma_fields_by_concat(old(section).params, sp0, section.params, s, pdone, lp);
                lemma_fields_by_concat(old(section).metadata, sm0, section.metadata, s, mdone, lm);
                assert(header_assigns(s, pos as int, b as int, false) == lp + header_assigns(s, line.next as int, b as int, false));
                assert(header_assigns(s, pos as int, b as int, true) == lm + header_assigns(s, line.next as int, b as int, true));
                assert((pdone + lp) + header_assigns(s, line.next as int, b as int, false) =~= pdone + header_assigns(
                    s,
                    pos as int,
                    b as int,
                    false,
                ));
                assert((mdone + lm) + header_assigns(s, line.next as int, b as int, true) =~= mdone + header_assigns(
                    s,
                    pos as int,
                    b as int,
                    true,
                ));
                pdone = pdone + lp;
                mdone = mdone + lm;
                let c = self.diags().skip(d1.len() as int);
                assert(solfa_lines_from(s, pos as int, b as int, b as int) == line_solfa(s, line) + solfa_lines_from(
                    s,
                    line.next as int,
                    b as int,
                    b as int,
                ));
                assert(voices0 + solfa_lines_from(s, pos as int, b as int, b as int) =~= solfa_shapes(result.solfa@)
                    + solfa_lines_from(s, line.next as int, b as int, b as int));
                assert(lyric_lines_from(s, pos as int, b as int, b as int) == line_lyric(s, line) + lyric_lines_from(
                    s,
                    line.next as int,
                    b as int,
                    b as int,
                ));
                assert(lyrics0 + lyric_lines_from(s, pos as int, b as int, b as int) =~= lyric_shapes(result.lyrics@)
                    + lyric_lines_from(s, line.next as int, b as int, b as int));
                assert(lyric_count_from(s, pos as int, b as int, b as int) == lyric_increment(s, line) + lyric_count_from(
                    s,
                    line.next as int,
                    b as int,
                    b as int,
                ));
                assert(self.diags() =~= d1 + c);
                assert(self.diags().skip(d0.len() as int) =~= dd + c);
                assert(self.diags().take(d0.len() as int) =~= d0);
                assert forall|x: Seq<Diagnostic>|
                    #[trigger] sub_reports(s, line.next as int, b as int, first, result.lyrics@.len(), x) implies sub_reports(
                        s,
                        a as int,
                        b as int,
                        first,
                        0,
                        self.diags().skip(d0.len() as int) + x,
                    ) by {
                    let y = c + x;
                    assert(y.take(c.len() as int) =~= c);
                    assert(y.skip(c.len() as int) =~= x);
                    assert(sub_reports(s, pos as int, b as int, first, count, y));
                    assert(dd + y =~= self.diags().skip(d0.len() as int) + x);
                }
            }
            pos = line.next;
        }
        assert(self.diags().skip(d0.len() as int) + Seq::<Diagnostic>::empty() =~= self.diags().skip(d0.len() as int));
        assert(sub_reports(s, pos as int, b as int, first, result.lyrics@.len(), Seq::<Diagnostic>::empty()));
        assert(pdone + Seq::<(Seq<char>, NodeShape)>::empty() =~= pdone);
        assert(mdone + Seq::<(Seq<char>, NodeShape)>::empty() =~= mdone);
        result
    }
}

impl<'a> Parser<'a> {
    /// Reads the section `a..b`: its sub-sections, split by `++` lines, each
    /// of which is recorded as a delimiter.
    fn handle_section_node(
        &mut self,
        delims: &mut Vec<Delimiter>,
        a: usize,
        b: usize,
        body_sid: ScopeId,
        merge: bool,
    ) -> (r: Section)
        requires
            old(self).wf(),
            a <= b <= old(self).chars().len(),
            body_sid < old(self).n_scopes(),
            forall|i: int|
                0 <= i < delimiters_from(old(self).chars(), a as int, b as int, b as int).len() ==> (
                #[trigger] delimiters_from(old(self).chars(), a as int, b as int, b as int)[i]).kind
                    == DelimiterKind::SubSection,
        ensures
            final(self).wf(),
            final(self).grown_from(old(self)),
            section_ok(final(self).tree, r),
            r.merge == merge,
            r.items@.len() == sub_section_count(old(self).chars(), a as int, a as int, 0, b as int),
            final(delims)@ == old(delims)@ + delimiters_from(old(self).chars(), a as int, b as int, b as int),
            final(self).diags().len() >= old(self).diags().len(),
            final(self).diags().take(old(self).diags().len() as int) == old(self).diags(),
            section_reports(
                old(self).chars(),
                a as int,
                a as int,
                b as int,
                0,
                final(self).diags().skip(old(self).diags().len() as int),
            ),
            section_read(old(self).chars(), r, a as int, b as int),
            section_scopes(final(self).tree, old(self).chars(), r, a as int, b as int),
            subs_texts_ok(final(self).tree, old(self).chars(), r.items@),
    {
        let ghost s = self.chars();
        let ghost d0 = self.diags();
        let ghost base = delims@;
        let sid = self.add_scope(ScopeKind::Section, a, b, body_sid);
        let mut section = Section::new(sid);
        section.merge = merge;
        let mut sub_start = a;
        let mut pos = a;
        let ghost mut done: Seq<(int, int)> = Seq::empty();
        assert(done + sub_ranges(s, a as int, a as int, true, b as int) =~= sub_ranges(s, a as int, a as int, true, b as int));
        proof {
            assert(section.metadata == no_section_metadata());
            lemma_fields_by_none(section.params, s);
            lemma_fields_by_none(section.metadata, s);
        }
        assert(delimiters_from(s, a as int, a as int, b as int) =~= Seq::<Delimiter>::empty());
        assert(self.diags().take(d0.len() as int) =~= d0);
        assert forall|x: Seq<Diagnostic>| #[trigger] section_reports(s, pos as int, sub_start as int, b as int, 0, x) implies section_reports(
            s,
            a as int,
            a as int,
            b as int,
            0,
            self.diags().skip(d0.len() as int) + x,
        ) by {
            assert(self.diags().skip(d0.len() as int) + x =~= x);
        }
        while pos < b
            invariant
                d0 == old(self).diags(),
                self.diags().len() >= d0.len(),
                self.diags().take(d0.len() as int) == d0,
                forall|x: Seq<Diagnostic>|
                    #[trigger] section_reports(s, pos as int, sub_start as int, b as int, section.items@.len(), x)
                        ==> section_reports(s, a as int, a as int, b as int, 0, self.diags().skip(d0.len() as int) + x),
                done.len() == section.items@.len(),
                scope_at(self.tree, s, sid as int, ScopeKind::Section, a as int, b as int),
                subs_texts_ok(self.tree, s, section.items@),
                fields_by(SectionParams::spec_empty(), section.params, s, subs_assigns(s, done, false)),
                fields_by(no_section_metadata(), section.metadata, s, subs_assigns(s, done, true)),
                forall|j: int|
                    0 <= j < done.len() ==> scope_at(
                        self.tree,
                        s,
                        (#[trigger] section.items@[j]).sid as int,
                        ScopeKind::SubSection,
                        done[j].0,
                        done[j].1,
                    ),
                done + sub_ranges(s, pos as int, sub_start as int, section.items@.len() == 0, b as int) == sub_ranges(
                    s,
                    a as int,
                    a as int,
                    true,
                    b as int,
                ),
                forall|j: int|
                    0 <= j < done.len() ==> sub_section_read(s, #[trigger] section.items@[j], done[j].0, done[j].1),
                self.wf(),
                self.grown_from(old(self)),
                s == self.chars(),
                a <= sub_start <= pos <= b,
                b <= self.chars().len(),
                section.sid == sid,
                sid < self.n_scopes(),
                section.merge == merge,
                section.params.fields_ok(self.n_symbols()),
                section.metadata.fields_ok(self.n_symbols()),
                section_ok(self.tree, section),
                reaches(s, a as int, pos as int, b as int),
                delims@ == base + delimiters_from(s, a as int, pos as int, b as int),
                sub_section_count(s, a as int, a as int, 0, b as int) == sub_section_count(
                    s,
                    pos as int,
                    sub_start as int,
                    section.items@.len(),
                    b as int,
                ),
                forall|i: int|
                    0 <= i < delimiters_from(s, a as int, b as int, b as int).len() ==> (
                    #[trigger] delimiters_from(s, a as int, b as int, b as int)[i]).kind == DelimiterKind::SubSection,
            decreases b - pos,
        {
            let line = self.next_line(pos, b);
            proof {
                lemma_reaches_step(s, a as int, pos as int, b as int);
                lemma_line_at_bounds(s, pos as int, b as int);
                lemma_delimiters_split(s, a as int, pos as int, b as int, b as int);
                let head = delimiters_from(s, a as int, pos as int, b as int);
                let rest = delimiters_from(s, pos as int, b as int, b as int);
                if line.kind == LineKind::SectionSplit || line.kind == LineKind::SectionMerge {
                    assert(rest[0] == line_delimiter(s, line)->0);
                    assert(delimiters_from(s, a as int, b as int, b as int)[head.len() as int] == rest[0]);
                }
            }
            if line.kind == LineKind::SubSectionDelimiter {
                let ghost tree0 = self.tree;
                let ghost items0 = section.items@;
                let ghost d1 = self.diags();
                let ghost dd = self.diags().skip(d0.len() as int);
                let ghost sp0 = section.params;
                let ghost sm0 = section.metadata;
                let item = self.handle_sub_section_node(sub_start, pos, &mut section);
                section.items.push(item);
                proof {
                    let r = (sub_start as int, pos as int);
                    lemma_fields_by_concat(
                        SectionParams::spec_empty(),
                        sp0,
                        section.params,
                        s,
                        subs_assigns(s, done, false),
                        header_assigns(s, r.0, r.1, false),
                    );
                    lemma_fields_by_concat(
                        no_section_metadata(),
                        sm0,
                        section.metadata,
                        s,
                        subs_assigns(s, done, true),
                        header_assigns(s, r.0, r.1, true),
                    );
                    assert(done.push(r).drop_last() =~= done);
                    assert(subs_assigns(s, done.push(r), false) == subs_assigns(s, done, false) + header_assigns(s, r.0, r.1, false));
                    assert(subs_assigns(s, done.push(r), true) == subs_assigns(s, done, true) + header_assigns(s, r.0, r.1, true));
                    lemma_section_items_grow(tree0, self.tree, items0, item, section.items@);
                    lemma_subs_texts_grow(tree0, self.tree, s, items0);
                    assert forall|j: int| 0 <= j < section.items@.len() implies lines_texts_ok(
                        self.tree,
                        s,
                        (#[trigger] section.items@[j]).lyrics@,
                    ) by {
                        if j < items0.len() {
                            assert(section.items@[j] == items0[j]);
                        }
                    }
                    let done0 = done;
                    done = done.push((sub_start as int, pos as int));
                    assert(done0 + sub_ranges(s, pos as int, sub_start as int, items0.len() == 0, b as int) =~= done
                        + sub_ranges(s, line.next as int, line.next as int, false, b as int));
                    assert forall|j: int| 0 <= j < done.len() implies sub_section_read(
                        s,
                        #[trigger] section.items@[j],
                        done[j].0,
                        done[j].1,
                    ) by {
                        if j < done0.len() {
                            assert(section.items@[j] == items0[j]);
                        }
                    }
                }
                let ghost n0 = self.n_symbols();
                let ghost tree1 = self.tree;
                self.add_delimiter(delims, line.start, line.end, DelimiterKind::SubSection);
                proof {
                    section.params.lemma_fields_grow(n0, self.n_symbols());
                    section.metadata.lemma_fields_grow(n0, self.n_symbols());
                    lemma_section_ok_grows(tree1, self.tree, section);
                    lemma_subs_texts_grow(tree1, self.tree, s, section.items@);
                    assert forall|j: int| 0 <= j < done.len() implies scope_at(
                        self.tree,
                        s,
                        (#[trigger] section.items@[j]).sid as int,
                        ScopeKind::SubSection,
                        done[j].0,
                        done[j].1,
                    ) by {
                        if j < items0.len() {
                            assert(section.items@[j] == items0[j]);
                            assert(scope_at(tree0, s, items0[j].sid as int, ScopeKind::SubSection, done[j].0, done[j].1));
                        } else {
                            assert(scope_at(tree1, s, item.sid as int, ScopeKind::SubSection, done[j].0, done[j].1));
                        }
                    }
                    let c = self.diags().skip(d1.len() as int);
                    assert(self.diags() =~= d1 + c);
                    assert(self.diags().skip(d0.len() as int) =~= dd + c);
                    assert(self.diags().take(d0.len() as int) =~= d0);
                    assert forall|x: Seq<Diagnostic>|
                        #[trigger] section_reports(s, line.next as int, line.next as int, b as int, section.items@.len(), x)
                            implies section_reports(s, a as int, a as int, b as int, 0, self.diags().skip(d0.len() as int) + x) by {
                        let y = c + x;
                        assert(y.take(c.len() as int) =~= c);
                        assert(y.skip(c.len() as int) =~= x);
                        assert(section_reports(s, pos as int, sub_start as int, b as int, items0.len(), y));
                        assert(dd + y =~= self.diags().skip(d0.len() as int) + x);
                    }
                }
                sub_start = line.next;
            } else {
                proof {
                    assert(sub_ranges(s, pos as int, sub_start as int, section.items@.len() == 0, b as int) == sub_ranges(
                        s,
                        line.next as int,
                        sub_start as int,
                        section.items@.len() == 0,
                        b as int,
                    ));
                    assert forall|x: Seq<Diagnostic>|
                        #[trigger] section_reports(s, line.next as int, sub_start as int, b as int, section.items@.len(), x)
                            implies section_reports(s, a as int, a as int, b as int, 0, self.diags().skip(d0.len() as int) + x) by {
                        assert(section_reports(s, pos as int, sub_start as int, b as int, section.items@.len(), x));
                    }
                }
            }
            pos = line.next;
        }
        let ghost d1 = self.diags();
        let ghost dd = self.diags().skip(d0.len() as int);
        let ghost count = section.items@.len();
        if self.has_content(sub_start, b) || section.items.len() == 0 {
            let ghost tree0 = self.tree;
            let ghost items0 = section.items@;
            let ghost sp0 = section.params;
            let ghost sm0 = section.metadata;
            let item = self.handle_sub_section_node(sub_start, b, &mut section);
            section.items.push(item);
            proof {
                let r = (sub_start as int, b as int);
                lemma_fields_by_concat(
                    SectionParams::spec_empty(),
                    sp0,
                    section.params,
                    s,
                    subs_assigns(s, done, false),
                    header_assigns(s, r.0, r.1, false),
                );
                lemma_fields_by_concat(
                    no_section_metadata(),
                    sm0,
                    section.metadata,
                    s,
                    subs_assigns(s, done, true),
                    header_assigns(s, r.0, r.1, true),
                );
                assert(done.push(r).drop_last() =~= done);
                assert(subs_assigns(s, done.push(r), false) == subs_assigns(s, done, false) + header_assigns(s, r.0, r.1, false));
                assert(subs_assigns(s, done.push(r), true) == subs_assigns(s, done, true) + header_assigns(s, r.0, r.1, true));
                lemma_section_items_grow(tree0, self.tree, items0, item, section.items@);
                lemma_subs_texts_grow(tree0, self.tree, s, items0);
                assert forall|j: int| 0 <= j < section.items@.len() implies lines_texts_ok(
                    self.tree,
                    s,
                    (#[trigger] section.items@[j]).lyrics@,
                ) by {
                    if j < items0.len() {
                        assert(section.items@[j] == items0[j]);
                    }
                }
                assert forall|j: int| 0 <= j < done.len() + 1 implies scope_at(
                    self.tree,
                    s,
                    (#[trigger] section.items@[j]).sid as int,
                    ScopeKind::SubSection,
                    done.push((sub_start as int, b as int))[j].0,
                    done.push((sub_start as int, b as int))[j].1,
                ) by {
                    if j < items0.len() {
                        assert(section.items@[j] == items0[j]);
                        assert(scope_at(tree0, s, items0[j].sid as int, ScopeKind::SubSection, done[j].0, done[j].1));
                    }
                }
                let done0 = done;
                done = done.push((sub_start as int, b as int));
                assert(done0 + sub_ranges(s, pos as int, sub_start as int, items0.len() == 0, b as int) =~= done);
                assert forall|j: int| 0 <= j < done.len() implies sub_section_read(
                    s,
                    #[trigger] section.items@[j],
                    done[j].0,
                    done[j].1,
                ) by {
                    if j < done0.len() {
                        assert(section.items@[j] == items0[j]);
                    }
                }
                let c = self.diags().skip(d1.len() as int);
                assert(self.diags() =~= d1 + c);
                assert(self.diags().skip(d0.len() as int) =~= dd + c);
                assert(section_reports(s, pos as int, sub_start as int, b as int, count, c));
            }
        } else {
            assert(section_reports(s, pos as int, sub_start as int, b as int, count, Seq::<Diagnostic>::empty()));
            assert(dd + Seq::<Diagnostic>::empty() =~= dd);
            assert(done + sub_ranges(s, pos as int, sub_start as int, count == 0, b as int) =~= done);
        }
        assert(self.diags().take(d0.len() as int) =~= d0);
        section
    }

    /// Reads the body `a..b`: its sections, split by `--` and `<<` lines
    /// (a section after `<<` merges with the one before). Every `--`, `<<`
    /// and `++` line is recorded as a delimiter, in order.
    fn handle_body_node(&mut self, delims: &mut Vec<Delimiter>, a: usize, b: usize) -> (r: Body)
        requires
            old(self).wf(),
            a <= b <= old(self).chars().len(),
        ensures
            final(self).wf(),
            final(self).grown_from(old(self)),
            body_ok(final(self).tree, r),
            section_shapes_of(r.sections@) == section_shapes(old(self).chars(), a as int, a as int, false, b as int),
            final(delims)@ == old(delims)@ + delimiters_from(old(self).chars(), a as int, b as int, b as int),
            final(self).diags().len() >= old(self).diags().len(),
            final(self).diags().take(old(self).diags().len() as int) == old(self).diags(),
            body_reports(
                old(self).chars(),
                a as int,
                a as int,
                b as int,
                final(self).diags().skip(old(self).diags().len() as int),
            ),
            body_read(old(self).chars(), r, a as int, b as int),
            body_scopes(final(self).tree, old(self).chars(), r, a as int, b as int),
            sections_texts_ok(final(self).tree, old(self).chars(), r.sections@),
    {
        let ghost s = self.chars();
        let ghost d0 = self.diags();
        let ghost base = delims@;
        let body_sid = self.add_scope(ScopeKind::Body, a, b, 0);
        let mut body = Body::new(body_sid);
        let mut section_start = a;
        let mut merge = false;
        let mut pos = a;
        let ghost mut done: Seq<(int, int)> = Seq::empty();
        assert(done + section_ranges(s, a as int, a as int, b as int) =~= section_ranges(s, a as int, a as int, b as int));
        assert(delimiters_from(s, a as int, a as int, b as int) =~= Seq::<Delimiter>::empty());
        assert(self.diags().take(d0.len() as int) =~= d0);
        assert forall|x: Seq<Diagnostic>| #[trigger] body_reports(s, pos as int, section_start as int, b as int, x) implies body_reports(
            s,
            a as int,
            a as int,
            b as int,
            self.diags().skip(d0.len() as int) + x,
        ) by {
            assert(self.diags().skip(d0.len() as int) + x =~= x);
        }
        while pos < b
            invariant
                d0 == old(self).diags(),
                self.diags().len() >= d0.len(),
                self.diags().take(d0.len() as int) == d0,
                forall|x: Seq<Diagnostic>|
                    #[trigger] body_reports(s, pos as int, section_start as int, b as int, x) ==> body_reports(
                        s,
                        a as int,
                        a as int,
                        b as int,
                        self.diags().skip(d0.len() as int) + x,
                    ),
                done.len() == body.sections@.len(),
                done + section_ranges(s, pos as int, section_start as int, b as int) == section_ranges(
                    s,
                    a as int,
                    a as int,
                    b as int,
                ),
                forall|i: int|
                    0 <= i < done.len() ==> section_read(s, #[trigger] body.sections@[i], done[i].0, done[i].1),
                forall|i: int|
                    0 <= i < done.len() ==> section_scopes(self.tree, s, #[trigger] body.sections@[i], done[i].0, done[i].1),
                sections_texts_ok(self.tree, s, body.sections@),
                self.wf(),
                self.grown_from(old(self)),
                s == self.chars(),
                a <= section_start <= pos <= b,
                b <= self.chars().len(),
                body_sid < self.n_scopes(),
                body_ok(self.tree, body),
                reaches(s, a as int, section_start as int, b as int),
                reaches(s, section_start as int, pos as int, b as int),
                section_shapes_of(body.sections@) + section_shapes(
                    s,
                    pos as int,
                    section_start as int,
                    merge,
                    b as int,
                ) == section_shapes(s, a as int, a as int, false, b as int),
                delims@ == base + delimiters_from(s, a as int, section_start as int, b as int),
                forall|i: int|
                    0 <= i < delimiters_from(s, section_start as int, pos as int, b as int).len() ==> (
                    #[trigger] delimiters_from(s, section_start as int, pos as int, b as int)[i]).kind
                        == DelimiterKind::SubSection,
            decreases b - pos,
        {
            let line = self.next_line(pos, b);
            let ghost next = line.next as int;
            let ghost d1 = self.diags();
            let ghost dd = self.diags().skip(d0.len() as int);
            proof {
                lemma_reaches_step(s, section_start as int, pos as int, b as int);
                lemma_line_at_bounds(s, pos as int, b as int);
            }
            if line.kind == LineKind::SectionSplit || line.kind == LineKind::SectionMerge {
                proof {
                    lemma_delimiters_cut(s, section_start as int, pos as int, b as int);
                }
                if self.has_content(section_start, pos) {
                    let ghost tree0 = self.tree;
                    let ghost sections0 = body.sections@;
                    let section = self.handle_section_node(delims, section_start, pos, body_sid, merge);
                    body.sections.push(section);
                    proof {
                        lemma_body_sections_grow(tree0, self.tree, sections0, section, body.sections@);
                        lemma_sections_scopes_grow(tree0, self.tree, s, sections0, done);
                        lemma_sections_texts_grow(tree0, self.tree, s, sections0);
                        assert forall|i: int| 0 <= i < body.sections@.len() implies subs_texts_ok(
                            self.tree,
                            s,
                            (#[trigger] body.sections@[i]).items@,
                        ) by {
                            if i < sections0.len() {
                                assert(body.sections@[i] == sections0[i]);
                            }
                        }
                        assert forall|i: int| 0 <= i < done.len() + 1 implies section_scopes(
                            self.tree,
                            s,
                            #[trigger] body.sections@[i],
                            done.push((section_start as int, pos as int))[i].0,
                            done.push((section_start as int, pos as int))[i].1,
                        ) by {
                            if i < done.len() {
                                assert(body.sections@[i] == sections0[i]);
                            }
                        }
                        let done0 = done;
                        done = done.push((section_start as int, pos as int));
                        assert(done0 + section_ranges(s, pos as int, section_start as int, b as int) =~= done
                            + section_ranges(s, next, next, b as int));
                        assert forall|i: int| 0 <= i < done.len() implies section_read(
                            s,
                            #[trigger] body.sections@[i],
                            done[i].0,
                            done[i].1,
                        ) by {
                            if i < done0.len() {
                                assert(body.sections@[i] == sections0[i]);
                            }
                        }
                    }
                } else {
                    proof {
                        lemma_no_content_no_delimiters(s, section_start as int, pos as int);
                        assert(section_ranges(s, pos as int, section_start as int, b as int) == section_ranges(s, next, next, b as int));
                    }
                }
                let ghost tree1 = self.tree;
                let kind = if line.kind == LineKind::SectionMerge {
                    DelimiterKind::SectionMerge
                } else {
                    DelimiterKind::SectionSplit
                };
                self.add_delimiter(delims, line.start, line.end, kind);
                proof {
                    lemma_sections_scopes_grow(tree1, self.tree, s, body.sections@, done);
                    lemma_sections_texts_grow(tree1, self.tree, s, body.sections@);
                    let c = self.diags().skip(d1.len() as int);
                    assert(self.diags() =~= d1 + c);
                    assert(self.diags().skip(d0.len() as int) =~= dd + c);
                    assert(self.diags().take(d0.len() as int) =~= d0);
                    assert forall|x: Seq<Diagnostic>| #[trigger] body_reports(s, next, next, b as int, x) implies body_reports(
                        s,
                        a as int,
                        a as int,
                        b as int,
                        self.diags().skip(d0.len() as int) + x,
                    ) by {
                        let y = c + x;
                        assert(y.take(c.len() as int) =~= c);
                        assert(y.skip(c.len() as int) =~= x);
                        if has_content_from(s, section_start as int, pos as int, pos as int) {
                            assert(section_reports(s, section_start as int, section_start as int, pos as int, 0, c));
                        } else {
                            assert(c.len() == 0);
                            assert(y =~= x);
                        }
                        assert(body_reports(s, pos as int, section_start as int, b as int, y));
                        assert(dd + y =~= self.diags().skip(d0.len() as int) + x);
                    }
                    crate::ir::builder::lemma_body_ok_grows(tree1, self.tree, body);
                    lemma_delimiters_split(s, a as int, section_start as int, next, b as int);
                    lemma_reaches_trans(s, a as int, section_start as int, next, b as int);
                    assert(delims@ =~= base + delimiters_from(s, a as int, next, b as int));
                    assert(delimiters_from(s, next, next, b as int) =~= Seq::<Delimiter>::empty());
                }
                merge = line.kind == LineKind::SectionMerge;
                section_start = line.next;
            } else {
                proof {
                    assert(section_ranges(s, pos as int, section_start as int, b as int) == section_ranges(
                        s,
                        next,
                        section_start as int,
                        b as int,
                    ));
                    assert forall|x: Seq<Diagnostic>| #[trigger] body_reports(s, next, section_start as int, b as int, x) implies body_reports(
                        s,
                        a as int,
                        a as int,
                        b as int,
                        self.diags().skip(d0.len() as int) + x,
                    ) by {
                        assert(body_reports(s, pos as int, section_start as int, b as int, x));
                    }
                }
            }
            pos = line.next;
        }
        let ghost d1 = self.diags();
        let ghost dd = self.diags().skip(d0.len() as int);
        proof {
            lemma_delimiters_cut(s, section_start as int, b as int, b as int);
        }
        if self.has_content(section_start, b) {
            let ghost tree0 = self.tree;
            let ghost sections0 = body.sections@;
            let section = self.handle_section_node(delims, section_start, b, body_sid, merge);
            body.sections.push(section);
            proof {
                lemma_body_sections_grow(tree0, self.tree, sections0, section, body.sections@);
                lemma_sections_scopes_grow(tree0, self.tree, s, sections0, done);
                lemma_sections_texts_grow(tree0, self.tree, s, sections0);
                assert forall|i: int| 0 <= i < body.sections@.len() implies subs_texts_ok(
                    self.tree,
                    s,
                    (#[trigger] body.sections@[i]).items@,
                ) by {
                    if i < sections0.len() {
                        assert(body.sections@[i] == sections0[i]);
                    }
                }
                assert forall|i: int| 0 <= i < done.len() + 1 implies section_scopes(
                    self.tree,
                    s,
                    #[trigger] body.sections@[i],
                    done.push((section_start as int, b as int))[i].0,
                    done.push((section_start as int, b as int))[i].1,
                ) by {
                    if i < done.len() {
                        assert(body.sections@[i] == sections0[i]);
                    }
                }
                let done0 = done;
                done = done.push((section_start as int, b as int));
                assert(done0 + section_ranges(s, pos as int, section_start as int, b as int) =~= done);
                assert forall|i: int| 0 <= i < done.len() implies section_read(
                    s,
                    #[trigger] body.sections@[i],
                    done[i].0,
                    done[i].1,
                ) by {
                    if i < done0.len() {
                        assert(body.sections@[i] == sections0[i]);
                    }
                }
                let c = self.diags().skip(d1.len() as int);
                assert(self.diags() =~= d1 + c);
                assert(self.diags().skip(d0.len() as int) =~= dd + c);
                assert(body_reports(s, pos as int, section_start as int, b as int, c));
            }
        } else {
            proof {
                lemma_no_content_no_delimiters(s, section_start as int, b as int);
                assert(done + section_ranges(s, pos as int, section_start as int, b as int) =~= done);
                assert(body_reports(s, pos as int, section_start as int, b as int, Seq::<Diagnostic>::empty()));
                assert(dd + Seq::<Diagnostic>::empty() =~= dd);
            }
        }
        assert(self.diags().take(d0.len() as int) =~= d0);
        proof {
            lemma_delimiters_split(s, a as int, section_start as int, b as int, b as int);
            assert(delims@ =~= base + delimiters_from(s, a as int, b as int, b as int));
        }
        body
    }

    /// Reads the whole document: the header up to the first `---` line, and
    /// the body after it. The delimiters are that line, then every `--`, `<<`
    /// and `++` line of the body, in order; without such a line the document
    /// has no body and no delimiter. The header holds what its lines assign,
    /// the body what its lines read as, and the diagnostics are what parsing
    /// the text reports, line after line. The tree records a scope over the
    /// lines of each section and sub-section, a symbol over a span of the
    /// text each, every lyric text as the source text under its symbol, and
    /// no key reference beyond those it had.
    pub fn parse(self) -> (r: ParserOutput)
        requires
            self.wf(),
        ensures
            r.tree.wf(),
            body_ok(r.tree, r.body),
            r.reporter.spec_stage() == ReportStage::Parsing,
            forall|i: int|
                0 <= i < r.reporter.spec_diagnostics().len() ==> (#[trigger] r.reporter.spec_diagnostics()[i]).stage
                    == ReportStage::Parsing,
            match header_line_from(self.chars(), 0, self.chars().len() as int) {
                Some(line) => {
                    &&& r.delimiters@ == seq![
                        Delimiter {
                            kind: DelimiterKind::Header,
                            range: span(self.chars(), line.start as int, line.end as int),
                        },
                    ] + delimiters_from(
                        self.chars(),
                        line.next as int,
                        self.chars().len() as int,
                        self.chars().len() as int,
                    )
                    &&& section_shapes_of(r.body.sections@) == section_shapes(
                        self.chars(),
                        line.next as int,
                        line.next as int,
                        false,
                        self.chars().len() as int,
                    )
                    &&& body_read(self.chars(), r.body, line.next as int, self.chars().len() as int)
                    &&& body_scopes(r.tree, self.chars(), r.body, line.next as int, self.chars().len() as int)
                },
                None => r.delimiters@.len() == 0 && r.body.sections@.len() == 0,
            },
            header_read(self.chars(), r.header),
            forall|k: Seq<char>| #[trigger] r.tree.spec_key_refs(k) == self.key_refs(k),
            sections_texts_ok(r.tree, self.chars(), r.body.sections@),
            forall|i: int|
                0 <= i < r.tree.spec_symbols().len() ==> is_span(self.chars(), #[trigger] r.tree.spec_symbols()[i].range),
            r.reporter.spec_diagnostics().len() >= self.diags().len(),
            r.reporter.spec_diagnostics().take(self.diags().len() as int) == self.diags(),
            parse_reports(self.chars(), r.reporter.spec_diagnostics().skip(self.diags().len() as int)),
    {
        let ghost s = self.chars();
        let ghost d0 = self.diags();
        let mut this = self;
        let mut delims: Vec<Delimiter> = Vec::new();
        let n = this.source.len();
        let mut header_end = n;
        let mut body_start = n;
        let mut delimiter: Option<(usize, usize)> = None;
        let mut pos: usize = 0;
        while pos < n
            invariant_except_break
                delimiter is None,
                header_line_from(s, 0, n as int) == header_line_from(s, pos as int, n as int),
                header_end_from(s, 0, n as int) == header_end_from(s, pos as int, n as int),
                header_end == n,
            invariant
                this.wf(),
                s == this.chars(),
                n == this.chars().len(),
                pos <= n,
                header_end <= body_start <= n,
            ensures
                this.wf(),
                s == this.chars(),
                header_end <= body_start <= n,
                header_end == header_end_from(s, 0, n as int),
                match delimiter {
                    Some((x, y)) => header_line_from(s, 0, n as int) matches Some(line) && x == line.start && y
                        == line.end && body_start == line.next && header_end <= x <= y <= n,
                    None => header_line_from(s, 0, n as int) is None,
                },
            decreases n - pos,
        {
            let line = this.next_line(pos, n);
            proof {
                lemma_line_at_bounds(s, pos as int, n as int);
            }
            if line.kind == LineKind::HeaderDelimiter {
                header_end = pos;
                body_start = line.next;
                delimiter = Some((line.start, line.end));
                break;
            }
            pos = line.next;
        }
        let header = this.handle_header_node(0, header_end);
        let ghost d1 = this.diags();
        let ghost dh = this.diags().skip(d0.len() as int);
        let body = match delimiter {
            Some((x, y)) => {
                this.add_delimiter(&mut delims, x, y, DelimiterKind::Header);
                this.handle_body_node(&mut delims, body_start, n)
            },
            None => Body::new(0),
        };
        proof {
            let c = this.diags().skip(d1.len() as int);
            let all = this.diags().skip(d0.len() as int);
            assert(this.diags() =~= d1 + c);
            assert(all =~= dh + c);
            assert(all.take(dh.len() as int) =~= dh);
            assert(all.skip(dh.len() as int) =~= c);
            assert(this.diags().take(d0.len() as int) =~= d0);
            if delimiter is None {
                assert(c.len() == 0);
            }
            assert(parse_reports(s, all));
        }
        ParserOutput { header, body, tree: this.tree, reporter: this.reporter, delimiters: delims }
    }
}

proof fn lemma_section_items_grow(
    a: SymbolTree,
    b: SymbolTree,
    items0: Seq<SubSection>,
    item: SubSection,
    items: Seq<SubSection>,
)
    requires
        tree_grows(a, b),
        forall|i: int| 0 <= i < items0.len() ==> sub_section_ok(a, #[trigger] items0[i]),
        sub_section_ok(b, item),
        items == items0.push(item),
    ensures
        forall|i: int| 0 <= i < items.len() ==> sub_section_ok(b, #[trigger] items[i]),
{
    assert forall|i: int| 0 <= i < items.len() implies sub_section_ok(b, #[trigger] items[i]) by {
        if i < items0.len() {
            lemma_sub_section_ok_grows(a, b, items0[i]);
        }
    }
}

proof fn lemma_body_sections_grow(
    a: SymbolTree,
    b: SymbolTree,
    sections0: Seq<Section>,
    section: Section,
    sections: Seq<Section>,
)
    requires
        tree_grows(a, b),
        forall|i: int| 0 <= i < sections0.len() ==> section_ok(a, #[trigger] sections0[i]),
        section_ok(b, section),
        sections == sections0.push(section),
    ensures
        forall|i: int| 0 <= i < sections.len() ==> section_ok(b, #[trigger] sections[i]),
{
    assert forall|i: int| 0 <= i < sections.len() implies section_ok(b, #[trigger] sections[i]) by {
        if i < sections0.len() {
            lemma_section_ok_grows(a, b, sections0[i]);
        }
    }
}

impl ParseNode for usize {
    open spec fn spec_parsed(s: Seq<char>, sh: NodeShape, r: Option<usize>) -> bool {
        r == spec_usize_node(s, sh)
    }

    open spec fn spec_symbol_kind() -> SymbolKind {
        SymbolKind::Value(Value::Primitive(Primitive::Integer))
    }

    open spec fn spec_primitive() -> Primitive {
        Primitive::Integer
    }

    open spec fn spec_reports(s: Seq<char>, sh: NodeShape) -> Seq<Diagnostic> {
        match shape_scalar(sh) {
            Some(sc) => if sc.kind == ScalarKind::Integer {
                if spec_parse_usize(s.subrange(sc.start as int, sc.end as int)) is Some {
                    Seq::empty()
                } else {
                    node_error(s, sh, DiagnosticKind::InvalidType("integer"))
                }
            } else {
                node_error(s, sh, DiagnosticKind::ExpectedType("integer", sc.kind.spec_name_str()))
            },
            None => node_error(s, sh, DiagnosticKind::ExpectedType("integer", shape_kind_str(sh))),
        }
    }

    fn parse_node(context: &mut Parser, node: &ValueNode, scope_id: ScopeId) -> (r: Option<usize>) {
        match node_scalar(node) {
            Some(sc) => {
                if sc.kind == ScalarKind::Integer {
                    let text = context.source.slice(sc.start, sc.end);
                    match parse_usize(text) {
                        Some(v) => Some(v),
                        None => {
                            context.error(node.start, node.end, DiagnosticKind::InvalidType("integer"));
                            None
                        },
                    }
                } else {
                    context.error(node.start, node.end, DiagnosticKind::ExpectedType("integer", sc.kind.name()));
                    None
                }
            },
            None => {
                context.error(node.start, node.end, DiagnosticKind::ExpectedType("integer", node_kind_name(node)));
                None
            },
        }
    }

    fn symbol_kind() -> SymbolKind {
        SymbolKind::Value(Value::Primitive(Primitive::Integer))
    }

    fn primitive() -> Primitive {
        Primitive::Integer
    }
}

impl ParseNode for String {
    open spec fn spec_parsed(s: Seq<char>, sh: NodeShape, r: Option<String>) -> bool {
        match shape_scalar(sh) {
            Some(sc) => if sc.kind == ScalarKind::Str {
                r matches Some(t) && t@ == s.subrange(sc.text_start as int, sc.text_end as int)
            } else {
                r is None
            },
            None => r is None,
        }
    }

    open spec fn spec_symbol_kind() -> SymbolKind {
        SymbolKind::Value(Value::Primitive(Primitive::String))
    }

    open spec fn spec_primitive() -> Primitive {
        Primitive::String
    }

    open spec fn spec_reports(s: Seq<char>, sh: NodeShape) -> Seq<Diagnostic> {
        match shape_scalar(sh) {
            Some(sc) => if sc.kind == ScalarKind::Str {
                Seq::empty()
            } else {
                node_error(s, sh, DiagnosticKind::ExpectedType("string", sc.kind.spec_name_str()))
            },
            None => node_error(s, sh, DiagnosticKind::ExpectedType("string", shape_kind_str(sh))),
        }
    }

    fn parse_node(context: &mut Parser, node: &ValueNode, scope_id: ScopeId) -> (r: Option<String>) {
        match node_scalar(node) {
            Some(sc) => {
                if sc.kind == ScalarKind::Str {
                    Some(context.source.text(sc.text_start, sc.text_end))
                } else {
                    context.error(node.start, node.end, DiagnosticKind::ExpectedType("string", sc.kind.name()));
                    None
                }
            },
            None => {
                context.error(node.start, node.end, DiagnosticKind::ExpectedType("string", node_kind_name(node)));
                None
            },
        }
    }

    fn symbol_kind() -> SymbolKind {
        SymbolKind::Value(Value::Primitive(Primitive::String))
    }

    fn primitive() -> Primitive {
        Primitive::String
    }
}

impl ParseNode for Key {
    open spec fn spec_parsed(s: Seq<char>, sh: NodeShape, r: Option<Key>) -> bool {
        r == match Key::spec_try_from(spec_node_text(s, sh)) {
            Ok(v) => Some(v),
            Err(_) => None,
        }
    }

    open spec fn spec_symbol_kind() -> SymbolKind {
        SymbolKind::Value(Value::Primitive(Primitive::Key))
    }

    open spec fn spec_primitive() -> Primitive {
        Primitive::Key
    }

    open spec fn spec_reports(s: Seq<char>, sh: NodeShape) -> Seq<Diagnostic> {
        if Key::spec_try_from(spec_node_text(s, sh)) is Ok {
            Seq::empty()
        } else {
            node_error(s, sh, DiagnosticKind::InvalidType("key"))
        }
    }

    fn parse_node(context: &mut Parser, node: &ValueNode, scope_id: ScopeId) -> (r: Option<Key>) {
        let text = context.node_text(node);
        match Key::try_from(text) {
            Ok(v) => Some(v),
            Err(()) => {
                context.error(node.start, node.end, DiagnosticKind::InvalidType("key"));
                None
            },
        }
    }

    fn symbol_kind() -> SymbolKind {
        SymbolKind::Value(Value::Primitive(Primitive::Key))
    }

    fn primitive() -> Primitive {
        Primitive::Key
    }
}

impl ParseNode for Voice {
    open spec fn spec_parsed(s: Seq<char>, sh: NodeShape, r: Option<Voice>) -> bool {
        r == match Voice::spec_try_from(spec_node_text(s, sh)) {
            Ok(v) => Some(v),
            Err(_) => None,
        }
    }

    open spec fn spec_symbol_kind() -> SymbolKind {
        SymbolKind::Value(Value::Primitive(Primitive::Voice))
    }

    open spec fn spec_primitive() -> Primitive {
        Primitive::Voice
    }

    open spec fn spec_reports(s: Seq<char>, sh: NodeShape) -> Seq<Diagnostic> {
        if Voice::spec_try_from(spec_node_text(s, sh)) is Ok {
            Seq::empty()
        } else {
            node_error(s, sh, DiagnosticKind::InvalidType("voice"))
        }
    }

    fn parse_node(context: &mut Parser, node: &ValueNode, scope_id: ScopeId) -> (r: Option<Voice>) {
        let text = context.node_text(node);
        match Voice::try_from(text) {
            Ok(v) => Some(v),
            Err(()) => {
                context.error(node.start, node.end, DiagnosticKind::InvalidType("voice"));
                None
            },
        }
    }

    fn symbol_kind() -> SymbolKind {
        SymbolKind::Value(Value::Primitive(Primitive::Voice))
    }

    fn primitive() -> Primitive {
        Primitive::Voice
    }
}

impl ParseNode for Tempo {
    open spec fn spec_parsed(s: Seq<char>, sh: NodeShape, r: Option<Tempo>) -> bool {
        r == match ExtendedTempo::spec_try_from(spec_node_text(s, sh)) {
            Ok(v) => Some(v),
            Err(_) => None,
        }
    }

    open spec fn spec_symbol_kind() -> SymbolKind {
        SymbolKind::Value(Value::Primitive(Primitive::Tempo))
    }

    open spec fn spec_primitive() -> Primitive {
        Primitive::Tempo
    }

    open spec fn spec_reports(s: Seq<char>, sh: NodeShape) -> Seq<Diagnostic> {
        if ExtendedTempo::spec_try_from(spec_node_text(s, sh)) is Ok {
            Seq::empty()
        } else {
            node_error(s, sh, DiagnosticKind::InvalidType("tempo"))
        }
    }

    fn parse_node(context: &mut Parser, node: &ValueNode, scope_id: ScopeId) -> (r: Option<Tempo>) {
        let text = context.node_text(node);
        match Tempo::try_from(text) {
            Ok(v) => Some(v),
            Err(()) => {
                context.error(node.start, node.end, DiagnosticKind::InvalidType("tempo"));
                None
            },
        }
    }

    fn symbol_kind() -> SymbolKind {
        SymbolKind::Value(Value::Primitive(Primitive::Tempo))
    }

    fn primitive() -> Primitive {
        Primitive::Tempo
    }
}

impl ParseNode for Jump {
    open spec fn spec_parsed(s: Seq<char>, sh: NodeShape, r: Option<Jump>) -> bool {
        r == match Jump::spec_try_from(spec_node_text(s, sh)) {
            Ok(v) => Some(v),
            Err(_) => None,
        }
    }

    open spec fn spec_symbol_kind() -> SymbolKind {
        SymbolKind::Value(Value::Primitive(Primitive::Jump))
    }

    open spec fn spec_primitive() -> Primitive {
        Primitive::Jump
    }

    open spec fn spec_reports(s: Seq<char>, sh: NodeShape) -> Seq<Diagnostic> {
        if Jump::spec_try_from(spec_node_text(s, sh)) is Ok {
            Seq::empty()
        } else {
            node_error(s, sh, DiagnosticKind::InvalidType("jump"))
        }
    }

    fn parse_node(context: &mut Parser, node: &ValueNode, scope_id: ScopeId) -> (r: Option<Jump>) {
        let text = context.node_text(node);
        match Jump::try_from(text) {
            Ok(v) => Some(v),
            Err(()) => {
                context.error(node.start, node.end, DiagnosticKind::InvalidType("jump"));
                None
            },
        }
    }

    fn symbol_kind() -> SymbolKind {
        SymbolKind::Value(Value::Primitive(Primitive::Jump))
    }

    fn primitive() -> Primitive {
        Primitive::Jump
    }
}

impl ParseNode for Mark {
    open spec fn spec_parsed(s: Seq<char>, sh: NodeShape, r: Option<Mark>) -> bool {
        r == match Mark::spec_try_from(spec_node_text(s, sh)) {
            Ok(v) => Some(v),
            Err(_) => None,
        }
    }

    open spec fn spec_symbol_kind() -> SymbolKind {
        SymbolKind::Value(Value::Primitive(Primitive::Mark))
    }

    open spec fn spec_primitive() -> Primitive {
        Primitive::Mark
    }

    open spec fn spec_reports(s: Seq<char>, sh: NodeShape) -> Seq<Diagnostic> {
        if Mark::spec_try_from(spec_node_text(s, sh)) is Ok {
            Seq::empty()
        } else {
            node_error(s, sh, DiagnosticKind::InvalidType("mark"))
        }
    }

    fn parse_node(context: &mut Parser, node: &ValueNode, scope_id: ScopeId) -> (r: Option<Mark>) {
        let text = context.node_text(node);
        match Mark::try_from(text) {
            Ok(v) => Some(v),
            Err(()) => {
                context.error(node.start, node.end, DiagnosticKind::InvalidType("mark"));
                None
            },
        }
    }

    fn symbol_kind() -> SymbolKind {
        SymbolKind::Value(Value::Primitive(Primitive::Mark))
    }

    fn primitive() -> Primitive {
        Primitive::Mark
    }
}

impl ParseNode for Dynamic {
    open spec fn spec_parsed(s: Seq<char>, sh: NodeShape, r: Option<Dynamic>) -> bool {
        r == match Dynamic::spec_try_from(spec_node_text(s, sh)) {
            Ok(v) => Some(v),
            Err(_) => None,
        }
    }

    open spec fn spec_symbol_kind() -> SymbolKind {
        SymbolKind::Value(Value::Primitive(Primitive::Dynamic))
    }

    open spec fn spec_primitive() -> Primitive {
        Primitive::Dynamic
    }

    open spec fn spec_reports(s: Seq<char>, sh: NodeShape) -> Seq<Diagnostic> {
        if Dynamic::spec_try_from(spec_node_text(s, sh)) is Ok {
            Seq::empty()
        } else {
            node_error(s, sh, DiagnosticKind::InvalidType("dynamic"))
        }
    }

    fn parse_node(context: &mut Parser, node: &ValueNode, scope_id: ScopeId) -> (r: Option<Dynamic>) {
        let text = context.node_text(node);
        match Dynamic::try_from(text) {
            Ok(v) => Some(v),
            Err(()) => {
                context.error(node.start, node.end, DiagnosticKind::InvalidType("dynamic"));
                None
            },
        }
    }

    fn symbol_kind() -> SymbolKind {
        SymbolKind::Value(Value::Primitive(Primitive::Dynamic))
    }

    fn primitive() -> Primitive {
        Primitive::Dynamic
    }
}

impl<T: ParseNode> ParseNode for Vec<SymbolRef<T>> {
    open spec fn spec_parsed(s: Seq<char>, sh: NodeShape, r: Option<Vec<SymbolRef<T>>>) -> bool {
        if !sh.0 {
            match r {
                Some(v) => v@.len() == 1 && T::spec_parsed(s, sh, Some(v@[0].value)),
                None => T::spec_parsed(s, sh, None),
            }
        } else {
            r matches Some(v) && list_parsed(s, sh.3, ref_values(v@))
        }
    }

    open spec fn spec_symbol_kind() -> SymbolKind {
        SymbolKind::Value(Value::List(T::spec_primitive()))
    }

    open spec fn spec_primitive() -> Primitive {
        T::spec_primitive()
    }

    open spec fn spec_reports(s: Seq<char>, sh: NodeShape) -> Seq<Diagnostic> {
        if !sh.0 {
            T::spec_reports(s, sh)
        } else {
            list_reports::<T>(s, sh.3)
        }
    }

    fn parse_node(context: &mut Parser, node: &ValueNode, scope_id: ScopeId) -> (r: Option<Vec<SymbolRef<T>>>) {
        let list_scope = context.add_scope(ScopeKind::List, node.start, node.end, scope_id);
        let mut result: Vec<SymbolRef<T>> = Vec::new();
        if !node.is_list {
            let value = T::parse_node(context, node, scope_id);
            if let Some(value) = value {
                let sid = context.add_symbol(T::symbol_kind(), node.start, node.end, list_scope);
                result.push(SymbolRef { sid, value });
                return Some(result);
            }
            return None;
        }
        let ghost s = context.chars();
        let n = node.items.len();
        let mut k: usize = 0;
        assert(ref_values(result@) =~= Seq::<T>::empty());
        assert(context.diags() =~= old(context).diags() + list_reports::<T>(s, node.items@.subrange(0, 0)));
        assert(node.items@.subrange(0, 0) =~= Seq::<Item>::empty());
        while k < n
            invariant
                context.wf(),
                context.grown_from(old(context)),
                s == old(context).chars(),
                node_ok(*node, context.chars().len() as int),
                n == node.items@.len(),
                k <= n,
                scope_id < context.n_scopes(),
                list_scope < context.n_scopes(),
                list_parsed(s, node.items@.subrange(0, k as int), ref_values(result@)),
                context.diags() == old(context).diags() + list_reports::<T>(s, node.items@.subrange(0, k as int)),
            decreases n - k,
        {
            let item = node.items[k];
            let child = item_node(item);
            assert(shape(child) == item_shape(item));
            let ghost before = result@;
            let ghost diags0 = context.diags();
            let value = T::parse_node(context, &child, scope_id);
            let ghost upto = node.items@.subrange(0, k as int + 1);
            assert(upto.drop_last() =~= node.items@.subrange(0, k as int));
            assert(upto.last() == item);
            assert(context.diags() =~= old(context).diags() + list_reports::<T>(s, upto));
            if let Some(value) = value {
                let sid = context.add_symbol(T::symbol_kind(), item.start, item.end, list_scope);
                result.push(SymbolRef { sid, value });
                assert(ref_values(result@).drop_last() =~= ref_values(before));
                assert(ref_values(result@).last() == value);
            }
            k = k + 1;
        }
        assert(node.items@.subrange(0, n as int) =~= node.items@);
        Some(result)
    }

    fn symbol_kind() -> SymbolKind {
        SymbolKind::Value(Value::List(T::primitive()))
    }

    fn primitive() -> Primitive {
        T::primitive()
    }
}

impl ParseNode for TimeSignature {
    open spec fn spec_parsed(s: Seq<char>, sh: NodeShape, r: Option<TimeSignature>) -> bool {
        r == spec_time_signature(s, sh)
    }

    open spec fn spec_symbol_kind() -> SymbolKind {
        SymbolKind::Value(Value::List(Primitive::Integer))
    }

    open spec fn spec_primitive() -> Primitive {
        Primitive::Integer
    }

    open spec fn spec_reports(s: Seq<char>, sh: NodeShape) -> Seq<Diagnostic> {
        <Vec<SymbolRef<usize>> as ParseNode>::spec_reports(s, sh) + if spec_usize_list(s, sh) is Some
            && spec_time_signature(s, sh) is None {
            node_error(s, sh, DiagnosticKind::InvalidTimeSignature)
        } else {
            Seq::empty()
        }
    }

    fn parse_node(context: &mut Parser, node: &ValueNode, scope_id: ScopeId) -> (r: Option<TimeSignature>) {
        let values = <Vec<SymbolRef<usize>> as ParseNode>::parse_node(context, node, scope_id);
        match values {
            Some(values) => {
                proof {
                    let s = old(context).chars();
                    if node.is_list {
                        lemma_usize_list_parsed(s, node.items@, ref_values(values@));
                    }
                    assert(ref_values(values@).len() == values@.len());
                    if values@.len() == 2 {
                        assert(ref_values(values@)[0] == values@[0].value);
                        assert(ref_values(values@)[1] == values@[1].value);
                    }
                }
                if values.len() == 2 && values[0].value > 0 && values[1].value > 0 {
                    Some(TimeSignature { top: values[0].value, bottom: values[1].value })
                } else {
                    context.error(node.start, node.end, DiagnosticKind::InvalidTimeSignature);
                    None
                }
            },
            None => None,
        }
    }

    fn symbol_kind() -> SymbolKind {
        SymbolKind::Value(Value::List(Primitive::Integer))
    }

    fn primitive() -> Primitive {
        Primitive::Integer
    }
}

impl<T: ParseNode> ParseNode for TimedValue<T> {
    open spec fn spec_parsed(s: Seq<char>, sh: NodeShape, r: Option<TimedValue<T>>) -> bool {
        if sh.3.len() != 1 || sh.3[0].from is None {
            match r {
                Some(tv) => T::spec_parsed(s, sh, Some(tv.value)) && tv.start == Decimal {
                    numerator: 0,
                    denominator: 1,
                } && tv.end is None,
                None => T::spec_parsed(s, sh, None),
            }
        } else {
            let item = sh.3[0];
            let start = spec_decimal(s, item.from->0);
            let end = match item.to {
                Some(t) => spec_decimal(s, t),
                None => None,
            };
            match r {
                Some(tv) => T::spec_parsed(s, plain_shape(item), Some(tv.value)) && start == Some(tv.start) && tv.end
                    == end,
                None => T::spec_parsed(s, plain_shape(item), None) || start is None,
            }
        }
    }

    open spec fn spec_symbol_kind() -> SymbolKind {
        T::spec_symbol_kind()
    }

    open spec fn spec_primitive() -> Primitive {
        T::spec_primitive()
    }

    open spec fn spec_reports(s: Seq<char>, sh: NodeShape) -> Seq<Diagnostic> {
        if sh.3.len() != 1 || sh.3[0].from is None {
            T::spec_reports(s, sh)
        } else {
            let item = sh.3[0];
            T::spec_reports(s, plain_shape(item)) + decimal_reports(s, item.from->0) + match item.to {
                Some(t) => decimal_reports(s, t),
                None => Seq::empty(),
            }
        }
    }

    fn parse_node(context: &mut Parser, node: &ValueNode, scope_id: ScopeId) -> (r: Option<TimedValue<T>>) {
        if node.items.len() != 1 || node.items[0].from.is_none() {
            let value = T::parse_node(context, node, scope_id);
            return match value {
                Some(value) => Some(TimedValue { start: Decimal { numerator: 0, denominator: 1 }, end: None, value }),
                None => None,
            };
        }
        let item = node.items[0];
        let plain = Item { value: item.value, from: None, to: None, start: item.value.start, end: item.value.end };
        let value_node = item_node(plain);
        let value = T::parse_node(context, &value_node, scope_id);
        let start = match item.from {
            Some(from) => context.parse_decimal(from),
            None => None,
        };
        let end = match item.to {
            Some(to) => context.parse_decimal(to),
            None => None,
        };
        match (value, start) {
            (Some(value), Some(start)) => Some(TimedValue { start, end, value }),
            _ => None,
        }
    }

    fn symbol_kind() -> SymbolKind {
        T::symbol_kind()
    }

    fn primitive() -> Primitive {
        T::primitive()
    }
}

impl FieldAssign for HeaderMetadata {
    open spec fn fields_ok(&self, n: int) -> bool {
        &&& field_ok(self.title, n)
        &&& field_ok(self.author, n)
        &&& field_ok(self.composer, n)
        &&& field_ok(self.voices, n)
        &&& field_ok(self.verses, n)
        &&& field_ok(self.meter, n)
        &&& field_ok(self.description, n)
        &&& field_ok(self.release, n)
        &&& field_ok(self.language, n)
        &&& field_ok(self.tags, n)
    }

    open spec fn spec_assigned(old: HeaderMetadata, new: HeaderMetadata, data: AssignmentData, s: Seq<char>, n: int) -> bool {
        let k = data.key_name@;
        if k == "title"@ {
            field_assigned(new.title, data, s, n) && new == (HeaderMetadata { title: new.title, ..old })
        } else if k == "author"@ {
            field_assigned(new.author, data, s, n) && new == (HeaderMetadata { author: new.author, ..old })
        } else if k == "composer"@ {
            field_assigned(new.composer, data, s, n) && new == (HeaderMetadata { composer: new.composer, ..old })
        } else if k == "voices"@ {
            field_assigned(new.voices, data, s, n) && new == (HeaderMetadata { voices: new.voices, ..old })
        } else if k == "verses"@ {
            field_assigned(new.verses, data, s, n) && new == (HeaderMetadata { verses: new.verses, ..old })
        } else if k == "meter"@ {
            field_assigned(new.meter, data, s, n) && new == (HeaderMetadata { meter: new.meter, ..old })
        } else if k == "description"@ {
            field_assigned(new.description, data, s, n) && new == (HeaderMetadata { description: new.description, ..old })
        } else if k == "release"@ {
            field_assigned(new.release, data, s, n) && new == (HeaderMetadata { release: new.release, ..old })
        } else if k == "language"@ {
            field_assigned(new.language, data, s, n) && new == (HeaderMetadata { language: new.language, ..old })
        } else if k == "tags"@ {
            field_assigned(new.tags, data, s, n) && new == (HeaderMetadata { tags: new.tags, ..old })
        } else {
            new == old
        }
    }

    open spec fn spec_assign_reports(
        old: HeaderMetadata,
        new: HeaderMetadata,
        data: AssignmentData,
        s: Seq<char>,
        symbols: Seq<Symbol>,
        scopes: Seq<Scope>,
    ) -> Seq<Diagnostic> {
        let k = data.key_name@;
        if k == "title"@ {
            reassignment_reports(old.title, data, symbols, scopes) + <String as ParseNode>::spec_reports(
                s,
                shape(data.value),
            )
        } else if k == "author"@ {
            reassignment_reports(old.author, data, symbols, scopes) + <List<String> as ParseNode>::spec_reports(
                s,
                shape(data.value),
            )
        } else if k == "composer"@ {
            reassignment_reports(old.composer, data, symbols, scopes) + <List<String> as ParseNode>::spec_reports(
                s,
                shape(data.value),
            )
        } else if k == "voices"@ {
            reassignment_reports(old.voices, data, symbols, scopes) + <List<Voice> as ParseNode>::spec_reports(
                s,
                shape(data.value),
            )
        } else if k == "verses"@ {
            reassignment_reports(old.verses, data, symbols, scopes) + <usize as ParseNode>::spec_reports(
                s,
                shape(data.value),
            )
        } else if k == "meter"@ {
            reassignment_reports(old.meter, data, symbols, scopes) + <List<usize> as ParseNode>::spec_reports(
                s,
                shape(data.value),
            )
        } else if k == "description"@ {
            reassignment_reports(old.description, data, symbols, scopes) + <String as ParseNode>::spec_reports(
                s,
                shape(data.value),
            )
        } else if k == "release"@ {
            reassignment_reports(old.release, data, symbols, scopes) + <usize as ParseNode>::spec_reports(
                s,
                shape(data.value),
            )
        } else if k == "language"@ {
            reassignment_reports(old.language, data, symbols, scopes) + <String as ParseNode>::spec_reports(
                s,
                shape(data.value),
            )
        } else if k == "tags"@ {
            reassignment_reports(old.tags, data, symbols, scopes) + <List<String> as ParseNode>::spec_reports(
                s,
                shape(data.value),
            )
        } else {
            seq![
                Diagnostic {
                    level: DiagnosticLevel::Error,
                    stage: ReportStage::Parsing,
                    kind: DiagnosticKind::UnknownField(data.key_name),
                    range: data.full_range,
                },
            ]
        }
    }

    proof fn lemma_fields_grow(&self, n: int, m: int) {
    }

    fn assign_field(&mut self, data: AssignmentData, context: &mut Parser) {
        let key = data.key_name.as_str();
        if str_eq(key, "title") {
            context.assign_field(&data, &mut self.title);
        } else if str_eq(key, "author") {
            context.assign_field(&data, &mut self.author);
        } else if str_eq(key, "composer") {
            context.assign_field(&data, &mut self.composer);
        } else if str_eq(key, "voices") {
            context.assign_field(&data, &mut self.voices);
        } else if str_eq(key, "verses") {
            context.assign_field(&data, &mut self.verses);
        } else if str_eq(key, "meter") {
            context.assign_field(&data, &mut self.meter);
        } else if str_eq(key, "description") {
            context.assign_field(&data, &mut self.description);
        } else if str_eq(key, "release") {
            context.assign_field(&data, &mut self.release);
        } else if str_eq(key, "language") {
            context.assign_field(&data, &mut self.language);
        } else if str_eq(key, "tags") {
            context.assign_field(&data, &mut self.tags);
        } else {
            context.reporter.error(data.full_range, DiagnosticKind::UnknownField(data.key_name.clone()));
        }
    }
}

impl FieldAssign for InitialParams {
    open spec fn fields_ok(&self, n: int) -> bool {
        &&& field_ok(self.key, n)
        &&& field_ok(self.time, n)
        &&& field_ok(self.tempo, n)
        &&& field_ok(self.voices, n)
    }

    open spec fn spec_assigned(old: InitialParams, new: InitialParams, data: AssignmentData, s: Seq<char>, n: int) -> bool {
        let k = data.key_name@;
        if k == "key"@ {
            field_assigned(new.key, data, s, n) && new == (InitialParams { key: new.key, ..old })
        } else if k == "time"@ {
            field_assigned(new.time, data, s, n) && new == (InitialParams { time: new.time, ..old })
        } else if k == "tempo"@ {
            field_assigned(new.tempo, data, s, n) && new == (InitialParams { tempo: new.tempo, ..old })
        } else if k == "voices"@ {
            field_assigned(new.voices, data, s, n) && new == (InitialParams { voices: new.voices, ..old })
        } else {
            new == old
        }
    }

    open spec fn spec_assign_reports(
        old: InitialParams,
        new: InitialParams,
        data: AssignmentData,
        s: Seq<char>,
        symbols: Seq<Symbol>,
        scopes: Seq<Scope>,
    ) -> Seq<Diagnostic> {
        let k = data.key_name@;
        if k == "key"@ {
            reassignment_reports(old.key, data, symbols, scopes) + <Key as ParseNode>::spec_reports(
                s,
                shape(data.value),
            )
        } else if k == "time"@ {
            reassignment_reports(old.time, data, symbols, scopes) + <TimeSignature as ParseNode>::spec_reports(
                s,
                shape(data.value),
            )
        } else if k == "tempo"@ {
            reassignment_reports(old.tempo, data, symbols, scopes) + <Tempo as ParseNode>::spec_reports(
                s,
                shape(data.value),
            )
        } else if k == "voices"@ {
            reassignment_reports(old.voices, data, symbols, scopes) + <List<Voice> as ParseNode>::spec_reports(
                s,
                shape(data.value),
            )
        } else {
            seq![
                Diagnostic {
                    level: DiagnosticLevel::Error,
                    stage: ReportStage::Parsing,
                    kind: DiagnosticKind::UnknownParameter(data.key_name),
                    range: data.full_range,
                },
            ]
        }
    }

    proof fn lemma_fields_grow(&self, n: int, m: int) {
    }

    fn assign_field(&mut self, data: AssignmentData, context: &mut Parser) {
        let key = data.key_name.as_str();
        if str_eq(key, "key") {
            context.assign_field(&data, &mut self.key);
        } else if str_eq(key, "time") {
            context.assign_field(&data, &mut self.time);
        } else if str_eq(key, "tempo") {
            context.assign_field(&data, &mut self.tempo);
        } else if str_eq(key, "voices") {
            context.assign_field(&data, &mut self.voices);
        } else {
            context.reporter.error(data.full_range, DiagnosticKind::UnknownParameter(data.key_name.clone()));
        }
    }
}

impl FieldAssign for SectionParams {
    open spec fn fields_ok(&self, n: int) -> bool {
        &&& field_ok(self.time, n)
        &&& field_ok(self.tempo, n)
        &&& field_ok(self.label, n)
        &&& field_ok(self.ending, n)
        &&& field_ok(self.key, n)
        &&& field_ok(self.jump, n)
        &&& field_ok(self.mark, n)
        &&& field_ok(self.repeat, n)
    }

    open spec fn spec_assigned(old: SectionParams, new: SectionParams, data: AssignmentData, s: Seq<char>, n: int) -> bool {
        let k = data.key_name@;
        if k == "label"@ {
            field_assigned(new.label, data, s, n) && new == (SectionParams { label: new.label, ..old })
        } else if k == "key"@ {
            field_assigned(new.key, data, s, n) && new == (SectionParams { key: new.key, ..old })
        } else if k == "time"@ {
            field_assigned(new.time, data, s, n) && new == (SectionParams { time: new.time, ..old })
        } else if k == "tempo"@ {
            field_assigned(new.tempo, data, s, n) && new == (SectionParams { tempo: new.tempo, ..old })
        } else if k == "ending"@ {
            field_assigned(new.ending, data, s, n) && new == (SectionParams { ending: new.ending, ..old })
        } else if k == "jump"@ {
            field_assigned(new.jump, data, s, n) && new == (SectionParams { jump: new.jump, ..old })
        } else if k == "mark"@ {
            field_assigned(new.mark, data, s, n) && new == (SectionParams { mark: new.mark, ..old })
        } else if k == "repeat"@ {
            field_assigned(new.repeat, data, s, n) && new == (SectionParams { repeat: new.repeat, ..old })
        } else {
            new == old
        }
    }

    open spec fn spec_assign_reports(
        old: SectionParams,
        new: SectionParams,
        data: AssignmentData,
        s: Seq<char>,
        symbols: Seq<Symbol>,
        scopes: Seq<Scope>,
    ) -> Seq<Diagnostic> {
        let k = data.key_name@;
        if k == "label"@ {
            reassignment_reports(old.label, data, symbols, scopes) + <String as ParseNode>::spec_reports(
                s,
                shape(data.value),
            )
        } else if k == "key"@ {
            reassignment_reports(old.key, data, symbols, scopes) + <Key as ParseNode>::spec_reports(
                s,
                shape(data.value),
            )
        } else if k == "time"@ {
            reassignment_reports(old.time, data, symbols, scopes) + <TimeSignature as ParseNode>::spec_reports(
                s,
                shape(data.value),
            )
        } else if k == "tempo"@ {
            reassignment_reports(old.tempo, data, symbols, scopes) + <Tempo as ParseNode>::spec_reports(
                s,
                shape(data.value),
            )
        } else if k == "ending"@ {
            reassignment_reports(old.ending, data, symbols, scopes) + <usize as ParseNode>::spec_reports(
                s,
                shape(data.value),
            )
        } else if k == "jump"@ {
            reassignment_reports(old.jump, data, symbols, scopes) + <Jump as ParseNode>::spec_reports(
                s,
                shape(data.value),
            )
        } else if k == "mark"@ {
            reassignment_reports(old.mark, data, symbols, scopes) + <Mark as ParseNode>::spec_reports(
                s,
                shape(data.value),
            )
        } else if k == "repeat"@ {
            reassignment_reports(old.repeat, data, symbols, scopes) + <usize as ParseNode>::spec_reports(
                s,
                shape(data.value),
            )
        } else if k == "dynamics"@ {
            Seq::empty()
        } else {
            seq![
                Diagnostic {
                    level: DiagnosticLevel::Error,
                    stage: ReportStage::Parsing,
                    kind: DiagnosticKind::UnknownParameter(data.key_name),
                    range: data.full_range,
                },
            ]
        }
    }

    proof fn lemma_fields_grow(&self, n: int, m: int) {
    }

    fn assign_field(&mut self, data: AssignmentData, context: &mut Parser) {
        let key = data.key_name.as_str();
        if str_eq(key, "label") {
            context.assign_field(&data, &mut self.label);
        } else if str_eq(key, "key") {
            context.assign_field(&data, &mut self.key);
        } else if str_eq(key, "time") {
            context.assign_field(&data, &mut self.time);
        } else if str_eq(key, "tempo") {
            context.assign_field(&data, &mut self.tempo);
        } else if str_eq(key, "ending") {
            context.assign_field(&data, &mut self.ending);
        } else if str_eq(key, "jump") {
            context.assign_field(&data, &mut self.jump);
        } else if str_eq(key, "mark") {
            context.assign_field(&data, &mut self.mark);
        } else if str_eq(key, "repeat") {
            context.assign_field(&data, &mut self.repeat);
        } else if str_eq(key, "dynamics") {
        } else {
            context.reporter.error(data.full_range, DiagnosticKind::UnknownParameter(data.key_name.clone()));
        }
    }
}

impl FieldAssign for SectionMetadata {
    open spec fn fields_ok(&self, n: int) -> bool {
        &&& field_ok(self.name, n)
        &&& field_ok(self.ending, n)
    }

    open spec fn spec_assigned(old: SectionMetadata, new: SectionMetadata, data: AssignmentData, s: Seq<char>, n: int) -> bool {
        let k = data.key_name@;
        if k == "name"@ {
            field_assigned(new.name, data, s, n) && new == (SectionMetadata { name: new.name, ..old })
        } else if k == "ending"@ {
            field_assigned(new.ending, data, s, n) && new == (SectionMetadata { ending: new.ending, ..old })
        } else {
            new == old
        }
    }

    open spec fn spec_assign_reports(
        old: SectionMetadata,
        new: SectionMetadata,
        data: AssignmentData,
        s: Seq<char>,
        symbols: Seq<Symbol>,
        scopes: Seq<Scope>,
    ) -> Seq<Diagnostic> {
        let k = data.key_name@;
        if k == "name"@ {
            reassignment_reports(old.name, data, symbols, scopes) + <String as ParseNode>::spec_reports(
                s,
                shape(data.value),
            )
        } else if k == "ending"@ {
            reassignment_reports(old.ending, data, symbols, scopes) + <usize as ParseNode>::spec_reports(
                s,
                shape(data.value),
            )
        } else {
            seq![
                Diagnostic {
                    level: DiagnosticLevel::Error,
                    stage: ReportStage::Parsing,
                    kind: DiagnosticKind::UnknownField(data.key_name),
                    range: data.full_range,
                },
            ]
        }
    }

    proof fn lemma_fields_grow(&self, n: int, m: int) {
    }

    fn assign_field(&mut self, data: AssignmentData, context: &mut Parser) {
        let key = data.key_name.as_str();
        if str_eq(key, "name") {
            context.assign_field(&data, &mut self.name);
        } else if str_eq(key, "ending") {
            context.assign_field(&data, &mut self.ending);
        } else {
            context.reporter.error(data.full_range, DiagnosticKind::UnknownField(data.key_name.clone()));
        }
    }
}

impl FieldAssign for SubSectionParams {
    open spec fn fields_ok(&self, n: int) -> bool {
        field_ok(self.dynamics, n)
    }

    open spec fn spec_assigned(old: SubSectionParams, new: SubSectionParams, data: AssignmentData, s: Seq<char>, n: int) -> bool {
        let k = data.key_name@;
        if k == "dynamics"@ {
            field_assigned(new.dynamics, data, s, n) && new == (SubSectionParams { dynamics: new.dynamics, ..old })
        } else {
            new == old
        }
    }

    open spec fn spec_assign_reports(
        old: SubSectionParams,
        new: SubSectionParams,
        data: AssignmentData,
        s: Seq<char>,
        symbols: Seq<Symbol>,
        scopes: Seq<Scope>,
    ) -> Seq<Diagnostic> {
        let k = data.key_name@;
        if k == "dynamics"@ {
            reassignment_reports(old.dynamics, data, symbols, scopes) + <TimedList<Dynamic> as ParseNode>::spec_reports(
                s,
                shape(data.value),
            ) + timing_reports(new.dynamics, data.value_range)
        } else {
            Seq::empty()
        }
    }

    proof fn lemma_fields_grow(&self, n: int, m: int) {
    }

    fn assign_field(&mut self, data: AssignmentData, context: &mut Parser) {
        if str_eq(data.key_name.as_str(), "dynamics") {
            context.assign_field(&data, &mut self.dynamics);
            let ghost base = context.diags();
            if let Some(list) = &self.dynamics {
                let n = list.value.len();
                let mut k: usize = 0;
                assert(base + timing_errors(list.value@.subrange(0, 0), data.value_range) =~= base);
                while k < n
                    invariant
                        context.wf(),
                        context.grown_from(old(context)),
                        self.fields_ok(context.n_symbols()),
                        n == list.value@.len(),
                        k <= n,
                        context.diags() == base + timing_errors(list.value@.subrange(0, k as int), data.value_range),
                    decreases n - k,
                {
                    let ghost upto = list.value@.subrange(0, k as int + 1);
                    assert(upto.drop_last() =~= list.value@.subrange(0, k as int));
                    if let Some(kind) = crate::ast::params::dynamic_timing_error(&list.value[k].value) {
                        context.reporter.error(data.value_range, kind);
                    }
                    assert(context.diags() =~= base + timing_errors(upto, data.value_range));
                    k = k + 1;
                }
                assert(list.value@.subrange(0, n as int) =~= list.value@);
            }
        }
    }
}

impl FieldAssign for DirectiveMap {
    open spec fn fields_ok(&self, n: int) -> bool {
        field_ok(self.version, n)
    }

    open spec fn spec_assigned(old: DirectiveMap, new: DirectiveMap, data: AssignmentData, s: Seq<char>, n: int) -> bool {
        let k = data.key_name@;
        if k == "version"@ {
            field_assigned(new.version, data, s, n) && new == (DirectiveMap { version: new.version, ..old })
        } else {
            new == old
        }
    }

    open spec fn spec_assign_reports(
        old: DirectiveMap,
        new: DirectiveMap,
        data: AssignmentData,
        s: Seq<char>,
        symbols: Seq<Symbol>,
        scopes: Seq<Scope>,
    ) -> Seq<Diagnostic> {
        let k = data.key_name@;
        if k == "version"@ {
            reassignment_reports(old.version, data, symbols, scopes) + <String as ParseNode>::spec_reports(
                s,
                shape(data.value),
            )
        } else {
            Seq::empty()
        }
    }

    proof fn lemma_fields_grow(&self, n: int, m: int) {
    }

    fn assign_field(&mut self, data: AssignmentData, context: &mut Parser) {
        if str_eq(data.key_name.as_str(), "version") {
            context.assign_field(&data, &mut self.version);
        }
    }
}

proof fn lemma_digits_all(s: Seq<char>, a: int, b: int)
    requires
        a <= b,
        crate::ast::lexing::digits_end_spec(s, a, b) == b,
    ensures
        forall|j: int| a <= j < b ==> is_digit_char(#[trigger] s[j]),
    decreases b - a,
{
    if a < b {
        lemma_digits_all(s, a + 1, b);
    }
}

proof fn lemma_digits_not_all(s: Seq<char>, a: int, b: int)
    requires
        a <= b,
        crate::ast::lexing::digits_end_spec(s, a, b) != b,
    ensures
        !(forall|j: int| a <= j < b ==> is_digit_char(#[trigger] s[j])),
    decreases b - a,
{
    if a < b && is_digit_char(s[a]) {
        lemma_digits_not_all(s, a + 1, b);
    }
}

} // verus!
