use vstd::prelude::*;

use crate::ast::solfa::PulseAccent;
use crate::data_types::Voice;
use crate::range::Range;
use crate::text::{decimal_text, owned, push_decimal};

verus! {

/// A problem found in a document.
#[derive(Debug, Clone)]
pub struct Diagnostic {
    pub level: DiagnosticLevel,
    pub kind: DiagnosticKind,
    pub range: Range,
    pub stage: ReportStage,
}

/// What a diagnostic reports.
#[derive(Debug, Clone)]
pub enum DiagnosticKind {
    UnsupportedVersion(String),
    SyntaxError,
    Missing(String),
    InvalidUTF8,
    KeyReassignment(String, Range),
    UnknownField(String),
    UnknownParameter(String),
    ExpectedType(&'static str, &'static str),
    InvalidType(&'static str),
    InvalidTimeSignature,
    ExpectedTimestampRange,
    RangeNotAllowed,
    InvalidVoice(String),
    UndefinedVoice(Voice, Range),
    VoiceMismatch(Voice, Voice),
    InvalidNoteDistribution,
    PulseCountMismatch(usize, usize, Range),
    VoiceCountMismatch(usize, usize, Range),
    UnmatchedUnderline,
    MismatchedVerseIndex(usize, usize),
    ExpectedLyricAnchor,
    InvalidNoteProlongation,
    MismatchedPulseAccent(PulseAccent, PulseAccent, Range),
    TrailingLyric(Vec<Range>),
    InvalidVoiceDistribution(Range),
    VerseMismatch(usize, usize, Range),
    UndefinedVersesMetadata(Range),
    UndefinedVoiceMetadata(Range),
    UndefinedTimeParameter(Range),
    NonTopLevelParamsOverride(Range),
    ExpectedLyricJoin(Range),
    UnusedLyricJoin(Range),
    InvalidSectionMerge(Range),
    UnmatchedTimestamp,
    NonTopLevelSectionMetadata(Range),
}

impl DiagnosticKind {
    /// The code of the kind: `E` and three digits, one code per kind.
    pub open spec fn spec_code(self) -> Seq<char> {
        match self {
            DiagnosticKind::UnsupportedVersion(..) => "E000"@,
            DiagnosticKind::SyntaxError => "E001"@,
            DiagnosticKind::Missing(..) => "E002"@,
            DiagnosticKind::InvalidUTF8 => "E003"@,
            DiagnosticKind::KeyReassignment(..) => "E004"@,
            DiagnosticKind::UnknownField(..) => "E005"@,
            DiagnosticKind::UnknownParameter(..) => "E006"@,
            DiagnosticKind::ExpectedType(..) => "E007"@,
            DiagnosticKind::InvalidType(..) => "E008"@,
            DiagnosticKind::InvalidTimeSignature => "E009"@,
            DiagnosticKind::ExpectedTimestampRange => "E010"@,
            DiagnosticKind::RangeNotAllowed => "E011"@,
            DiagnosticKind::InvalidVoice(..) => "E012"@,
            DiagnosticKind::UndefinedVoice(..) => "E013"@,
            DiagnosticKind::VoiceMismatch(..) => "E014"@,
            DiagnosticKind::InvalidNoteDistribution => "E015"@,
            DiagnosticKind::PulseCountMismatch(..) => "E016"@,
            DiagnosticKind::VoiceCountMismatch(..) => "E017"@,
            DiagnosticKind::UnmatchedUnderline => "E018"@,
            DiagnosticKind::MismatchedVerseIndex(..) => "E019"@,
            DiagnosticKind::ExpectedLyricAnchor => "E020"@,
            DiagnosticKind::InvalidNoteProlongation => "E021"@,
            DiagnosticKind::MismatchedPulseAccent(..) => "E022"@,
            DiagnosticKind::TrailingLyric(..) => "E023"@,
            DiagnosticKind::InvalidVoiceDistribution(..) => "E024"@,
            DiagnosticKind::VerseMismatch(..) => "E025"@,
            DiagnosticKind::UndefinedVersesMetadata(..) => "E026"@,
            DiagnosticKind::UndefinedVoiceMetadata(..) => "E027"@,
            DiagnosticKind::UndefinedTimeParameter(..) => "E028"@,
            DiagnosticKind::NonTopLevelParamsOverride(..) => "E029"@,
            DiagnosticKind::ExpectedLyricJoin(..) => "E030"@,
            DiagnosticKind::UnusedLyricJoin(..) => "E031"@,
            DiagnosticKind::InvalidSectionMerge(..) => "E032"@,
            DiagnosticKind::UnmatchedTimestamp => "E033"@,
            DiagnosticKind::NonTopLevelSectionMetadata(..) => "E034"@,
        }
    }

    pub fn get_code(&self) -> (r: &'static str)
        ensures
            r@ == self.spec_code(),
    {
        match self {
            DiagnosticKind::UnsupportedVersion(..) => "E000",
            DiagnosticKind::SyntaxError => "E001",
            DiagnosticKind::Missing(..) => "E002",
            DiagnosticKind::InvalidUTF8 => "E003",
            DiagnosticKind::KeyReassignment(..) => "E004",
            DiagnosticKind::UnknownField(..) => "E005",
            DiagnosticKind::UnknownParameter(..) => "E006",
            DiagnosticKind::ExpectedType(..) => "E007",
            DiagnosticKind::InvalidType(..) => "E008",
            DiagnosticKind::InvalidTimeSignature => "E009",
            DiagnosticKind::ExpectedTimestampRange => "E010",
            DiagnosticKind::RangeNotAllowed => "E011",
            DiagnosticKind::InvalidVoice(..) => "E012",
            DiagnosticKind::UndefinedVoice(..) => "E013",
            DiagnosticKind::VoiceMismatch(..) => "E014",
            DiagnosticKind::InvalidNoteDistribution => "E015",
            DiagnosticKind::PulseCountMismatch(..) => "E016",
            DiagnosticKind::VoiceCountMismatch(..) => "E017",
            DiagnosticKind::UnmatchedUnderline => "E018",
            DiagnosticKind::MismatchedVerseIndex(..) => "E019",
            DiagnosticKind::ExpectedLyricAnchor => "E020",
            DiagnosticKind::InvalidNoteProlongation => "E021",
            DiagnosticKind::MismatchedPulseAccent(..) => "E022",
            DiagnosticKind::TrailingLyric(..) => "E023",
            DiagnosticKind::InvalidVoiceDistribution(..) => "E024",
            DiagnosticKind::VerseMismatch(..) => "E025",
            DiagnosticKind::UndefinedVersesMetadata(..) => "E026",
            DiagnosticKind::UndefinedVoiceMetadata(..) => "E027",
            DiagnosticKind::UndefinedTimeParameter(..) => "E028",
            DiagnosticKind::NonTopLevelParamsOverride(..) => "E029",
            DiagnosticKind::ExpectedLyricJoin(..) => "E030",
            DiagnosticKind::UnusedLyricJoin(..) => "E031",
            DiagnosticKind::InvalidSectionMerge(..) => "E032",
            DiagnosticKind::UnmatchedTimestamp => "E033",
            DiagnosticKind::NonTopLevelSectionMetadata(..) => "E034",
        }
    }

    /// The message of the diagnostic.
    pub open spec fn spec_message(self) -> Seq<char> {
        match self {
            DiagnosticKind::UnsupportedVersion(x0) => "unsupported version "@ + x0@ + " (=0.1.0-alpha)"@,
            DiagnosticKind::SyntaxError => "syntax error"@,
            DiagnosticKind::Missing(x0) => "missing '"@ + x0@ + "'"@,
            DiagnosticKind::InvalidUTF8 => "invalid UTF-8"@,
            DiagnosticKind::KeyReassignment(x0, x1) => "reassignment of key '"@ + x0@ + "'"@,
            DiagnosticKind::UnknownField(x0) => "unknown metadata field '"@ + x0@ + "'"@,
            DiagnosticKind::UnknownParameter(x0) => "unknown parameter '"@ + x0@ + "'"@,
            DiagnosticKind::ExpectedType(x0, x1) => "expected "@ + x0@ + ", got "@ + x1@,
            DiagnosticKind::InvalidType(x0) => "invalid "@ + x0@,
            DiagnosticKind::InvalidTimeSignature => "invalid time signature, expected two non-null integers"@,
            DiagnosticKind::ExpectedTimestampRange => "expected a range for timestamp"@,
            DiagnosticKind::RangeNotAllowed => "range not allowed for this event"@,
            DiagnosticKind::InvalidVoice(x0) => "invalid voice '"@ + x0@ + "'"@,
            DiagnosticKind::UndefinedVoice(x0, x1) => "undefined voice '"@ + x0.spec_text() + "'"@,
            DiagnosticKind::VoiceMismatch(x0, x1) => "expected '"@ + x0.spec_text() + "', got '"@ + x1.spec_text() + "'"@,
            DiagnosticKind::InvalidNoteDistribution => "invalid note distribution"@,
            DiagnosticKind::PulseCountMismatch(x0, x1, x2) => "expected "@ + decimal_text(x0 as nat) + " pulses, got "@ + decimal_text(x1 as nat),
            DiagnosticKind::VoiceCountMismatch(x0, x1, x2) => "expected "@ + decimal_text(x0 as nat) + " voices, got "@ + decimal_text(x1 as nat),
            DiagnosticKind::UnmatchedUnderline => "unmatched underline delimiter '`'"@,
            DiagnosticKind::MismatchedVerseIndex(x0, x1) => "expected "@ + decimal_text(x0 as nat) + ", got "@ + decimal_text(x1 as nat),
            DiagnosticKind::ExpectedLyricAnchor => "trailing operator, missing '...'"@,
            DiagnosticKind::InvalidNoteProlongation => "invalid note prolongation"@,
            DiagnosticKind::MismatchedPulseAccent(x0, x1, x2) => "expected '"@ + x0.spec_text() + "', got '"@ + x1.spec_text() + "'"@,
            DiagnosticKind::TrailingLyric(x0) => "trailing lyric, no solfa column matched"@,
            DiagnosticKind::InvalidVoiceDistribution(x0) => "voice distribution doesn't match splits"@,
            DiagnosticKind::VerseMismatch(x0, x1, x2) => "expected "@ + decimal_text(x0 as nat) + " verses, got "@ + decimal_text(x1 as nat),
            DiagnosticKind::UndefinedVersesMetadata(x0) => "'verses' metadata has not been defined"@,
            DiagnosticKind::UndefinedVoiceMetadata(x0) => "'voices' metadata has not been defined"@,
            DiagnosticKind::UndefinedTimeParameter(x0) => "'time' parameter has not been defined"@,
            DiagnosticKind::NonTopLevelParamsOverride(x0) => "parameter override should be done at the top level"@,
            DiagnosticKind::ExpectedLyricJoin(x0) => "missing lyrics operator and anchor"@,
            DiagnosticKind::UnusedLyricJoin(x0) => "lyrics join is unused (must be followed by a section)"@,
            DiagnosticKind::InvalidSectionMerge(x0) => "merged section structure does not match previous"@,
            DiagnosticKind::UnmatchedTimestamp => "timestamp is unmatched"@,
            DiagnosticKind::NonTopLevelSectionMetadata(x0) => "section metadata should be declared at the top level"@,
        }
    }

    pub fn message(&self) -> (r: String)
        ensures
            r@ == self.spec_message(),
    {
        match self {
            DiagnosticKind::UnsupportedVersion(x0) =>             {
        let mut out = String::new();
        out.append("unsupported version ");
        out.append(x0.as_str());
        out.append(" (=0.1.0-alpha)");
        assert(out@ =~= self.spec_message());
        out
            },
            DiagnosticKind::SyntaxError =>             {
        let mut out = String::new();
        out.append("syntax error");
        assert(out@ =~= self.spec_message());
        out
            },
            DiagnosticKind::Missing(x0) =>             {
        let mut out = String::new();
        out.append("missing '");
        out.append(x0.as_str());
        out.append("'");
        assert(out@ =~= self.spec_message());
        out
            },
            DiagnosticKind::InvalidUTF8 =>             {
        let mut out = String::new();
        out.append("invalid UTF-8");
        assert(out@ =~= self.spec_message());
        out
            },
            DiagnosticKind::KeyReassignment(x0, x1) =>             {
        let mut out = String::new();
        out.append("reassignment of key '");
        out.append(x0.as_str());
        out.append("'");
        assert(out@ =~= self.spec_message());
        out
            },
            DiagnosticKind::UnknownField(x0) =>             {
        let mut out = String::new();
        out.append("unknown metadata field '");
        out.append(x0.as_str());
        out.append("'");
        assert(out@ =~= self.spec_message());
        out
            },
            DiagnosticKind::UnknownParameter(x0) =>             {
        let mut out = String::new();
        out.append("unknown parameter '");
        out.append(x0.as_str());
        out.append("'");
        assert(out@ =~= self.spec_message());
        out
            },
            DiagnosticKind::ExpectedType(x0, x1) =>             {
        let mut out = String::new();
        out.append("expected ");
        out.append(*x0);
        out.append(", got ");
        out.append(*x1);
        assert(out@ =~= self.spec_message());
        out
            },
            DiagnosticKind::InvalidType(x0) =>             {
        let mut out = String::new();
        out.append("invalid ");
        out.append(*x0);
        assert(out@ =~= self.spec_message());
        out
            },
            DiagnosticKind::InvalidTimeSignature =>             {
        let mut out = String::new();
        out.append("invalid time signature, expected two non-null integers");
        assert(out@ =~= self.spec_message());
        out
            },
            DiagnosticKind::ExpectedTimestampRange =>             {
        let mut out = String::new();
        out.append("expected a range for timestamp");
        assert(out@ =~= self.spec_message());
        out
            },
            DiagnosticKind::RangeNotAllowed =>             {
        let mut out = String::new();
        out.append("range not allowed for this event");
        assert(out@ =~= self.spec_message());
        out
            },
            DiagnosticKind::InvalidVoice(x0) =>             {
        let mut out = String::new();
        out.append("invalid voice '");
        out.append(x0.as_str());
        out.append("'");
        assert(out@ =~= self.spec_message());
        out
            },
            DiagnosticKind::UndefinedVoice(x0, x1) =>             {
        let mut out = String::new();
        out.append("undefined voice '");
        out.append(x0.to_string().as_str());
        out.append("'");
        assert(out@ =~= self.spec_message());
        out
            },
            DiagnosticKind::VoiceMismatch(x0, x1) =>             {
        let mut out = String::new();
        out.append("expected '");
        out.append(x0.to_string().as_str());
        out.append("', got '");
        out.append(x1.to_string().as_str());
        out.append("'");
        assert(out@ =~= self.spec_message());
        out
            },
            DiagnosticKind::InvalidNoteDistribution =>             {
        let mut out = String::new();
        out.append("invalid note distribution");
        assert(out@ =~= self.spec_message());
        out
            },
            DiagnosticKind::PulseCountMismatch(x0, x1, x2) =>             {
        let mut out = String::new();
        out.append("expected ");
        push_decimal(&mut out, *x0);
        out.append(" pulses, got ");
        push_decimal(&mut out, *x1);
        assert(out@ =~= self.spec_message());
        out
            },
            DiagnosticKind::VoiceCountMismatch(x0, x1, x2) =>             {
        let mut out = String::new();
        out.append("expected ");
        push_decimal(&mut out, *x0);
        out.append(" voices, got ");
        push_decimal(&mut out, *x1);
        assert(out@ =~= self.spec_message());
        out
            },
            DiagnosticKind::UnmatchedUnderline =>             {
        let mut out = String::new();
        out.append("unmatched underline delimiter '`'");
        assert(out@ =~= self.spec_message());
        out
            },
            DiagnosticKind::MismatchedVerseIndex(x0, x1) =>             {
        let mut out = String::new();
        out.append("expected ");
        push_decimal(&mut out, *x0);
        out.append(", got ");
        push_decimal(&mut out, *x1);
        assert(out@ =~= self.spec_message());
        out
            },
            DiagnosticKind::ExpectedLyricAnchor =>             {
        let mut out = String::new();
        out.append("trailing operator, missing '...'");
        assert(out@ =~= self.spec_message());
        out
            },
            DiagnosticKind::InvalidNoteProlongation =>             {
        let mut out = String::new();
        out.append("invalid note prolongation");
        assert(out@ =~= self.spec_message());
        out
            },
            DiagnosticKind::MismatchedPulseAccent(x0, x1, x2) =>             {
        let mut out = String::new();
        out.append("expected '");
        out.append(x0.to_string().as_str());
        out.append("', got '");
        out.append(x1.to_string().as_str());
        out.append("'");
        assert(out@ =~= self.spec_message());
        out
            },
            DiagnosticKind::TrailingLyric(x0) =>             {
        let mut out = String::new();
        out.append("trailing lyric, no solfa column matched");
        assert(out@ =~= self.spec_message());
        out
            },
            DiagnosticKind::InvalidVoiceDistribution(x0) =>             {
        let mut out = String::new();
        out.append("voice distribution doesn't match splits");
        assert(out@ =~= self.spec_message());
        out
            },
            DiagnosticKind::VerseMismatch(x0, x1, x2) =>             {
        let mut out = String::new();
        out.append("expected ");
        push_decimal(&mut out, *x0);
        out.append(" verses, got ");
        push_decimal(&mut out, *x1);
        assert(out@ =~= self.spec_message());
        out
            },
            DiagnosticKind::UndefinedVersesMetadata(x0) =>             {
        let mut out = String::new();
        out.append("'verses' metadata has not been defined");
        assert(out@ =~= self.spec_message());
        out
            },
            DiagnosticKind::UndefinedVoiceMetadata(x0) =>             {
        let mut out = String::new();
        out.append("'voices' metadata has not been defined");
        assert(out@ =~= self.spec_message());
        out
            },
            DiagnosticKind::UndefinedTimeParameter(x0) =>             {
        let mut out = String::new();
        out.append("'time' parameter has not been defined");
        assert(out@ =~= self.spec_message());
        out
            },
            DiagnosticKind::NonTopLevelParamsOverride(x0) =>             {
        let mut out = String::new();
        out.append("parameter override should be done at the top level");
        assert(out@ =~= self.spec_message());
        out
            },
            DiagnosticKind::ExpectedLyricJoin(x0) =>             {
        let mut out = String::new();
        out.append("missing lyrics operator and anchor");
        assert(out@ =~= self.spec_message());
        out
            },
            DiagnosticKind::UnusedLyricJoin(x0) =>             {
        let mut out = String::new();
        out.append("lyrics join is unused (must be followed by a section)");
        assert(out@ =~= self.spec_message());
        out
            },
            DiagnosticKind::InvalidSectionMerge(x0) =>             {
        let mut out = String::new();
        out.append("merged section structure does not match previous");
        assert(out@ =~= self.spec_message());
        out
            },
            DiagnosticKind::UnmatchedTimestamp =>             {
        let mut out = String::new();
        out.append("timestamp is unmatched");
        assert(out@ =~= self.spec_message());
        out
            },
            DiagnosticKind::NonTopLevelSectionMetadata(x0) =>             {
        let mut out = String::new();
        out.append("section metadata should be declared at the top level");
        assert(out@ =~= self.spec_message());
        out
            },
        }
    }

    /// The label shown under the primary span, for the kinds that have one.
    pub open spec fn spec_label(self) -> Option<Seq<char>> {
        match self {
            DiagnosticKind::KeyReassignment(name, _) => Some("'"@ + name@ + "' has been reassigned here"@),
            _ => None,
        }
    }

    pub fn get_label(&self) -> (r: Option<String>)
        ensures
            match r {
                Some(s) => self.spec_label() == Some(s@),
                None => self.spec_label() is None,
            },
    {
        match self {
            DiagnosticKind::KeyReassignment(name, _) => {
                let mut out = owned("'");
                out.append(name.as_str());
                out.append("' has been reassigned here");
                Some(out)
            },
            _ => None,
        }
    }

    /// The related spans of the kind, each with its message.
    pub open spec fn spec_extra_info(self) -> Seq<(Seq<char>, Range)> {
        match self {
            DiagnosticKind::KeyReassignment(x0, x1) => seq![("'"@ + x0@ + "' has been assigned here"@, x1)],
            DiagnosticKind::PulseCountMismatch(x0, x1, x2) => seq![("this line has "@ + decimal_text(x0 as nat) + " pulses"@, x2)],
            DiagnosticKind::VoiceCountMismatch(x0, x1, x2) => seq![("voices defined here"@, x2)],
            DiagnosticKind::TrailingLyric(ranges) => ranges@.map_values(|r: Range| ("add more columns here"@, r)),
            DiagnosticKind::InvalidVoiceDistribution(x0) => seq![("voices defined here"@, x0)],
            DiagnosticKind::VerseMismatch(x0, x1, x2) => seq![("verses defined here"@, x2)],
            DiagnosticKind::UndefinedVersesMetadata(x0) => seq![("consider adding 'verses' metadata"@, x0)],
            DiagnosticKind::UndefinedVoiceMetadata(x0) => seq![("consider adding 'voice' metadata"@, x0)],
            DiagnosticKind::UndefinedTimeParameter(x0) => seq![("consider adding 'time' parameter"@, x0)],
            DiagnosticKind::NonTopLevelParamsOverride(x0) => seq![("set parameter override here"@, x0)],
            DiagnosticKind::ExpectedLyricJoin(x0) => seq![("next section here"@, x0)],
            DiagnosticKind::UnusedLyricJoin(x0) => seq![("consider adding a next section"@, x0)],
            DiagnosticKind::InvalidSectionMerge(x0) => seq![("root section defined here"@, x0)],
            DiagnosticKind::NonTopLevelSectionMetadata(x0) => seq![("declare section metadata here"@, x0)],
            _ => Seq::empty(),
        }
    }

    pub fn get_extra_info(&self) -> (r: Vec<DiagnosticRelatedInfo>)
        ensures
            r@.len() == self.spec_extra_info().len(),
            forall|i: int|
                0 <= i < r@.len() ==> (#[trigger] r@[i]).message@ == self.spec_extra_info()[i].0
                    && r@[i].range == self.spec_extra_info()[i].1,
    {
        let mut result: Vec<DiagnosticRelatedInfo> = Vec::new();
        match self {
            DiagnosticKind::KeyReassignment(x0, x1) => {
        let mut out = String::new();
        out.append("'");
        out.append(x0.as_str());
        out.append("' has been assigned here");
        assert(out@ =~= self.spec_extra_info()[0].0);
        result.push(DiagnosticRelatedInfo { message: out, range: *x1 });
            },
            DiagnosticKind::PulseCountMismatch(x0, x1, x2) => {
        let mut out = String::new();
        out.append("this line has ");
        push_decimal(&mut out, *x0);
        out.append(" pulses");
        assert(out@ =~= self.spec_extra_info()[0].0);
        result.push(DiagnosticRelatedInfo { message: out, range: *x2 });
            },
            DiagnosticKind::VoiceCountMismatch(x0, x1, x2) => {
        let mut out = String::new();
        out.append("voices defined here");
        assert(out@ =~= self.spec_extra_info()[0].0);
        result.push(DiagnosticRelatedInfo { message: out, range: *x2 });
            },
            DiagnosticKind::InvalidVoiceDistribution(x0) => {
        let mut out = String::new();
        out.append("voices defined here");
        assert(out@ =~= self.spec_extra_info()[0].0);
        result.push(DiagnosticRelatedInfo { message: out, range: *x0 });
            },
            DiagnosticKind::VerseMismatch(x0, x1, x2) => {
        let mut out = String::new();
        out.append("verses defined here");
        assert(out@ =~= self.spec_extra_info()[0].0);
        result.push(DiagnosticRelatedInfo { message: out, range: *x2 });
            },
            DiagnosticKind::UndefinedVersesMetadata(x0) => {
        let mut out = String::new();
        out.append("consider adding 'verses' metadata");
        assert(out@ =~= self.spec_extra_info()[0].0);
        result.push(DiagnosticRelatedInfo { message: out, range: *x0 });
            },
            DiagnosticKind::UndefinedVoiceMetadata(x0) => {
        let mut out = String::new();
        out.append("consider adding 'voice' metadata");
        assert(out@ =~= self.spec_extra_info()[0].0);
        result.push(DiagnosticRelatedInfo { message: out, range: *x0 });
            },
            DiagnosticKind::UndefinedTimeParameter(x0) => {
        let mut out = String::new();
        out.append("consider adding 'time' parameter");
        assert(out@ =~= self.spec_extra_info()[0].0);
        result.push(DiagnosticRelatedInfo { message: out, range: *x0 });
            },
            DiagnosticKind::NonTopLevelParamsOverride(x0) => {
        let mut out = String::new();
        out.append("set parameter override here");
        assert(out@ =~= self.spec_extra_info()[0].0);
        result.push(DiagnosticRelatedInfo { message: out, range: *x0 });
            },
            DiagnosticKind::ExpectedLyricJoin(x0) => {
        let mut out = String::new();
        out.append("next section here");
        assert(out@ =~= self.spec_extra_info()[0].0);
        result.push(DiagnosticRelatedInfo { message: out, range: *x0 });
            },
            DiagnosticKind::UnusedLyricJoin(x0) => {
        let mut out = String::new();
        out.append("consider adding a next section");
        assert(out@ =~= self.spec_extra_info()[0].0);
        result.push(DiagnosticRelatedInfo { message: out, range: *x0 });
            },
            DiagnosticKind::InvalidSectionMerge(x0) => {
        let mut out = String::new();
        out.append("root section defined here");
        assert(out@ =~= self.spec_extra_info()[0].0);
        result.push(DiagnosticRelatedInfo { message: out, range: *x0 });
            },
            DiagnosticKind::NonTopLevelSectionMetadata(x0) => {
        let mut out = String::new();
        out.append("declare section metadata here");
        assert(out@ =~= self.spec_extra_info()[0].0);
        result.push(DiagnosticRelatedInfo { message: out, range: *x0 });
            },
            DiagnosticKind::TrailingLyric(ranges) => {
                let n = ranges.len();
                let mut i: usize = 0;
                while i < n
                    invariant
                        n == ranges@.len(),
                        i <= n,
                        result@.len() == i,
                        forall|j: int|
                            0 <= j < i ==> (#[trigger] result@[j]).message@ == "add more columns here"@
                                && result@[j].range == ranges@[j],
                    decreases n - i,
                {
                    result.push(DiagnosticRelatedInfo { message: owned("add more columns here"), range: ranges[i] });
                    i = i + 1;
                }
            },
            _ => {},
        }
        result
    }
}

/// How serious a diagnostic is.
#[derive(Debug, Clone, Copy, PartialEq, Eq, Structural)]
pub enum DiagnosticLevel {
    Error,
    Warning,
    Info,
    Help,
}

impl Diagnostic {
    /// The bytes the diagnostic covers, as a start and an end.
    pub fn byte_range(&self) -> (r: (usize, usize))
        ensures
            r == (self.range.start_byte, self.range.end_byte),
    {
        (self.range.start_byte, self.range.end_byte)
    }

    pub fn is_error(&self) -> (r: bool)
        ensures
            r == (self.level == DiagnosticLevel::Error),
    {
        matches!(self.level, DiagnosticLevel::Error)
    }
}

/// A span related to a diagnostic, with its message.
#[derive(Debug)]
pub struct DiagnosticRelatedInfo {
    pub message: String,
    pub range: Range,
}

/// The step of the analysis that reported a diagnostic.
#[derive(Debug, Clone, Copy, PartialEq, Eq, Structural)]
pub enum ReportStage {
    Parsing,
    IRBuild,
    Validation,
}

/// Every code is the letter `E` followed by three decimal digits.
pub proof fn lemma_code_shape(kind: DiagnosticKind)
    ensures
        kind.spec_code().len() == 4,
        kind.spec_code()[0] == 'E',
        forall|i: int| 1 <= i < 4 ==> '0' <= #[trigger] kind.spec_code()[i] <= '9',
{
    match kind {
        DiagnosticKind::UnsupportedVersion(..) => { reveal_strlit("E000"); },
        DiagnosticKind::SyntaxError => { reveal_strlit("E001"); },
        DiagnosticKind::Missing(..) => { reveal_strlit("E002"); },
        DiagnosticKind::InvalidUTF8 => { reveal_strlit("E003"); },
        DiagnosticKind::KeyReassignment(..) => { reveal_strlit("E004"); },
        DiagnosticKind::UnknownField(..) => { reveal_strlit("E005"); },
        DiagnosticKind::UnknownParameter(..) => { reveal_strlit("E006"); },
        DiagnosticKind::ExpectedType(..) => { reveal_strlit("E007"); },
        DiagnosticKind::InvalidType(..) => { reveal_strlit("E008"); },
        DiagnosticKind::InvalidTimeSignature => { reveal_strlit("E009"); },
        DiagnosticKind::ExpectedTimestampRange => { reveal_strlit("E010"); },
        DiagnosticKind::RangeNotAllowed => { reveal_strlit("E011"); },
        DiagnosticKind::InvalidVoice(..) => { reveal_strlit("E012"); },
        DiagnosticKind::UndefinedVoice(..) => { reveal_strlit("E013"); },
        DiagnosticKind::VoiceMismatch(..) => { reveal_strlit("E014"); },
        DiagnosticKind::InvalidNoteDistribution => { reveal_strlit("E015"); },
        DiagnosticKind::PulseCountMismatch(..) => { reveal_strlit("E016"); },
        DiagnosticKind::VoiceCountMismatch(..) => { reveal_strlit("E017"); },
        DiagnosticKind::UnmatchedUnderline => { reveal_strlit("E018"); },
        DiagnosticKind::MismatchedVerseIndex(..) => { reveal_strlit("E019"); },
        DiagnosticKind::ExpectedLyricAnchor => { reveal_strlit("E020"); },
        DiagnosticKind::InvalidNoteProlongation => { reveal_strlit("E021"); },
        DiagnosticKind::MismatchedPulseAccent(..) => { reveal_strlit("E022"); },
        DiagnosticKind::TrailingLyric(..) => { reveal_strlit("E023"); },
        DiagnosticKind::InvalidVoiceDistribution(..) => { reveal_strlit("E024"); },
        DiagnosticKind::VerseMismatch(..) => { reveal_strlit("E025"); },
        DiagnosticKind::UndefinedVersesMetadata(..) => { reveal_strlit("E026"); },
        DiagnosticKind::UndefinedVoiceMetadata(..) => { reveal_strlit("E027"); },
        DiagnosticKind::UndefinedTimeParameter(..) => { reveal_strlit("E028"); },
        DiagnosticKind::NonTopLevelParamsOverride(..) => { reveal_strlit("E029"); },
        DiagnosticKind::ExpectedLyricJoin(..) => { reveal_strlit("E030"); },
        DiagnosticKind::UnusedLyricJoin(..) => { reveal_strlit("E031"); },
        DiagnosticKind::InvalidSectionMerge(..) => { reveal_strlit("E032"); },
        DiagnosticKind::UnmatchedTimestamp => { reveal_strlit("E033"); },
        DiagnosticKind::NonTopLevelSectionMetadata(..) => { reveal_strlit("E034"); },
    }
}

} // verus!
