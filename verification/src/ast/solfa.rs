use vstd::prelude::*;

use crate::ast::symbols::{ScopeId, SymbolRef};
use crate::data_types::Voice;
use crate::output::render::RenderType;
use crate::text::{decimal_string, decimal_text, owned, str_eq};

verus! {

/// A line of solfa notes for one voice.
#[derive(Debug)]
pub struct SolfaLine {
    pub sid: ScopeId,
    pub voice: SymbolRef<Voice>,
    pub pulses: Vec<Pulse>,
}

/// One pulse of a solfa line: its accent and its tokens.
#[derive(Debug)]
pub struct Pulse {
    pub sid: ScopeId,
    pub accent: SymbolRef<PulseAccent>,
    pub tokens: Vec<PulseToken>,
}

/// The accent that opens a pulse: `|` strong, `!` medium, `:` weak.
#[derive(Debug, Clone, Copy, PartialEq, Eq, Structural)]
pub enum PulseAccent {
    Strong,
    Medium,
    Weak,
}

impl PulseAccent {
    pub open spec fn spec_text(self) -> Seq<char> {
        match self {
            PulseAccent::Strong => "|"@,
            PulseAccent::Medium => "!"@,
            PulseAccent::Weak => ":"@,
        }
    }

    pub fn to_string(&self) -> (r: String)
        ensures
            r@ == self.spec_text(),
    {
        match self {
            PulseAccent::Strong => owned("|"),
            PulseAccent::Medium => owned("!"),
            PulseAccent::Weak => owned(":"),
        }
    }
}

pub type PulseToken = SymbolRef<PulseTokenKind>;

/// A token inside a pulse.
#[derive(Debug, Clone, Copy, PartialEq, Eq, Structural)]
pub enum PulseTokenKind {
    Note(Note),
    ProlongedNote,
    HalfDivision,
    QuarterDivision,
    UnderlineMarker,
}

impl PulseTokenKind {
    pub open spec fn spec_is_beat_divider(self) -> bool {
        self == PulseTokenKind::QuarterDivision || self == PulseTokenKind::HalfDivision
    }

    /// Whether the token divides the pulse: `.` or `,`.
    pub fn is_beat_divider(&self) -> (r: bool)
        ensures
            r == self.spec_is_beat_divider(),
    {
        matches!(self, PulseTokenKind::QuarterDivision | PulseTokenKind::HalfDivision)
    }

    pub open spec fn spec_is_note(self) -> bool {
        self is Note || self == PulseTokenKind::ProlongedNote
    }

    /// Whether the token takes a column: a note or a prolongation.
    pub fn is_note(&self) -> (r: bool)
        ensures
            r == self.spec_is_note(),
    {
        matches!(self, PulseTokenKind::Note(_) | PulseTokenKind::ProlongedNote)
    }
}

/// The seven solfa syllables.
#[derive(Debug, Clone, Copy, PartialEq, Eq, Structural)]
pub enum BaseNote {
    D,
    R,
    M,
    F,
    S,
    L,
    T,
}

impl BaseNote {
    pub open spec fn spec_text(self) -> Seq<char> {
        match self {
            BaseNote::D => "d"@,
            BaseNote::R => "r"@,
            BaseNote::M => "m"@,
            BaseNote::F => "f"@,
            BaseNote::S => "s"@,
            BaseNote::L => "l"@,
            BaseNote::T => "t"@,
        }
    }

    pub fn to_string(&self) -> (r: String)
        ensures
            r@ == self.spec_text(),
    {
        match self {
            BaseNote::D => owned("d"),
            BaseNote::R => owned("r"),
            BaseNote::M => owned("m"),
            BaseNote::F => owned("f"),
            BaseNote::S => owned("s"),
            BaseNote::L => owned("l"),
            BaseNote::T => owned("t"),
        }
    }

    pub open spec fn spec_try_from(s: Seq<char>) -> Result<BaseNote, ()> {
        if s == "d"@ {
            Ok(BaseNote::D)
        } else if s == "r"@ {
            Ok(BaseNote::R)
        } else if s == "m"@ {
            Ok(BaseNote::M)
        } else if s == "f"@ {
            Ok(BaseNote::F)
        } else if s == "s"@ {
            Ok(BaseNote::S)
        } else if s == "l"@ {
            Ok(BaseNote::L)
        } else if s == "t"@ {
            Ok(BaseNote::T)
        } else {
            Err(())
        }
    }

    pub fn try_from(value: &str) -> (r: Result<BaseNote, ()>)
        ensures
            r == BaseNote::spec_try_from(value@),
    {
        if str_eq(value, "d") {
            Ok(BaseNote::D)
        } else if str_eq(value, "r") {
            Ok(BaseNote::R)
        } else if str_eq(value, "m") {
            Ok(BaseNote::M)
        } else if str_eq(value, "f") {
            Ok(BaseNote::F)
        } else if str_eq(value, "s") {
            Ok(BaseNote::S)
        } else if str_eq(value, "l") {
            Ok(BaseNote::L)
        } else if str_eq(value, "t") {
            Ok(BaseNote::T)
        } else {
            Err(())
        }
    }
}

/// A chromatic variation of a note: `i` raises it, `a` lowers it.
#[derive(Debug, Clone, Copy, PartialEq, Eq, Structural)]
pub enum NoteVariation {
    Base,
    Raised,
    Lowered,
}

impl NoteVariation {
    pub open spec fn spec_try_from(s: Seq<char>) -> Result<NoteVariation, ()> {
        if s == "a"@ {
            Ok(NoteVariation::Lowered)
        } else if s == "i"@ {
            Ok(NoteVariation::Raised)
        } else {
            Err(())
        }
    }

    pub fn try_from(value: &str) -> (r: Result<NoteVariation, ()>)
        ensures
            r == NoteVariation::spec_try_from(value@),
    {
        if str_eq(value, "a") {
            Ok(NoteVariation::Lowered)
        } else if str_eq(value, "i") {
            Ok(NoteVariation::Raised)
        } else {
            Err(())
        }
    }

    pub fn default() -> (r: NoteVariation)
        ensures
            r == NoteVariation::Base,
    {
        NoteVariation::Base
    }
}

/// A note: a syllable, its variation and its octave shift.
#[derive(Debug, Clone, Copy, PartialEq, Eq, Structural)]
pub struct Note {
    pub base: BaseNote,
    pub variation: NoteVariation,
    pub octave: i8,
}

impl Note {
    /// The number of characters the note takes: one for the syllable, one more
    /// for a variation, and two more in text for an octave shift.
    pub open spec fn spec_width(self, render_type: RenderType) -> usize {
        (1 + (if self.variation != NoteVariation::Base { 1usize } else { 0usize }) + (
        if render_type == RenderType::Text && self.octave != 0 {
            2usize
        } else {
            0usize
        })) as usize
    }

    pub fn width(&self, render_type: RenderType) -> (r: usize)
        ensures
            r == self.spec_width(render_type),
    {
        let mut result: usize = 1;
        if self.variation != NoteVariation::Base {
            result += 1;
        }
        if render_type == RenderType::Text && self.octave != 0 {
            result += 2;
        }
        result
    }

    /// The syllable, `i` or `a` for a variation, then the octave shift with its sign.
    pub open spec fn spec_text(self) -> Seq<char> {
        self.base.spec_text() + match self.variation {
            NoteVariation::Base => ""@,
            NoteVariation::Raised => "i"@,
            NoteVariation::Lowered => "a"@,
        } + if self.octave < 0 {
            "-"@ + decimal_text((0 - self.octave) as nat)
        } else if self.octave > 0 {
            "+"@ + decimal_text(self.octave as nat)
        } else {
            ""@
        }
    }

    pub fn to_string(&self) -> (r: String)
        ensures
            r@ == self.spec_text(),
    {
        proof {
            reveal_strlit("");
        }
        let mut out = self.base.to_string();
        let variation = match self.variation {
            NoteVariation::Base => "",
            NoteVariation::Raised => "i",
            NoteVariation::Lowered => "a",
        };
        out.append(variation);
        let ghost prefix = out@;
        if self.octave < 0 {
            out.append("-");
            let magnitude = (0 - (self.octave as i16)) as usize;
            let digits = decimal_string(magnitude);
            out.append(digits.as_str());
            assert(out@ =~= prefix + ("-"@ + decimal_text((0 - self.octave) as nat)));
        } else if self.octave > 0 {
            out.append("+");
            let digits = decimal_string(self.octave as usize);
            out.append(digits.as_str());
            assert(out@ =~= prefix + ("+"@ + decimal_text(self.octave as nat)));
        } else {
            assert(out@ =~= prefix + ""@);
        }
        proof {
            assert(out@ =~= self.spec_text());
        }
        out
    }
}

} // verus!
