use vstd::prelude::*;

use crate::ast::symbols::{LyricStringId, ScopeId, SymbolRef};
use crate::range::Range;
use crate::text::{owned, str_eq};

verus! {

/// A line of lyrics for one verse.
#[derive(Debug)]
pub struct LyricLine {
    pub sid: ScopeId,
    pub verse: usize,
    pub anchor: Option<Range>,
    pub tokens: Vec<LyricToken>,
}

/// A lyric line is a sequence of columns joined by operators.
#[derive(Debug)]
pub enum LyricToken {
    Column(LyricColumn),
    Operator(LyricOperator),
}

impl LyricToken {
    pub fn is_operator(&self) -> (r: bool)
        ensures
            r == (self is Operator),
    {
        matches!(self, LyricToken::Operator(_))
    }
}

pub type LyricOperator = SymbolRef<LyricOperatorKind>;

/// How two lyric columns are joined.
#[derive(Debug, Clone, Copy, PartialEq, Eq, Structural)]
pub enum LyricOperatorKind {
    Space,
    Concat,
    Newline,
}

/// The lyric text sung over one or more solfa columns.
#[derive(Debug)]
pub struct LyricColumn {
    pub sid: ScopeId,
    pub span: usize,
    pub chunks: Vec<LyricChunk>,
}

pub type LyricChunk = SymbolRef<LyricChunkKind>;

/// A piece of a lyric column.
#[derive(Debug)]
pub enum LyricChunkKind {
    Space,
    Newline,
    Placeholder,
    String(Vec<LyricString>),
}

pub type LyricString = SymbolRef<LyricStringKind>;

/// A piece of a lyric string: stored text, a special character, or an underline marker.
#[derive(Debug, Clone, Copy, PartialEq, Eq, Structural)]
pub enum LyricStringKind {
    UnderlineMarker,
    Reference(LyricStringId),
    SpecialChar(LyricSpecialChar),
}

/// A special character inside lyrics.
#[derive(Debug, Clone, Copy, PartialEq, Eq, Structural)]
pub enum LyricSpecialChar {
    Elision,
}

impl LyricSpecialChar {
    pub open spec fn spec_try_from(s: Seq<char>) -> Result<LyricSpecialChar, ()> {
        if s == "_"@ {
            Ok(LyricSpecialChar::Elision)
        } else {
            Err(())
        }
    }

    pub fn try_from(value: &str) -> (r: Result<LyricSpecialChar, ()>)
        ensures
            r == LyricSpecialChar::spec_try_from(value@),
    {
        if str_eq(value, "_") {
            Ok(LyricSpecialChar::Elision)
        } else {
            Err(())
        }
    }

    pub open spec fn spec_text(self) -> Seq<char> {
        match self {
            LyricSpecialChar::Elision => "‿"@,
        }
    }

    pub fn to_string(&self) -> (r: String)
        ensures
            r@ == self.spec_text(),
    {
        match self {
            LyricSpecialChar::Elision => owned("‿"),
        }
    }
}

/// The kinds of lyric tokens.
#[derive(Debug, Clone, Copy, PartialEq, Eq, Structural)]
pub enum LyricTokenKind {
    Space,
    Concat,
    Newline,
    Placeholder,
    UnderlineMarker,
}

/// The operator a lyric line ends with when it continues in the next section.
#[derive(Debug, Clone, Copy, PartialEq, Eq, Structural)]
pub enum LyricAnchor {
    Newline,
    Space,
    Concat,
}

} // verus!
