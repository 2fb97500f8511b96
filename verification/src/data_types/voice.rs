use vstd::prelude::*;

use crate::text::{owned, str_eq};

verus! {

/// A choir voice.
#[derive(Debug, Clone, Copy, PartialEq, Eq, Structural, Hash)]
pub enum Voice {
    S,
    A,
    T,
    B,
}

impl Voice {
    /// The transposition of the voice, in semitones.
    pub open spec fn spec_offset(self) -> int {
        match self {
            Voice::S => 12,
            Voice::A => 0,
            Voice::T => 0,
            Voice::B => -12,
        }
    }

    pub fn offset(self) -> (r: i8)
        ensures
            r == self.spec_offset(),
    {
        match self {
            Voice::S => 12,
            Voice::A => 0,
            Voice::T => 0,
            Voice::B => -12i8,
        }
    }

    /// Which value the textual form names, if any.
    pub open spec fn spec_try_from(s: Seq<char>) -> Result<Voice, ()> {
        if s == "S"@ {
            Ok(Voice::S)
        } else if s == "A"@ {
            Ok(Voice::A)
        } else if s == "T"@ {
            Ok(Voice::T)
        } else if s == "B"@ {
            Ok(Voice::B)
        } else {
            Err(())
        }
    }

    /// Reads a value from the textual form.
    pub fn try_from(value: &str) -> (r: Result<Voice, ()>)
        ensures
            r == Voice::spec_try_from(value@),
    {
        if str_eq(value, "S") {
            Ok(Voice::S)
        } else if str_eq(value, "A") {
            Ok(Voice::A)
        } else if str_eq(value, "T") {
            Ok(Voice::T)
        } else if str_eq(value, "B") {
            Ok(Voice::B)
        } else {
            Err(())
        }
    }

    /// The printed form of the value.
    pub open spec fn spec_text(self) -> Seq<char> {
        match self {
            Voice::S => "S"@,
            Voice::A => "A"@,
            Voice::T => "T"@,
            Voice::B => "B"@,
        }
    }

    /// Prints the value.
    pub fn to_string(&self) -> (r: String)
        ensures
            r@ == self.spec_text(),
    {
        match self {
            Voice::S => owned("S"),
            Voice::A => owned("A"),
            Voice::T => owned("T"),
            Voice::B => owned("B"),
        }
    }
}

/// Reading the printed form of a voice gives it back.
pub proof fn lemma_voice_text_roundtrip(v: Voice)
    ensures
        Voice::spec_try_from(v.spec_text()) == Ok::<Voice, ()>(v),
{
    reveal_strlit("S");
    reveal_strlit("A");
    reveal_strlit("T");
    reveal_strlit("B");
    match v {
        Voice::S => {
        },
        Voice::A => {
            assert("A"@ != "S"@) by {
                assert("A"@[0] != "S"@[0]);
            }
        },
        Voice::T => {
            assert("T"@ != "S"@) by {
                assert("T"@[0] != "S"@[0]);
            }
            assert("T"@ != "A"@) by {
                assert("T"@[0] != "A"@[0]);
            }
        },
        Voice::B => {
            assert("B"@ != "S"@) by {
                assert("B"@[0] != "S"@[0]);
            }
            assert("B"@ != "A"@) by {
                assert("B"@[0] != "A"@[0]);
            }
            assert("B"@ != "T"@) by {
                assert("B"@[0] != "T"@[0]);
            }
        },
    }
}

/// Sopranos sound an octave above altos and tenors, basses an octave below.
pub proof fn lemma_voice_octaves()
    ensures
        Voice::S.spec_offset() == Voice::A.spec_offset() + 12,
        Voice::T.spec_offset() == Voice::A.spec_offset(),
        Voice::B.spec_offset() == Voice::A.spec_offset() - 12,
        Voice::A.spec_offset() == 0,
{
}

} // verus!
