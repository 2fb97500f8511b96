use vstd::prelude::*;

use crate::text::{owned, str_eq};

verus! {

/// An articulation applied to a single note.
#[derive(Debug, Clone, Copy, PartialEq, Eq, Structural)]
pub enum Touch {
    Staccato,
    Fermata,
    Accent,
}

impl Touch {
    /// Which value the textual form names, if any.
    pub open spec fn spec_try_from(s: Seq<char>) -> Result<Touch, ()> {
        if s == "stc"@ {
            Ok(Touch::Staccato)
        } else if s == "frm"@ {
            Ok(Touch::Fermata)
        } else if s == "acc"@ {
            Ok(Touch::Accent)
        } else {
            Err(())
        }
    }

    /// Reads a value from the textual form.
    pub fn try_from(value: &str) -> (r: Result<Touch, ()>)
        ensures
            r == Touch::spec_try_from(value@),
    {
        if str_eq(value, "stc") {
            Ok(Touch::Staccato)
        } else if str_eq(value, "frm") {
            Ok(Touch::Fermata)
        } else if str_eq(value, "acc") {
            Ok(Touch::Accent)
        } else {
            Err(())
        }
    }

    /// The printed form of the value.
    pub open spec fn spec_text(self) -> Seq<char> {
        match self {
            Touch::Staccato => "stc"@,
            Touch::Fermata => "frm"@,
            Touch::Accent => "acc"@,
        }
    }

    /// Prints the value.
    pub fn to_string(&self) -> (r: String)
        ensures
            r@ == self.spec_text(),
    {
        match self {
            Touch::Staccato => owned("stc"),
            Touch::Fermata => owned("frm"),
            Touch::Accent => owned("acc"),
        }
    }
}

/// Reading the printed form of a touch gives the touch back.
pub proof fn lemma_touch_text_roundtrip(v: Touch)
    ensures
        Touch::spec_try_from(v.spec_text()) == Ok::<Touch, ()>(v),
{
    match v {
        Touch::Staccato => {
            reveal_strlit("stc");
        },
        Touch::Fermata => {
            reveal_strlit("frm");
            reveal_strlit("stc");
            assert("frm"@[0] != "stc"@[0]);
        },
        Touch::Accent => {
            reveal_strlit("acc");
            reveal_strlit("stc");
            assert("acc"@[0] != "stc"@[0]);
            reveal_strlit("frm");
            assert("acc"@[0] != "frm"@[0]);
        },
    }
}

} // verus!
